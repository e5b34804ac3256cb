use run_groups::model::{parse_day, parse_time, Day, ModelError, Time};
use run_groups::text::{create_group_id, none_if_empty};

#[test]
fn day_names_in_any_casing() {
    for raw in ["MONDAY", "monday", "Monday", "mOnDaY", "  Monday "] {
        assert_eq!(parse_day(raw.to_string()).unwrap(), Day::Monday);
    }
    assert_eq!(parse_day("tuesday".to_string()).unwrap(), Day::Tuesday);
    assert_eq!(parse_day("WEDNESDAY".to_string()).unwrap(), Day::Wednesday);
    assert_eq!(parse_day("Thursday".to_string()).unwrap(), Day::Thursday);
    assert_eq!(parse_day("friday".to_string()).unwrap(), Day::Friday);
    assert_eq!(parse_day("Saturday".to_string()).unwrap(), Day::Saturday);
    assert_eq!(parse_day("SUNDAY".to_string()).unwrap(), Day::Sunday);
}

#[test]
fn other_day_text_is_rejected() {
    for raw in ["Funday", "", "mon", "mondays", "Monday,"] {
        match parse_day(raw.to_string()) {
            Err(ModelError::InvalidDay(s)) => assert_eq!(s, raw),
            other => panic!("unexpected {:?}", other),
        }
    }
}

#[test]
fn clock_times_with_am_and_pm() {
    assert_eq!(parse_time("9:30am".to_string()).unwrap(), Time::ClockTime(9, 30));
    assert_eq!(parse_time("2:15pm".to_string()).unwrap(), Time::ClockTime(14, 15));
    assert_eq!(parse_time("6:00".to_string()).unwrap(), Time::ClockTime(6, 0));
    assert_eq!(parse_time("18:45".to_string()).unwrap(), Time::ClockTime(18, 45));
    assert_eq!(parse_time(" 6:00 AM ".to_string()).unwrap(), Time::ClockTime(6, 0));
    assert_eq!(parse_time("12:05pm".to_string()).unwrap(), Time::ClockTime(12, 5));
    assert_eq!(parse_time("07:10 PM".to_string()).unwrap(), Time::ClockTime(19, 10));
}

#[test]
fn parts_of_the_day() {
    assert_eq!(parse_time("Morning".to_string()).unwrap(), Time::Morning);
    assert_eq!(parse_time("morning".to_string()).unwrap(), Time::Morning);
    assert_eq!(parse_time("AFTERNOON".to_string()).unwrap(), Time::Afternoon);
    assert_eq!(parse_time(" Evening".to_string()).unwrap(), Time::Evening);
}

#[test]
fn bad_times_are_rejected() {
    for raw in ["13:99", "24:00", "13:00pm", "0:30pm", "noon", "", "9:3", "930", "9:30 xm", "123:00"] {
        match parse_time(raw.to_string()) {
            Err(ModelError::InvalidTime(s)) => assert_eq!(s, raw),
            other => panic!("unexpected {:?} for {:?}", other, raw),
        }
    }
}

#[test]
fn slugs() {
    assert_eq!(create_group_id("Austin Runners Club"), "austin-runners-club");
    assert_eq!(create_group_id("foo-bar"), "foo-bar");
    assert_eq!(create_group_id(&create_group_id("Trail Runners")), "trail-runners");
    assert_eq!(create_group_id("Café  Run!"), "café--run!");
    assert_eq!(create_group_id(""), "");
}

#[test]
fn blank_fields_are_absent() {
    assert_eq!(none_if_empty("".to_string()), None);
    assert_eq!(none_if_empty("   ".to_string()), None);
    assert_eq!(none_if_empty("\t\n".to_string()), None);
    assert_eq!(none_if_empty("Park Run".to_string()), Some("Park Run".to_string()));
    assert_eq!(none_if_empty(" Park Run ".to_string()), Some(" Park Run ".to_string()));
}
