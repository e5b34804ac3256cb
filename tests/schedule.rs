use run_groups::model::{Day, Meetup, Time};
use run_groups::schedule::{group_meetups, minutes_of, render_time, sort_by_time};

fn meetup(group: &str, day: Day, time: Time) -> Meetup {
    Meetup {
        group: group.to_string(),
        group_id: group.to_lowercase(),
        day,
        time,
        description: None,
        location: None,
    }
}

#[test]
fn effective_minutes() {
    assert_eq!(minutes_of(&Time::Morning), 360);
    assert_eq!(minutes_of(&Time::Afternoon), 720);
    assert_eq!(minutes_of(&Time::Evening), 1080);
    assert_eq!(minutes_of(&Time::ClockTime(6, 30)), 390);
    assert_eq!(minutes_of(&Time::ClockTime(23, 59)), 1439);
}

#[test]
fn sorted_by_effective_minute() {
    let input = vec![
        meetup("a", Day::Monday, Time::ClockTime(7, 0)),
        meetup("b", Day::Monday, Time::Morning),
        meetup("c", Day::Monday, Time::ClockTime(6, 30)),
    ];
    let sorted = sort_by_time(input);
    let times: Vec<Time> = sorted.iter().map(|m| m.time).collect();
    assert_eq!(times, vec![Time::Morning, Time::ClockTime(6, 30), Time::ClockTime(7, 0)]);
}

#[test]
fn equal_times_keep_their_order() {
    let input = vec![
        meetup("first", Day::Monday, Time::Evening),
        meetup("early", Day::Monday, Time::Morning),
        meetup("second", Day::Monday, Time::Evening),
        meetup("six", Day::Monday, Time::ClockTime(18, 0)),
    ];
    let sorted = sort_by_time(input);
    let names: Vec<&str> = sorted.iter().map(|m| m.group.as_str()).collect();
    assert_eq!(names, vec!["early", "first", "second", "six"]);
    assert!(sort_by_time(Vec::new()).is_empty());
}

#[test]
fn grouping_only_populated_days() {
    let input = vec![
        meetup("a", Day::Monday, Time::Morning),
        meetup("b", Day::Friday, Time::Evening),
        meetup("c", Day::Monday, Time::ClockTime(5, 0)),
    ];
    let by_day = group_meetups(input);
    let monday: Vec<&str> = by_day.get(Day::Monday).iter().map(|m| m.group.as_str()).collect();
    assert_eq!(monday, vec!["a", "c"]);
    assert_eq!(by_day.get(Day::Friday).len(), 1);
    for day in [Day::Tuesday, Day::Wednesday, Day::Thursday, Day::Saturday, Day::Sunday] {
        assert!(by_day.get(day).is_empty());
        assert!(!by_day.has_day(day));
    }
    assert!(by_day.has_day(Day::Monday));
    assert!(by_day.has_day(Day::Friday));
}

#[test]
fn times_as_shown() {
    assert_eq!(render_time(&Time::Morning), "Morning");
    assert_eq!(render_time(&Time::Afternoon), "Afternoon");
    assert_eq!(render_time(&Time::Evening), "Evening");
    assert_eq!(render_time(&Time::ClockTime(6, 5)), "6:05 AM");
    assert_eq!(render_time(&Time::ClockTime(14, 15)), "2:15 PM");
    assert_eq!(render_time(&Time::ClockTime(12, 30)), "12:30 AM");
    assert_eq!(render_time(&Time::ClockTime(23, 59)), "11:59 PM");
    assert_eq!(render_time(&Time::ClockTime(0, 0)), "0:00 AM");
}
