use run_groups::model::{Day, Meetup, ModelError, Time};
use run_groups::sheet::{read_groups, read_meetups, sheet_to_csv, Cell};
use run_groups::table::{groups_from_table, meetups_from_table};

fn row(cells: &[&str]) -> Vec<String> {
    cells.iter().map(|c| c.to_string()).collect()
}

fn meetup_header() -> Vec<String> {
    row(&["Running Group", "Day of the Week", "Time", "Description", "Location"])
}

fn check_trail_runners(m: &Meetup) {
    assert_eq!(m.group, "Trail Runners");
    assert_eq!(m.group_id, "trail-runners");
    assert_eq!(m.day, Day::Tuesday);
    assert_eq!(m.time, Time::ClockTime(6, 0));
    assert_eq!(m.description, Some("Easy 5k".to_string()));
    assert_eq!(m.location, Some("Zilker Park".to_string()));
}

#[test]
fn one_row_round_trip() {
    let table = vec![
        meetup_header(),
        row(&["Trail Runners", "Tuesday", "6:00am", "Easy 5k", "Zilker Park"]),
    ];
    let meetups = meetups_from_table(&table).unwrap();
    assert_eq!(meetups.len(), 1);
    check_trail_runners(&meetups[0]);
}

#[test]
fn one_row_round_trip_through_csv() {
    let csv = "Running Group,Day of the Week,Time,Description,Location\n\
               Trail Runners,Tuesday,6:00am,Easy 5k,Zilker Park\n"
        .to_string();
    let meetups = read_meetups(csv).unwrap();
    assert_eq!(meetups.len(), 1);
    check_trail_runners(&meetups[0]);
}

#[test]
fn columns_found_by_name_and_short_rows_padded() {
    let table = vec![
        row(&["Location", "Time", "Running Group", "Description", "Day of the Week"]),
        row(&["Zilker Park", "Evening", "Austin Runners Club", "", "friday"]),
        row(&["", "7:15pm", "Night Owls", "   ", "Monday"]),
    ];
    let meetups = meetups_from_table(&table).unwrap();
    assert_eq!(meetups.len(), 2);
    assert_eq!(meetups[0].group_id, "austin-runners-club");
    assert_eq!(meetups[0].day, Day::Friday);
    assert_eq!(meetups[0].time, Time::Evening);
    assert_eq!(meetups[0].description, None);
    assert_eq!(meetups[0].location, Some("Zilker Park".to_string()));
    assert_eq!(meetups[1].time, Time::ClockTime(19, 15));
    assert_eq!(meetups[1].location, None);
    assert_eq!(meetups[1].description, None);

    let short = vec![meetup_header(), row(&["Short Row", "Sunday", "Morning"])];
    let meetups = meetups_from_table(&short).unwrap();
    assert_eq!(meetups[0].day, Day::Sunday);
    assert_eq!(meetups[0].description, None);
    assert_eq!(meetups[0].location, None);
}

#[test]
fn one_bad_day_fails_the_batch() {
    let table = vec![
        meetup_header(),
        row(&["Trail Runners", "Tuesday", "6:00am", "Easy 5k", "Zilker Park"]),
        row(&["Bad Row", "Funday", "6:00am", "", ""]),
    ];
    match meetups_from_table(&table) {
        Err(ModelError::InvalidDay(s)) => assert_eq!(s, "Funday"),
        other => panic!("unexpected {:?}", other),
    }
}

#[test]
fn bad_time_is_reported_before_bad_day() {
    let table = vec![meetup_header(), row(&["X", "Funday", "25:00", "", ""])];
    match meetups_from_table(&table) {
        Err(ModelError::InvalidTime(s)) => assert_eq!(s, "25:00"),
        other => panic!("unexpected {:?}", other),
    }
}

#[test]
fn missing_column_fails_the_batch() {
    let table = vec![
        row(&["Running Group", "Time", "Description", "Location"]),
        row(&["Trail Runners", "6:00am", "Easy 5k", "Zilker Park"]),
    ];
    match meetups_from_table(&table) {
        Err(ModelError::MissingColumn(s)) => assert_eq!(s, "Day of the Week"),
        other => panic!("unexpected {:?}", other),
    }
    let groups = vec![row(&["Name", "Instagram", "Facebook", "Website", "Strava", "Description"])];
    match groups_from_table(&groups) {
        Err(ModelError::MissingColumn(s)) => assert_eq!(s, "Twitter"),
        other => panic!("unexpected {:?}", other),
    }
}

#[test]
fn empty_table_has_no_records() {
    assert_eq!(meetups_from_table(&Vec::new()).unwrap().len(), 0);
    assert_eq!(groups_from_table(&Vec::new()).unwrap().len(), 0);
    assert_eq!(meetups_from_table(&vec![meetup_header()]).unwrap().len(), 0);
}

#[test]
fn groups_from_csv() {
    let csv = "Name,Instagram,Facebook,Twitter,Website,Strava,Description\n\
               Austin Runners Club,@arc,,  ,https://arc.example,,\"Fast, friendly\"\n"
        .to_string();
    let groups = read_groups(csv).unwrap();
    assert_eq!(groups.len(), 1);
    let g = &groups[0];
    assert_eq!(g.name, "Austin Runners Club");
    assert_eq!(g.id, "austin-runners-club");
    assert_eq!(g.instagram, Some("@arc".to_string()));
    assert_eq!(g.facebook, None);
    assert_eq!(g.twitter, None);
    assert_eq!(g.website, Some("https://arc.example".to_string()));
    assert_eq!(g.strava, None);
    assert_eq!(g.description, Some("Fast, friendly".to_string()));
}

#[test]
fn grid_written_as_csv() {
    let grid = vec![
        vec![Cell::Text("Name".to_string()), Cell::Text("Note".to_string()), Cell::Text("X".to_string())],
        vec![Cell::Text("A \"quoted\" word".to_string()), Cell::Empty],
        vec![],
    ];
    let csv = sheet_to_csv(&grid);
    assert_eq!(csv, "\"Name\",\"Note\",\"X\"\n\"A \"\"quoted\"\" word\",,\n,,");
    assert_eq!(sheet_to_csv(&Vec::new()), "");
}

#[test]
fn grid_to_csv_to_meetups() {
    let text = |s: &str| Cell::Text(s.to_string());
    let grid = vec![
        vec![text("Running Group"), text("Day of the Week"), text("Time"), text("Description"), text("Location")],
        vec![text("Trail Runners"), text("Tuesday"), text("6:00am"), text("Easy 5k"), text("Zilker Park")],
        vec![text("Night Owls"), text("Monday"), text("Evening")],
    ];
    let meetups = read_meetups(sheet_to_csv(&grid)).unwrap();
    assert_eq!(meetups.len(), 2);
    check_trail_runners(&meetups[0]);
    assert_eq!(meetups[1].time, Time::Evening);
    assert_eq!(meetups[1].location, None);
}
