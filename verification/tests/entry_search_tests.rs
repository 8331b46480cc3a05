use crust::date::Date;
use crust::entry_search::{
    add_days_to_date, decrement_date_by_one, get_agenda_entries, has_entry,
    increment_date_by_one, is_between_dates, next_nonempty_on_or_after, parse_entry_filename, sort_dates,
};

fn date(day: i32, month: i32, year: i32) -> Date {
    Date { day, month, year }
}

#[test]
fn parse_accepts_the_entry_shape() {
    assert_eq!(parse_entry_filename("16-09-2001.toml"), Some(date(16, 9, 2001)));
    assert_eq!(parse_entry_filename("01-01-0050.toml"), Some(date(1, 1, 50)));
    assert_eq!(parse_entry_filename("39-19-9999.toml"), Some(date(39, 19, 9999)));
}

#[test]
fn parse_rejects_other_shapes() {
    assert_eq!(parse_entry_filename("16-09-2001.json"), None);
    assert_eq!(parse_entry_filename("16-09-2001.toml.bak"), None);
    assert_eq!(parse_entry_filename("1-09-2001.toml"), None);
    assert_eq!(parse_entry_filename("45-09-2001.toml"), None);
    assert_eq!(parse_entry_filename("16-29-2001.toml"), None);
    assert_eq!(parse_entry_filename("16-09-201.toml"), None);
    assert_eq!(parse_entry_filename("notes.txt"), None);
    assert_eq!(parse_entry_filename(""), None);
}

#[test]
fn scan_keeps_only_valid_dates() {
    let names: Vec<String> = vec![
        "05-13-2024.toml".to_string(), // month 13: fails date validation
        "31-02-2024.toml".to_string(), // passes the name filter, February has no day 31
        "15-06-2024.toml".to_string(),
        "junk.txt".to_string(),
        "05-06-2024.toml".to_string(),
    ];
    let entries = get_agenda_entries(&names);
    assert_eq!(entries, vec![date(15, 6, 2024), date(5, 6, 2024)]);
}

#[test]
fn scan_of_wrong_extension_finds_nothing() {
    let names: Vec<String> = vec!["05-13-2024.ext".to_string(), "31-02-2024.ext".to_string()];
    assert_eq!(get_agenda_entries(&names), Vec::<Date>::new());
}

#[test]
fn next_entry_skips_the_reference_when_later_entries_exist() {
    let entries = vec![date(5, 1, 2024), date(10, 1, 2024)];
    let found = next_nonempty_on_or_after(&entries, &date(5, 1, 2024));
    assert_eq!(found, date(10, 1, 2024));
}

#[test]
fn next_entry_takes_the_earliest_on_or_after_the_reference() {
    let entries = vec![date(10, 1, 2024), date(5, 1, 2024)];
    let found = next_nonempty_on_or_after(&entries, &date(1, 1, 2024));
    assert_eq!(found, date(5, 1, 2024));
}

#[test]
fn next_entry_falls_back_to_the_reference() {
    let entries: Vec<Date> = Vec::new();
    let found = next_nonempty_on_or_after(&entries, &date(1, 1, 2024));
    assert_eq!(found, date(1, 1, 2024));

    let entries = vec![date(5, 1, 2024)];
    let found = next_nonempty_on_or_after(&entries, &date(10, 1, 2024));
    assert_eq!(found, date(10, 1, 2024));
}

#[test]
fn next_entry_with_one_candidate_returns_it() {
    let entries = vec![date(5, 1, 2024)];
    assert_eq!(next_nonempty_on_or_after(&entries, &date(1, 1, 2024)), date(5, 1, 2024));
    assert_eq!(next_nonempty_on_or_after(&entries, &date(5, 1, 2024)), date(5, 1, 2024));
}

#[test]
fn membership_for_grid_highlighting() {
    let entries = vec![date(5, 1, 2024), date(10, 1, 2024)];
    assert!(has_entry(&entries, &date(5, 1, 2024)));
    assert!(has_entry(&entries, &date(10, 1, 2024)));
    assert!(!has_entry(&entries, &date(6, 1, 2024)));
    assert!(!has_entry(&Vec::new(), &date(6, 1, 2024)));
}

#[test]
fn sorting_dates_is_chronological() {
    let mut entries = vec![
        date(1, 1, 2025),
        date(31, 12, 2024),
        date(5, 6, 2024),
        date(4, 6, 2024),
        date(5, 6, 2023),
    ];
    sort_dates(&mut entries);
    assert_eq!(
        entries,
        vec![
            date(5, 6, 2023),
            date(4, 6, 2024),
            date(5, 6, 2024),
            date(31, 12, 2024),
            date(1, 1, 2025),
        ]
    );
}

#[test]
fn betweenness_is_strict() {
    let lower = date(1, 1, 2024);
    let upper = date(1, 2, 2024);
    assert!(is_between_dates(&date(15, 1, 2024), &lower, &upper));
    assert!(!is_between_dates(&lower, &lower, &upper));
    assert!(!is_between_dates(&upper, &lower, &upper));
    assert!(!is_between_dates(&date(2, 2, 2024), &lower, &upper));
}

#[test]
fn free_date_arithmetic_matches_the_methods() {
    let mut d = date(31, 12, 1999);
    increment_date_by_one(&mut d);
    assert_eq!(d, date(1, 1, 2000));

    let mut d = date(1, 3, 2021);
    decrement_date_by_one(&mut d);
    assert_eq!(d, date(28, 2, 2021));

    let mut d = date(15, 6, 2020);
    add_days_to_date(&mut d, 400);
    add_days_to_date(&mut d, -400);
    assert_eq!(d, date(15, 6, 2020));
}
