use crust::date::Date;
use crust::navigation::{KeyEvents, NavigationState};

fn date(day: i32, month: i32, year: i32) -> Date {
    Date { day, month, year }
}

#[test]
fn a_fresh_session_shows_the_reference_date() {
    let nav = NavigationState::new(date(16, 9, 2001));
    assert_eq!(nav.day_shift, 0);
    assert_eq!(nav.current_date(), date(16, 9, 2001));
}

#[test]
fn advance_and_retreat_compose_additively() {
    let mut nav = NavigationState::new(date(16, 9, 2001));
    assert!(nav.handle_event(&KeyEvents::Next));
    assert!(nav.handle_event(&KeyEvents::Next));
    assert!(nav.handle_event(&KeyEvents::Previous));
    assert_eq!(nav.day_shift, 1);
    assert_eq!(nav.current_date(), date(17, 9, 2001));
    assert!(nav.handle_event(&KeyEvents::Previous));
    assert!(nav.handle_event(&KeyEvents::Previous));
    assert_eq!(nav.current_date(), date(15, 9, 2001));
}

#[test]
fn selection_wraps_across_month_and_year() {
    let mut nav = NavigationState::new(date(31, 12, 2021));
    assert!(nav.handle_event(&KeyEvents::Next));
    assert_eq!(nav.current_date(), date(1, 1, 2022));

    let mut nav = NavigationState::new(date(1, 3, 2021));
    assert!(nav.handle_event(&KeyEvents::Previous));
    assert_eq!(nav.current_date(), date(28, 2, 2021));
}

#[test]
fn quit_ends_the_session_and_keeps_the_state() {
    let mut nav = NavigationState::new(date(16, 9, 2001));
    assert!(nav.handle_event(&KeyEvents::Next));
    assert!(!nav.handle_event(&KeyEvents::Quit));
    assert_eq!(nav.day_shift, 1);
}

#[test]
fn other_input_changes_nothing() {
    let mut nav = NavigationState::new(date(16, 9, 2001));
    assert!(nav.handle_event(&KeyEvents::NoEvent));
    assert_eq!(nav.day_shift, 0);
    assert_eq!(nav.current_date(), date(16, 9, 2001));
}
