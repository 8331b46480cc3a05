use crust::agenda::{entry_block, Agenda, DayEvent, TimedEvent};
use crust::arguments::{ProgramArguments, ProgramFlags};
use crust::date::Date;

fn timed(start: &str, end: &str, event: &str) -> TimedEvent {
    TimedEvent {
        start: start.to_string(),
        end: end.to_string(),
        event: event.to_string(),
    }
}

fn timed_triples(events: &[TimedEvent]) -> Vec<(String, String, String)> {
    events
        .iter()
        .map(|e| (e.start.clone(), e.end.clone(), e.event.clone()))
        .collect()
}

#[test]
fn default_record_is_the_empty_sentinel() {
    let record = Agenda::default();
    assert_eq!(record.day.len(), 1);
    assert_eq!(record.day[0].event, "");
    assert_eq!(record.timestamp.len(), 1);
    assert_eq!(record.timestamp[0].start, "");
    assert_eq!(record.timestamp[0].end, "");
    assert_eq!(record.timestamp[0].event, "");
}

#[test]
fn timed_events_sort_by_start_then_end_then_text() {
    let mut record = Agenda {
        day: Vec::new(),
        timestamp: vec![
            timed("10:00", "11:00", "b"),
            timed("09:00", "10:00", "a"),
            timed("10:00", "10:30", "c"),
        ],
    };
    record.sort_timestamps();
    assert_eq!(
        timed_triples(&record.timestamp),
        vec![
            ("09:00".into(), "10:00".into(), "a".into()),
            ("10:00".into(), "10:30".into(), "c".into()),
            ("10:00".into(), "11:00".into(), "b".into()),
        ]
    );
}

#[test]
fn timed_events_with_equal_stamps_sort_by_text() {
    let mut record = Agenda {
        day: Vec::new(),
        timestamp: vec![
            timed("08:00", "09:00", "z"),
            timed("08:00", "09:00", "a"),
            timed("08:00", "09:00", "m"),
        ],
    };
    record.sort_timestamps();
    assert_eq!(
        timed_triples(&record.timestamp),
        vec![
            ("08:00".into(), "09:00".into(), "a".into()),
            ("08:00".into(), "09:00".into(), "m".into()),
            ("08:00".into(), "09:00".into(), "z".into()),
        ]
    );
}

#[test]
fn sorting_leaves_full_day_events_alone() {
    let mut record = Agenda {
        day: vec![DayEvent { event: "holiday".to_string() }],
        timestamp: vec![timed("10:00", "11:00", "b"), timed("09:00", "10:00", "a")],
    };
    record.sort_timestamps();
    assert_eq!(record.day.len(), 1);
    assert_eq!(record.day[0].event, "holiday");
}

#[test]
fn empty_text_events_are_hidden() {
    let record = Agenda {
        day: vec![
            DayEvent { event: "".to_string() },
            DayEvent { event: "holiday".to_string() },
            DayEvent { event: "".to_string() },
        ],
        timestamp: vec![
            timed("", "", ""),
            timed("09:00", "10:00", "standup"),
        ],
    };
    let day_shown = record.visible_day_events();
    assert_eq!(day_shown.len(), 1);
    assert_eq!(day_shown[0].event, "holiday");
    let timed_shown = record.visible_timed_events();
    assert_eq!(timed_triples(&timed_shown), vec![(
        "09:00".into(),
        "10:00".into(),
        "standup".into(),
    )]);
}

#[test]
fn sentinel_record_shows_nothing() {
    let record = Agenda::default();
    assert!(record.visible_day_events().is_empty());
    assert!(record.visible_timed_events().is_empty());
}

#[test]
fn full_day_entry_block() {
    let args = ProgramArguments {
        date: Date { day: 16, month: 9, year: 2001 },
        flags: ProgramFlags {
            open_calendar: false,
            full_day: true,
            edit: false,
            remove: false,
        },
        start: String::new(),
        end: String::new(),
        entry: "Buy milk".to_string(),
    };
    assert_eq!(entry_block(&args), "[[day]]\nevent = 'Buy milk'\n");
}

#[test]
fn timed_entry_block() {
    let args = ProgramArguments {
        date: Date { day: 16, month: 9, year: 2001 },
        flags: ProgramFlags {
            open_calendar: false,
            full_day: false,
            edit: false,
            remove: false,
        },
        start: "10:00".to_string(),
        end: "11:30".to_string(),
        entry: "Dentist".to_string(),
    };
    assert_eq!(
        entry_block(&args),
        "[[timestamp]]\nstart = '10:00'\nend = '11:30'\nevent = 'Dentist'\n"
    );
}

#[test]
fn fresh_arguments_are_blank() {
    let args = ProgramArguments::new(Date { day: 1, month: 1, year: 2024 });
    assert_eq!(args.date, Date { day: 1, month: 1, year: 2024 });
    assert!(!args.flags.open_calendar);
    assert!(!args.flags.full_day);
    assert!(!args.flags.edit);
    assert!(!args.flags.remove);
    assert_eq!(args.start, "");
    assert_eq!(args.end, "");
    assert_eq!(args.entry, "");
}
