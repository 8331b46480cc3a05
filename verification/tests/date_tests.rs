use crust::date::Date;

fn date(day: i32, month: i32, year: i32) -> Date {
    Date { day, month, year }
}

#[test]
fn validate_rejects_out_of_range_fields() {
    assert!(!date(1, 0, 2000).validate());
    assert!(!date(1, 13, 2000).validate());
    assert!(!date(0, 1, 2000).validate());
    assert!(!date(1, 1, 0).validate());
    assert!(!date(1, 1, -5).validate());
}

#[test]
fn validate_rejects_day_past_month_length() {
    assert!(!date(32, 1, 2000).validate());
    assert!(!date(31, 4, 2000).validate());
    assert!(!date(30, 2, 2000).validate());
    assert!(!date(29, 2, 1900).validate());
}

#[test]
fn validate_accepts_boundary_days() {
    assert!(date(31, 1, 2000).validate());
    assert!(date(30, 4, 2000).validate());
    assert!(date(29, 2, 2000).validate());
    assert!(date(28, 2, 1900).validate());
    assert!(date(1, 1, 1).validate());
}

#[test]
fn leap_year_rule() {
    assert!(date(1, 1, 2000).is_leap_year());
    assert!(date(1, 1, 1996).is_leap_year());
    assert!(!date(1, 1, 1900).is_leap_year());
    assert!(!date(1, 1, 2001).is_leap_year());
    assert!(!date(1, 1, 2100).is_leap_year());
}

#[test]
fn max_day_per_month() {
    assert_eq!(date(1, 2, 2000).max_day(), 29);
    assert_eq!(date(1, 2, 1900).max_day(), 28);
    for year in [1, 1900, 1999, 2000, 2024] {
        assert_eq!(date(1, 1, year).max_day(), 31);
        assert_eq!(date(1, 4, year).max_day(), 30);
        assert_eq!(date(1, 7, year).max_day(), 31);
        assert_eq!(date(1, 8, year).max_day(), 31);
        assert_eq!(date(1, 12, year).max_day(), 31);
    }
}

#[test]
fn day_of_week_known_dates() {
    // 16 September 2001 was a Sunday; 1 January 2000 was a Saturday.
    assert_eq!(date(16, 9, 2001).day_of_week(), 7);
    assert_eq!(date(1, 1, 2000).day_of_week(), 6);
    // 1 March 2021 was a Monday.
    assert_eq!(date(1, 3, 2021).day_of_week(), 1);
}

#[test]
fn increment_wraps_months_and_years() {
    let mut d = date(31, 12, 1999);
    d.increment();
    assert_eq!(d, date(1, 1, 2000));

    let mut d = date(28, 2, 2021);
    d.increment();
    assert_eq!(d, date(1, 3, 2021));

    let mut d = date(28, 2, 2020);
    d.increment();
    assert_eq!(d, date(29, 2, 2020));
}

#[test]
fn decrement_uses_updated_month_length() {
    // Regression for the stale-month-length mistake: 2021 is no leap year,
    // so the day before 1 March 2021 is 28 February, not the 29th.
    let mut d = date(1, 3, 2021);
    d.decrement();
    assert_eq!(d, date(28, 2, 2021));

    let mut d = date(1, 3, 2020);
    d.decrement();
    assert_eq!(d, date(29, 2, 2020));

    let mut d = date(1, 1, 2021);
    d.decrement();
    assert_eq!(d, date(31, 12, 2020));
}

#[test]
fn increment_then_decrement_round_trip() {
    let mut d = date(28, 12, 2019);
    for _ in 0..800 {
        let before = d;
        d.increment();
        let mut back = d;
        back.decrement();
        assert_eq!(back, before);
    }
}

#[test]
fn add_days_round_trip() {
    let start = date(15, 6, 2020);
    for n in -400..=400 {
        let mut d = start;
        d.add_days(n);
        assert!(d.validate());
        d.add_days(-n);
        assert_eq!(d, start);
    }
}

#[test]
fn add_days_known_shifts() {
    let mut d = date(31, 12, 2019);
    d.add_days(1);
    assert_eq!(d, date(1, 1, 2020));

    let mut d = date(15, 6, 2020);
    d.add_days(0);
    assert_eq!(d, date(15, 6, 2020));

    let mut d = date(1, 3, 2020);
    d.add_days(-2);
    assert_eq!(d, date(28, 2, 2020));

    let mut d = date(1, 1, 2021);
    d.add_days(365);
    assert_eq!(d, date(1, 1, 2022));
}

#[test]
fn first_of_next_month_wraps_december() {
    assert_eq!(date(16, 9, 2001).first_of_next_month(), date(1, 10, 2001));
    assert_eq!(date(31, 12, 2001).first_of_next_month(), date(1, 1, 2002));
}

#[test]
fn ordering_matches_chronology() {
    let year_apart = (date(10, 5, 2020), date(1, 1, 2021));
    let month_apart = (date(2, 3, 2021), date(1, 4, 2021));
    let day_apart = (date(2, 3, 2021), date(5, 3, 2021));
    for (earlier, later) in [year_apart, month_apart, day_apart] {
        assert!(earlier < later);
        assert!(later > earlier);
        assert!(earlier != later);
    }
    assert_eq!(date(2, 3, 2021), date(2, 3, 2021));
}

#[test]
fn month_and_day_names() {
    assert_eq!(date(16, 9, 2001).month_string(), "September");
    assert_eq!(date(1, 1, 2000).month_string(), "January");
    assert_eq!(date(1, 13, 2000).month_string(), "ERROR: MONTH OUT OF RANGE!");
    assert_eq!(date(16, 9, 2001).day_string(), "Sunday");
    assert_eq!(date(1, 1, 2000).day_string(), "Saturday");
    assert_eq!(date(1, 3, 2021).day_string(), "Monday");
}

#[test]
fn file_name_is_zero_padded() {
    assert_eq!(date(5, 3, 2021).file_name(), "05-03-2021.toml");
    assert_eq!(date(16, 9, 2001).file_name(), "16-09-2001.toml");
    assert_eq!(date(1, 1, 50).file_name(), "01-01-0050.toml");
}

#[test]
fn titles() {
    assert_eq!(date(16, 9, 2001).calendar_title(), " September 2001 ");
    assert_eq!(
        date(16, 9, 2001).agenda_title(),
        " Agenda | Sunday, September 16th 2001 "
    );
    assert_eq!(
        date(1, 3, 2021).agenda_title(),
        " Agenda | Monday, March 1st 2021 "
    );
    assert_eq!(
        date(22, 5, 2021).agenda_title(),
        " Agenda | Saturday, May 22nd 2021 "
    );
}

#[test]
fn ordinal_suffixes_in_titles() {
    // st for 1, 21, 31 and nd for 2, 22; 11 and 12 take th like the rest.
    let suffix = |day: i32, month: i32| {
        let title = date(day, month, 2021).agenda_title();
        let tail = title.trim_end_matches(" 2021 ").to_string();
        tail[tail.len() - 2..].to_string()
    };
    assert_eq!(suffix(1, 3), "st");
    assert_eq!(suffix(21, 3), "st");
    assert_eq!(suffix(31, 3), "st");
    assert_eq!(suffix(2, 3), "nd");
    assert_eq!(suffix(22, 3), "nd");
    assert_eq!(suffix(11, 3), "th");
    assert_eq!(suffix(12, 3), "th");
    assert_eq!(suffix(3, 3), "th");
    assert_eq!(suffix(13, 3), "th");
    assert_eq!(suffix(23, 3), "th");
}
