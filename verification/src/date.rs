//! The calendar-date value type and its algebra: validation, the leap-year
//! rule, month lengths, Zeller day-of-week, and day-granularity arithmetic
//! with month/year wrap-around.

use crate::text;
use vstd::prelude::*;

verus! {

/// Date structure containing the day, month and year as integers.
#[derive(Debug, Copy, Clone, PartialEq, Eq, Structural)]
pub struct Date {
    pub day: i32,
    pub month: i32,
    pub year: i32,
}

/// Mathematical model of a date: the same three fields as unbounded integers.
pub ghost struct DateModel {
    pub day: int,
    pub month: int,
    pub year: int,
}

impl View for Date {
    type V = DateModel;

    open spec fn view(&self) -> DateModel {
        DateModel { day: self.day as int, month: self.month as int, year: self.year as int }
    }
}

/// Day of the week by Zeller's congruence for Gregorian calendars, stated
/// with January and February counted as months 13 and 14 of the previous
/// year. The raw congruence value counts 0 = Saturday .. 6 = Friday; the
/// final shift `((raw + 5) mod 7) + 1` renumbers to 1 = Monday .. 7 = Sunday.
pub open spec fn spec_day_of_week(d: DateModel) -> int {
    let m = if d.month <= 2 {
        d.month + 12
    } else {
        d.month
    };
    let y = if d.month <= 2 {
        d.year - 1
    } else {
        d.year
    };
    let year_of_century = y % 100;
    let zero_based_century = y / 100;
    let raw = d.day + (13 * (m + 1)) / 5 + year_of_century + year_of_century / 4
        + zero_based_century / 4 - 2 * zero_based_century;
    ((raw + 5) % 7) + 1
}

/// A year is a leap year when it is divisible by 4, except that century
/// years are leap years only when divisible by 400.
pub open spec fn spec_leap_year(year: int) -> bool {
    year % 4 == 0 && (year % 100 != 0 || year % 400 == 0)
}

/// Number of days in a month: February has 28 or 29 by the leap-year rule;
/// the other months alternate 31/30 by the closed form `31 - ((m-1) % 7) % 2`.
pub open spec fn spec_days_in_month(month: int, year: int) -> int {
    if month == 2 {
        if spec_leap_year(year) {
            29
        } else {
            28
        }
    } else {
        31 - ((month - 1) % 7) % 2
    }
}

/// Structural well-formedness: month in range and day within its month.
/// The year is unconstrained, so day arithmetic can be described on any year.
pub open spec fn spec_wf_date(d: DateModel) -> bool {
    &&& 1 <= d.month <= 12
    &&& 1 <= d.day <= spec_days_in_month(d.month, d.year)
}

/// A possible calendar date: well-formed and with a positive year.
pub open spec fn spec_valid_date(d: DateModel) -> bool {
    d.year >= 1 && spec_wf_date(d)
}

/// The next calendar day, wrapping to the next month or year when needed.
pub open spec fn spec_next_date(d: DateModel) -> DateModel {
    if d.day < spec_days_in_month(d.month, d.year) {
        DateModel { day: d.day + 1, ..d }
    } else if d.month < 12 {
        DateModel { day: 1, month: d.month + 1, year: d.year }
    } else {
        DateModel { day: 1, month: 1, year: d.year + 1 }
    }
}

/// The previous calendar day, wrapping to the last day of the previous
/// month, or to December 31st of the previous year.
pub open spec fn spec_prev_date(d: DateModel) -> DateModel {
    if d.day > 1 {
        DateModel { day: d.day - 1, ..d }
    } else if d.month > 1 {
        DateModel { day: spec_days_in_month(d.month - 1, d.year), month: d.month - 1, year: d.year }
    } else {
        DateModel { day: 31, month: 12, year: d.year - 1 }
    }
}

/// The date `n` days away: `n` successors when `n` is positive, `-n`
/// predecessors when it is negative.
pub open spec fn spec_add_days(d: DateModel, n: int) -> DateModel
    decreases
            (if n >= 0 {
                n
            } else {
                -n
            }),
{
    if n == 0 {
        d
    } else if n > 0 {
        spec_next_date(spec_add_days(d, n - 1))
    } else {
        spec_prev_date(spec_add_days(d, n + 1))
    }
}

/// The months of fixed length have it in every year: January always has
/// 31 days and April always has 30, whatever the year.
pub proof fn lemma_fixed_month_lengths()
    ensures
        forall|y: int| spec_days_in_month(1, y) == 31,
        forall|y: int| spec_days_in_month(4, y) == 30,
{
}

/// Calendar ordering: by year, then month, then day.
pub open spec fn spec_date_lt(a: DateModel, b: DateModel) -> bool {
    ||| a.year < b.year
    ||| (a.year == b.year && a.month < b.month)
    ||| (a.year == b.year && a.month == b.month && a.day < b.day)
}

/// Non-strict calendar ordering.
pub open spec fn spec_date_le(a: DateModel, b: DateModel) -> bool {
    spec_date_lt(a, b) || a == b
}

/// The next day is strictly later in the calendar ordering.
pub proof fn lemma_next_date_later(d: DateModel)
    requires
        spec_wf_date(d),
    ensures
        spec_date_lt(d, spec_next_date(d)),
{
}

/// The previous day is strictly earlier in the calendar ordering.
pub proof fn lemma_prev_date_earlier(d: DateModel)
    requires
        spec_wf_date(d),
    ensures
        spec_date_lt(spec_prev_date(d), d),
{
}

/// The calendar ordering agrees with day arithmetic: shifting a date
/// forward by any positive number of days gives a strictly later date, and
/// shifting it backward gives a strictly earlier one.
pub proof fn lemma_add_days_chronology(d: DateModel, n: int)
    requires
        spec_wf_date(d),
    ensures
        n > 0 ==> spec_date_lt(d, spec_add_days(d, n)),
        n < 0 ==> spec_date_lt(spec_add_days(d, n), d),
    decreases
            (if n >= 0 {
                n
            } else {
                -n
            }),
{
    if n > 0 {
        lemma_add_days_chronology(d, n - 1);
        lemma_add_days_wf(d, n - 1);
        lemma_next_date_later(spec_add_days(d, n - 1));
    } else if n < 0 {
        lemma_add_days_chronology(d, n + 1);
        lemma_add_days_wf(d, n + 1);
        lemma_prev_date_earlier(spec_add_days(d, n + 1));
    }
}

/// The English name of a month, 1-indexed. An index out of range yields a
/// visible placeholder string instead of a name.
pub open spec fn spec_month_name(m: int) -> Seq<char> {
    if m == 1 {
        "January"@
    } else if m == 2 {
        "February"@
    } else if m == 3 {
        "March"@
    } else if m == 4 {
        "April"@
    } else if m == 5 {
        "May"@
    } else if m == 6 {
        "June"@
    } else if m == 7 {
        "July"@
    } else if m == 8 {
        "August"@
    } else if m == 9 {
        "September"@
    } else if m == 10 {
        "October"@
    } else if m == 11 {
        "November"@
    } else if m == 12 {
        "December"@
    } else {
        "ERROR: MONTH OUT OF RANGE!"@
    }
}

/// The English name of a weekday, with `Monday = 1` up to `Sunday = 7`.
/// An index out of range yields a visible placeholder string.
pub open spec fn spec_weekday_name(w: int) -> Seq<char> {
    if w == 1 {
        "Monday"@
    } else if w == 2 {
        "Tuesday"@
    } else if w == 3 {
        "Wednesday"@
    } else if w == 4 {
        "Thursday"@
    } else if w == 5 {
        "Friday"@
    } else if w == 6 {
        "Saturday"@
    } else if w == 7 {
        "Sunday"@
    } else {
        "ERROR: DAY OUT OF RANGE!"@
    }
}

/// The ordinal suffix of a day of the month: `st` for 1, 21, 31 and `nd`
/// for 2, 22, except that 11 and 12 take `th`, as every other day does.
pub open spec fn spec_ordinal_suffix(day: int) -> Seq<char> {
    if day % 10 == 1 && day != 11 {
        "st"@
    } else if day % 10 == 2 && day != 12 {
        "nd"@
    } else {
        "th"@
    }
}

/// The name of the entry file of a date: zero-padded two-digit day and
/// month and a year of at least four digits, as `DD-MM-YYYY.toml`.
pub open spec fn spec_file_name(d: DateModel) -> Seq<char> {
    text::spec_padded2(d.day as nat) + "-"@ + text::spec_padded2(d.month as nat) + "-"@
        + text::spec_padded4(d.year as nat) + ".toml"@
}

/// The title of one month pane of the calendar view.
pub open spec fn spec_calendar_title(d: DateModel) -> Seq<char> {
    " "@ + spec_month_name(d.month) + " "@ + text::spec_decimal(d.year as nat) + " "@
}

/// The title of the agenda pane of a date.
pub open spec fn spec_agenda_title(d: DateModel) -> Seq<char> {
    " Agenda | "@ + spec_weekday_name(spec_day_of_week(d)) + ", "@ + spec_month_name(d.month)
        + " "@ + text::spec_decimal(d.day as nat) + spec_ordinal_suffix(d.day) + " "@
        + text::spec_decimal(d.year as nat) + " "@
}

/// Every month has between 28 and 31 days.
pub proof fn lemma_days_in_month_range(month: int, year: int)
    requires
        1 <= month <= 12,
    ensures
        28 <= spec_days_in_month(month, year) <= 31,
{
}

/// Taking the next day preserves well-formedness.
pub proof fn lemma_next_date_wf(d: DateModel)
    requires
        spec_wf_date(d),
    ensures
        spec_wf_date(spec_next_date(d)),
{
    lemma_days_in_month_range(spec_next_date(d).month, spec_next_date(d).year);
}

/// Taking the previous day preserves well-formedness.
pub proof fn lemma_prev_date_wf(d: DateModel)
    requires
        spec_wf_date(d),
    ensures
        spec_wf_date(spec_prev_date(d)),
{
    lemma_days_in_month_range(spec_prev_date(d).month, spec_prev_date(d).year);
}

/// Day arithmetic preserves well-formedness.
pub proof fn lemma_add_days_wf(d: DateModel, n: int)
    requires
        spec_wf_date(d),
    ensures
        spec_wf_date(spec_add_days(d, n)),
    decreases
            (if n >= 0 {
                n
            } else {
                -n
            }),
{
    if n > 0 {
        lemma_add_days_wf(d, n - 1);
        lemma_next_date_wf(spec_add_days(d, n - 1));
    } else if n < 0 {
        lemma_add_days_wf(d, n + 1);
        lemma_prev_date_wf(spec_add_days(d, n + 1));
    }
}

/// Moving backward by whole days moves the year backward by at most one
/// year per day, and never forward.
pub proof fn lemma_add_days_year_nonpos(d: DateModel, n: int)
    requires
        n <= 0,
    ensures
        d.year + n <= spec_add_days(d, n).year <= d.year,
    decreases -n,
{
    if n < 0 {
        lemma_add_days_year_nonpos(d, n + 1);
    }
}

/// Two backward shifts compose into one.
pub proof fn lemma_add_days_compose_nonpos(d: DateModel, a: int, b: int)
    requires
        a <= 0,
        b <= 0,
    ensures
        spec_add_days(spec_add_days(d, a), b) == spec_add_days(d, a + b),
    decreases -b,
{
    if b < 0 {
        lemma_add_days_compose_nonpos(d, a, b + 1);
    }
}

/// The previous day of the next day is the day itself.
pub proof fn lemma_prev_of_next(d: DateModel)
    requires
        spec_wf_date(d),
    ensures
        spec_prev_date(spec_next_date(d)) == d,
{
    lemma_days_in_month_range(d.month, d.year);
}

/// The next day of the previous day is the day itself.
pub proof fn lemma_next_of_prev(d: DateModel)
    requires
        spec_wf_date(d),
    ensures
        spec_next_date(spec_prev_date(d)) == d,
{
    lemma_days_in_month_range(d.month, d.year);
    if d.day == 1 && d.month > 1 {
        lemma_days_in_month_range(d.month - 1, d.year);
    }
}

/// Stepping one day forward and then `m + 1` days back lands one day
/// before the starting point.
proof fn lemma_unwind_next(e: DateModel, m: int)
    requires
        spec_wf_date(e),
        m >= 0,
    ensures
        spec_add_days(spec_next_date(e), -m - 1) == spec_add_days(e, -m),
    decreases m,
{
    if m == 0 {
        lemma_prev_of_next(e);
        assert(spec_add_days(spec_next_date(e), -1) == spec_prev_date(
            spec_add_days(spec_next_date(e), 0),
        ));
    } else {
        lemma_unwind_next(e, m - 1);
        assert(spec_add_days(spec_next_date(e), -m - 1) == spec_prev_date(
            spec_add_days(spec_next_date(e), -m),
        ));
        assert(spec_add_days(e, -m) == spec_prev_date(spec_add_days(e, -m + 1)));
    }
}

/// Stepping one day back and then `m + 1` days forward lands one day
/// after the starting point.
proof fn lemma_unwind_prev(e: DateModel, m: int)
    requires
        spec_wf_date(e),
        m >= 0,
    ensures
        spec_add_days(spec_prev_date(e), m + 1) == spec_add_days(e, m),
    decreases m,
{
    if m == 0 {
        lemma_next_of_prev(e);
        assert(spec_add_days(spec_prev_date(e), 1) == spec_next_date(
            spec_add_days(spec_prev_date(e), 0),
        ));
    } else {
        lemma_unwind_prev(e, m - 1);
        assert(spec_add_days(spec_prev_date(e), m + 1) == spec_next_date(
            spec_add_days(spec_prev_date(e), m),
        ));
        assert(spec_add_days(e, m) == spec_next_date(spec_add_days(e, m - 1)));
    }
}

/// Round trip of day arithmetic: shifting any well-formed date by `n` days
/// and then by `-n` days returns the original date. With `n == 1` this is
/// the increment-then-decrement round trip.
pub proof fn lemma_add_days_roundtrip(d: DateModel, n: int)
    requires
        spec_wf_date(d),
    ensures
        spec_add_days(spec_add_days(d, n), -n) == d,
    decreases
            (if n >= 0 {
                n
            } else {
                -n
            }),
{
    if n > 0 {
        let w = spec_add_days(d, n - 1);
        lemma_add_days_wf(d, n - 1);
        lemma_unwind_next(w, n - 1);
        lemma_add_days_roundtrip(d, n - 1);
    } else if n < 0 {
        let w = spec_add_days(d, n + 1);
        lemma_add_days_wf(d, n + 1);
        lemma_unwind_prev(w, -n - 1);
        lemma_add_days_roundtrip(d, n + 1);
    }
}

impl Date {
    /// Obtain day of the week from `Date` as an integer from 1 to 7, where
    /// `Monday = 1` and `Sunday = 7`, by Zeller's congruence.
    ///
    /// The subtracted century term of the congruence is replaced by the
    /// equivalent added term `5 * century` so that the whole sum stays
    /// non-negative before the remainder is taken.
    pub fn day_of_week(&self) -> (r: i32)
        requires
            spec_valid_date(self@),
        ensures
            r == spec_day_of_week(self@),
            1 <= r <= 7,
    {
        let (month, year) = {
            if self.month == 1 || self.month == 2 {
                (self.month + 12, self.year - 1)
            } else {
                (self.month, self.year)
            }
        };
        let year_of_century: i64 = (year as i64) % 100;
        let zero_based_century: i64 = (year as i64) / 100;
        let sum: i64 = (self.day as i64) + (13 * ((month as i64) + 1)) / 5 + year_of_century
            + year_of_century / 4 + zero_based_century / 4 + 5 * zero_based_century;
        proof {
            vstd::arithmetic::div_mod::lemma_mod_multiples_vanish(
                zero_based_century as int,
                sum as int + 5 - 7 * (zero_based_century as int),
                7,
            );
        }
        let weekday: i64 = ((sum + 5) % 7) + 1;
        return weekday as i32;
    }

    /// Check if year specified by `Date` is a leap year.
    pub fn is_leap_year(&self) -> (r: bool)
        requires
            self.year >= 1,
        ensures
            r == spec_leap_year(self@.year),
    {
        if self.year % 4 == 0 {
            if self.year % 100 == 0 {
                self.year % 400 == 0
            } else {
                true
            }
        } else {
            false
        }
    }

    /// Obtain maximum number of days in the month given by `Date`.
    pub fn max_day(&self) -> (r: i32)
        requires
            self.year >= 1,
            1 <= self.month <= 12,
        ensures
            r == spec_days_in_month(self@.month, self@.year),
    {
        let leap_year = self.is_leap_year();
        if self.month == 2 {
            if leap_year {
                29
            } else {
                28
            }
        } else {
            31 - ((self.month - 1) % 7) % 2
        }
    }

    /// Check if `Date` is a possible date: the year is positive, the month
    /// lies between 1 and 12, and the day lies between 1 and the number of
    /// days in the given month and year.
    pub fn validate(&self) -> (r: bool)
        ensures
            r == spec_valid_date(self@),
    {
        if self.year > 0 {
            if 1 <= self.month && self.month <= 12 {
                let m_day = self.max_day();
                1 <= self.day && self.day <= m_day
            } else {
                false
            }
        } else {
            false
        }
    }

    /// Increment `Date` by a single day, wrapping around to the next month
    /// or year when appropriate.
    pub fn increment(&mut self)
        requires
            spec_valid_date(old(self)@),
            old(self)@.year < i32::MAX as int,
        ensures
            final(self)@ == spec_next_date(old(self)@),
            spec_valid_date(final(self)@),
    {
        let max_day = self.max_day();
        if self.day == max_day {
            if self.month == 12 {
                self.day = 1;
                self.month = 1;
                self.year += 1;
            } else {
                self.day = 1;
                self.month += 1;
            }
        } else {
            self.day += 1;
        }
        proof {
            lemma_days_in_month_range(self@.month, self@.year);
        }
    }

    /// Decrement `Date` by a single day, wrapping around to the last day of
    /// the previous month or to December 31st of the previous year. The
    /// month length of the previous month is taken after the month has been
    /// updated, so a first-of-March input lands on February 28th or 29th.
    pub fn decrement(&mut self)
        requires
            spec_valid_date(old(self)@),
        ensures
            final(self)@ == spec_prev_date(old(self)@),
            spec_wf_date(final(self)@),
            final(self)@.year >= old(self)@.year - 1,
    {
        if self.day == 1 {
            if self.month == 1 {
                self.day = 31;
                self.month = 12;
                self.year -= 1;
            } else {
                self.month -= 1;
                self.day = self.max_day();
            }
        } else {
            self.day -= 1;
        }
        proof {
            lemma_days_in_month_range(self@.month, self@.year);
        }
    }

    /// Add a number of `days` to the `Date`, a day at a time. The amount
    /// can be positive or negative; a backward shift must not leave the
    /// positive years, since those dates are not valid.
    pub fn add_days(&mut self, days: i32)
        requires
            spec_valid_date(old(self)@),
            old(self)@.year + days as int <= i32::MAX as int,
            days < 0 ==> spec_add_days(old(self)@, days as int).year >= 1,
        ensures
            final(self)@ == spec_add_days(old(self)@, days as int),
            spec_valid_date(final(self)@),
    {
        let ghost start = self@;
        let mut day_counter = days;
        if days > 0 {
            while day_counter > 0
                invariant
                    0 <= day_counter <= days,
                    spec_valid_date(start),
                    start.year + days as int <= i32::MAX as int,
                    self@ == spec_add_days(start, days as int - day_counter as int),
                    spec_valid_date(self@),
                    self@.year <= start.year + (days as int - day_counter as int),
                decreases day_counter,
            {
                self.increment();
                day_counter -= 1;
            }
        } else {
            while day_counter < 0
                invariant
                    days <= day_counter <= 0,
                    spec_valid_date(start),
                    days < 0 ==> spec_add_days(start, days as int).year >= 1,
                    self@ == spec_add_days(start, days as int - day_counter as int),
                    spec_valid_date(self@),
                decreases -day_counter,
            {
                self.decrement();
                day_counter += 1;
                proof {
                    let done = days as int - day_counter as int;
                    lemma_add_days_compose_nonpos(start, done, days as int - done);
                    lemma_add_days_year_nonpos(self@, days as int - done);
                }
            }
        }
    }

    /// Get a new `Date` holding the first day of the next month, wrapping
    /// around to January of the next year in December.
    pub fn first_of_next_month(&self) -> (r: Date)
        requires
            spec_valid_date(self@),
            self@.year < i32::MAX as int,
        ensures
            r@.day == 1,
            r@ == (if self@.month == 12 {
                DateModel { day: 1, month: 1, year: self@.year + 1 }
            } else {
                DateModel { day: 1, month: self@.month + 1, year: self@.year }
            }),
            spec_valid_date(r@),
    {
        let mut new_date: Date = self.clone();
        new_date.day = 1;
        if self.month == 12 {
            new_date.month = 1;
            new_date.year += 1;
        } else {
            new_date.month += 1;
        }
        proof {
            lemma_days_in_month_range(new_date@.month, new_date@.year);
        }
        return new_date;
    }

    /// Obtain string containing the name of the month of `Date`. If the
    /// `month` value is out of range, an error message is returned instead
    /// of a month name.
    pub fn month_string(&self) -> (r: &'static str)
        ensures
            r@ == spec_month_name(self@.month),
    {
        if self.month == 1 {
            "January"
        } else if self.month == 2 {
            "February"
        } else if self.month == 3 {
            "March"
        } else if self.month == 4 {
            "April"
        } else if self.month == 5 {
            "May"
        } else if self.month == 6 {
            "June"
        } else if self.month == 7 {
            "July"
        } else if self.month == 8 {
            "August"
        } else if self.month == 9 {
            "September"
        } else if self.month == 10 {
            "October"
        } else if self.month == 11 {
            "November"
        } else if self.month == 12 {
            "December"
        } else {
            "ERROR: MONTH OUT OF RANGE!"
        }
    }

    /// Obtain string containing the name of the day of the week of `Date`.
    pub fn day_string(&self) -> (r: &'static str)
        requires
            spec_valid_date(self@),
        ensures
            r@ == spec_weekday_name(spec_day_of_week(self@)),
    {
        let weekday = self.day_of_week();
        if weekday == 1 {
            "Monday"
        } else if weekday == 2 {
            "Tuesday"
        } else if weekday == 3 {
            "Wednesday"
        } else if weekday == 4 {
            "Thursday"
        } else if weekday == 5 {
            "Friday"
        } else if weekday == 6 {
            "Saturday"
        } else {
            "Sunday"
        }
    }

    /// Obtain the name of the entry file of this `Date`: day and month
    /// zero-padded to two digits, year to four, as `DD-MM-YYYY.toml`.
    pub fn file_name(&self) -> (r: String)
        requires
            spec_valid_date(self@),
        ensures
            r@ == spec_file_name(self@),
    {
        let mut s = String::new();
        text::push_padded2(&mut s, self.day as u32);
        s.append("-");
        text::push_padded2(&mut s, self.month as u32);
        s.append("-");
        text::push_padded4(&mut s, self.year as u32);
        s.append(".toml");
        assert(s@ =~= spec_file_name(self@));
        s
    }

    /// Obtain title for the calendar view from `Date`: the month name and
    /// the year.
    pub fn calendar_title(&self) -> (r: String)
        requires
            spec_valid_date(self@),
        ensures
            r@ == spec_calendar_title(self@),
    {
        let mut s = String::from_str(" ");
        s.append(self.month_string());
        s.append(" ");
        text::push_decimal(&mut s, self.year as u32);
        s.append(" ");
        assert(s@ =~= spec_calendar_title(self@));
        s
    }

    /// Obtain title for the agenda view from `Date`: the weekday name, the
    /// month name, the day with its ordinal suffix, and the year.
    pub fn agenda_title(&self) -> (r: String)
        requires
            spec_valid_date(self@),
        ensures
            r@ == spec_agenda_title(self@),
    {
        let day_end: &'static str = {
            if self.day % 10 == 1 && self.day != 11 {
                "st"
            } else if self.day % 10 == 2 && self.day != 12 {
                "nd"
            } else {
                "th"
            }
        };
        let mut s = String::from_str(" Agenda | ");
        s.append(self.day_string());
        s.append(", ");
        s.append(self.month_string());
        s.append(" ");
        text::push_decimal(&mut s, self.day as u32);
        s.append(day_end);
        s.append(" ");
        text::push_decimal(&mut s, self.year as u32);
        s.append(" ");
        assert(s@ =~= spec_agenda_title(self@));
        s
    }
}

impl core::cmp::PartialOrd for Date {
    /// One `Date` is greater than another when its year is larger; on
    /// equal years when its month is larger; and on equal year and month
    /// when its day is larger.
    fn partial_cmp(&self, other: &Self) -> (r: Option<core::cmp::Ordering>) {
        if self.day == other.day && self.month == other.month && self.year == other.year {
            Some(core::cmp::Ordering::Equal)
        } else {
            if self.year > other.year {
                Some(core::cmp::Ordering::Greater)
            } else if self.year == other.year {
                if self.month > other.month {
                    Some(core::cmp::Ordering::Greater)
                } else if self.month == other.month {
                    if self.day > other.day {
                        Some(core::cmp::Ordering::Greater)
                    } else {
                        Some(core::cmp::Ordering::Less)
                    }
                } else {
                    Some(core::cmp::Ordering::Less)
                }
            } else {
                Some(core::cmp::Ordering::Less)
            }
        }
    }
}

impl vstd::std_specs::cmp::PartialOrdSpecImpl for Date {
    open spec fn obeys_partial_cmp_spec() -> bool {
        true
    }

    open spec fn partial_cmp_spec(&self, other: &Date) -> Option<core::cmp::Ordering> {
        if spec_date_lt(self@, other@) {
            Some(core::cmp::Ordering::Less)
        } else if spec_date_lt(other@, self@) {
            Some(core::cmp::Ordering::Greater)
        } else {
            Some(core::cmp::Ordering::Equal)
        }
    }
}

} // verus!
