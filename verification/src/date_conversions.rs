//! Stand-alone conversions between raw date fields and calendar
//! quantities: day of the week, the leap-year rule and month lengths.

use crate::date::{
    spec_day_of_week, spec_days_in_month, spec_leap_year, spec_valid_date, Date, DateModel,
};
use vstd::prelude::*;

verus! {

/// Convert a date to the corresponding day of the week, where 1 = Monday
/// and 7 = Sunday, using Zeller's congruence for Gregorian calendars.
pub fn date_to_day_of_the_week(day: i32, month: i32, year: i32) -> (r: i32)
    requires
        spec_valid_date(DateModel { day: day as int, month: month as int, year: year as int }),
    ensures
        r == spec_day_of_week(DateModel { day: day as int, month: month as int, year: year as int }),
        1 <= r <= 7,
{
    let date = Date { day, month, year };
    date.day_of_week()
}

/// Check if the given year is a leap year, returning 1 when it is and 0
/// when it is not. A leap year is divisible by 4, but a year divisible by
/// 100 is a leap year only when it is also divisible by 400.
pub fn is_leap_year(year: i32) -> (r: i32)
    requires
        year >= 1,
    ensures
        r == (if spec_leap_year(year as int) {
            1int
        } else {
            0int
        }),
{
    if year % 4 == 0 {
        if year % 100 == 0 {
            if year % 400 == 0 {
                return 1;
            } else {
                return 0;
            }
        } else {
            return 1;
        }
    } else {
        return 0;
    }
}

/// Given a month, return the number of days in that month. The year is
/// needed as well, since the length of February depends on the leap-year
/// rule.
pub fn month_to_days_in_month(month: i32, year: i32) -> (r: i32)
    requires
        1 <= month <= 12,
        year >= 1,
    ensures
        r == spec_days_in_month(month as int, year as int),
{
    let leap_year = is_leap_year(year);
    if month == 2 {
        return 28 + leap_year;
    } else {
        return 31 - ((month - 1) % 7) % 2;
    }
}

} // verus!
