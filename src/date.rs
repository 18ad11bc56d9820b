//! Calendar dates, held as a day number.

use vstd::prelude::*;

verus! {

/// First year that a date can have.
pub const MIN_YEAR: i32 = -262143;

/// Last year that a date can have.
pub const MAX_YEAR: i32 = 262142;

/// Whether a year of the proleptic Gregorian calendar is a leap year.
pub open spec fn is_leap(year: int) -> bool {
    (year % 4 == 0 && year % 100 != 0) || year % 400 == 0
}

/// Number of days in a month (1 to 12) of a year.
pub open spec fn days_in_month(year: int, month: int) -> int {
    if month == 2 {
        if is_leap(year) { 29 } else { 28 }
    } else if month == 4 || month == 6 || month == 9 || month == 11 {
        30
    } else {
        31
    }
}

/// Number of days of a year before the first day of a month (1 to 12).
pub open spec fn days_before_month(year: int, month: int) -> int
    decreases month,
{
    if month <= 1 {
        0
    } else {
        days_before_month(year, month - 1) + days_in_month(year, month - 1)
    }
}

/// Whether a year, month and day make a date of the supported range.
pub open spec fn valid_ymd(year: int, month: int, day: int) -> bool {
    MIN_YEAR <= year <= MAX_YEAR && 1 <= month <= 12 && 1 <= day <= days_in_month(year, month)
}

/// Day number of a date, counting 0001-01-01 as day 1 (divisions round down).
pub open spec fn ymd_days(year: int, month: int, day: int) -> int {
    let y = year - 1;
    365 * y + y / 4 - y / 100 + y / 400 + days_before_month(year, month) + day
}

/// Relies on chrono's `NaiveDate::from_ymd_opt`, which accepts exactly the valid
/// dates of its year range, and on `Datelike::num_days_from_ce`, which numbers
/// them from 0001-01-01 as day 1.
#[verifier::external_body]
fn ce_days(year: i32, month: u32, day: u32) -> (r: Option<i32>)
    ensures
        r.is_some() == valid_ymd(year as int, month as int, day as int),
        r.is_some() ==> r.unwrap() as int == ymd_days(year as int, month as int, day as int),
{
    match chrono::NaiveDate::from_ymd_opt(year, month, day) {
        Some(d) => Some(chrono::Datelike::num_days_from_ce(&d)),
        None => None,
    }
}

/// A calendar day, as its number counted from 0001-01-01 (day 1).
#[derive(Clone, Copy, Debug, PartialEq, Eq, Structural, PartialOrd, Ord, Hash)]
pub struct Date {
    pub days: i32,
}

impl Date {
    /// The date with a given day number.
    pub fn from_days(days: i32) -> (r: Date)
        ensures
            r.days == days,
    {
        Date { days }
    }

    /// The date of a year, month and day; none where they make no valid date.
    pub fn from_ymd(year: i32, month: u32, day: u32) -> (r: Option<Date>)
        ensures
            r.is_some() == valid_ymd(year as int, month as int, day as int),
            r.is_some() ==> r.unwrap().days as int == ymd_days(year as int, month as int, day as int),
    {
        match ce_days(year, month, day) {
            Some(days) => Some(Date { days }),
            None => None,
        }
    }

    /// Day number of the date.
    pub fn days(&self) -> (r: i32)
        ensures
            r == self.days,
    {
        self.days
    }
}

} // verus!
