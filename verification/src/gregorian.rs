//! The proleptic Gregorian calendar as a count of days.
//!
//! Day number 0 is 1 January of year 0; the same numbering is used for the
//! Jalali calendar, so a day number is the pivot between the two.

use vstd::prelude::*;
use crate::arith::{div_trunc, rem_trunc};
use crate::date::Date;

verus! {

/// Every fourth year is a leap year, but of the years that end a century
/// only every fourth.
pub open spec fn is_leap_year(year: int) -> bool {
    (year % 4 == 0 && year % 100 != 0) || year % 400 == 0
}

/// Length of `month` (1 to 12); 0 for any other number.
pub open spec fn month_length(month: int, leap: bool) -> int {
    if month == 2 {
        if leap {
            29
        } else {
            28
        }
    } else if month == 4 || month == 6 || month == 9 || month == 11 {
        30
    } else if 1 <= month <= 12 {
        31
    } else {
        0
    }
}

/// Days in `year`.
pub open spec fn year_length(year: int) -> int {
    if is_leap_year(year) {
        366
    } else {
        365
    }
}

/// A date that exists in the Gregorian calendar.
pub open spec fn is_gregorian_date(year: int, month: int, day: int) -> bool {
    1 <= month <= 12 && 1 <= day <= month_length(month, is_leap_year(year))
}

/// Days of a common year that lie before the first of `month` (1 to 12).
pub open spec fn days_before_month(month: int) -> int {
    if month <= 1 {
        0
    } else if month == 2 {
        31
    } else if month == 3 {
        59
    } else if month == 4 {
        90
    } else if month == 5 {
        120
    } else if month == 6 {
        151
    } else if month == 7 {
        181
    } else if month == 8 {
        212
    } else if month == 9 {
        243
    } else if month == 10 {
        273
    } else if month == 11 {
        304
    } else {
        334
    }
}

/// Leap years among the years 0 to `year - 1`, for `year >= 0`.
pub open spec fn leap_years_before(year: int) -> int {
    div_trunc(year + 3, 4) - div_trunc(year + 99, 100) + div_trunc(year + 399, 400)
}

/// Day number of a Gregorian date. For a date that exists, of a year from 0
/// on, it is the number of days from 1 January of year 0 to that date.
#[verifier::opaque]
pub open spec fn gregorian_day_number(year: int, month: int, day: int) -> int {
    365 * year + leap_years_before(
        if month > 2 {
            year + 1
        } else {
            year
        },
    ) + days_before_month(month) + day - 1
}

/// Walks from `month` on through the months of a year, taking each month's
/// length off `day` while `day` lies beyond that month.
pub open spec fn month_scan(month: int, day: int, leap: bool) -> (int, int)
    decreases 13 - month,
{
    if month < 13 && day > month_length(month, leap) {
        month_scan(month + 1, day - month_length(month, leap), leap)
    } else {
        (month, day)
    }
}

/// Position of a day of a 400-year era in its century. In the three
/// centuries that open with a common year the positions from 365 on are
/// moved up by one, so that every century reads as if it began with a leap
/// year.
pub open spec fn day_in_century(in_era: int) -> int {
    if in_era > 36524 {
        let r = (in_era - 1) % 36524;
        if r >= 365 {
            r + 1
        } else {
            r
        }
    } else {
        in_era
    }
}

/// The year of its era (0 to 399) in which the day at position `in_era` of
/// an era falls, for positions from 0 on.
pub open spec fn year_in_era(in_era: int) -> int {
    let centuries = if in_era > 36524 {
        (in_era - 1) / 36524
    } else {
        0
    };
    let in_century = day_in_century(in_era);
    let quads = div_trunc(in_century, 1461);
    let in_quad = rem_trunc(in_century, 1461);
    let years = if in_quad > 365 {
        (in_quad - 1) / 365
    } else {
        0
    };
    100 * centuries + 4 * quads + years
}

/// Days of its year that lie before the day at position `in_era` of an era.
pub open spec fn day_of_year_in_era(in_era: int) -> int {
    let in_quad = rem_trunc(day_in_century(in_era), 1461);
    if in_quad > 365 {
        (in_quad - 1) % 365
    } else {
        in_quad
    }
}

/// The year in which day number `n` falls, for `n >= 0`.
pub open spec fn gregorian_year_on(n: int) -> int {
    400 * div_trunc(n, 146097) + year_in_era(rem_trunc(n, 146097))
}

/// Days of its year that lie before day number `n`, for `n >= 0`.
pub open spec fn gregorian_day_of_year_on(n: int) -> int {
    day_of_year_in_era(rem_trunc(n, 146097))
}

/// The Gregorian date with day number `n`, for `n >= 0`. Below 0 the
/// quotients round toward zero, and what comes out is no date.
#[verifier::opaque]
pub open spec fn gregorian_date_on(n: int) -> Date {
    let year = gregorian_year_on(n);
    let (month, day) = month_scan(0, gregorian_day_of_year_on(n) + 1, is_leap_year(year));
    Date { year, month, day }
}

/// Day number of 1 January of `year`, for `year >= 0`.
pub open spec fn days_before_year(year: int) -> int {
    365 * year + leap_years_before(year)
}

/// Days of `year` that lie before the first of `month` (1 to 12).
pub open spec fn days_before_month_in(year: int, month: int) -> int {
    days_before_month(month) + if month > 2 && is_leap_year(year) {
        1int
    } else {
        0int
    }
}

/// Year 0 begins on day number 0, and from there on a year begins where the
/// year before it ends.
pub proof fn lemma_next_year(year: int)
    requires
        year >= 0,
    ensures
        days_before_year(0) == 0,
        days_before_year(year + 1) == days_before_year(year) + year_length(year),
{
}

/// A month begins where the month before it ends.
pub proof fn lemma_next_month(year: int, month: int)
    requires
        1 <= month < 12,
    ensures
        days_before_month_in(year, 1) == 0,
        days_before_month_in(year, month + 1) == days_before_month_in(year, month) + month_length(
            month,
            is_leap_year(year),
        ),
        year_length(year) == days_before_month_in(year, 12) + month_length(
            12,
            is_leap_year(year),
        ),
{
}

/// From year 0 on, later years begin on later days.
pub proof fn lemma_years_ascend(a: int, b: int)
    requires
        0 <= a <= b,
    ensures
        days_before_year(a) <= days_before_year(b),
    decreases b - a,
{
    if a < b {
        lemma_years_ascend(a, b - 1);
        lemma_next_year(b - 1);
    }
}

/// The day number of a date is the first day of its year plus the days of
/// that year before the date.
pub proof fn lemma_day_number_in_year(year: int, month: int, day: int)
    requires
        year >= 0,
        1 <= month <= 12,
    ensures
        gregorian_day_number(year, month, day) == days_before_year(year) + days_before_month_in(
            year,
            month,
        ) + day - 1,
{
    reveal(gregorian_day_number);
    if month > 2 {
        lemma_next_year(year);
    }
}

/// The month scan finds the month and day of every day of a year.
pub proof fn lemma_month_scan(day_of_year: int, leap: bool)
    requires
        0 <= day_of_year < (if leap {
            366int
        } else {
            365int
        }),
    ensures
        ({
            let (month, day) = month_scan(0, day_of_year + 1, leap);
            &&& 1 <= month <= 12
            &&& 1 <= day <= month_length(month, leap)
            &&& days_before_month(month) + (if month > 2 && leap {
                1int
            } else {
                0int
            }) + day - 1 == day_of_year
        }),
{
    reveal_with_fuel(month_scan, 14);
}

/// The month scan gives back the month and day that a day of the year was
/// counted from.
pub proof fn lemma_month_scan_of_date(month: int, day: int, leap: bool)
    requires
        1 <= month <= 12,
        1 <= day <= month_length(month, leap),
    ensures
        month_scan(
            0,
            days_before_month(month) + (if month > 2 && leap {
                1int
            } else {
                0int
            }) + day,
            leap,
        ) == (month, day),
{
    reveal_with_fuel(month_scan, 14);
}

/// Within an era, a position is the first day of the year found for it
/// plus the days of that year found for it.
proof fn lemma_year_in_era(r: int)
    requires
        0 <= r < 146097,
    ensures
        0 <= year_in_era(r) < 400,
        days_before_year(year_in_era(r)) + day_of_year_in_era(r) == r,
        0 <= day_of_year_in_era(r) < year_length(year_in_era(r)),
{
}

/// A year stands in its era as the year that many years after 0 stands in
/// the first era.
proof fn lemma_year_of_era(eras: int, year: int)
    requires
        eras >= 0,
        0 <= year < 400,
    ensures
        days_before_year(400 * eras + year) == 146097 * eras + days_before_year(year),
        is_leap_year(400 * eras + year) == is_leap_year(year),
{
    let y = 400 * eras + year;
    assert((y + 3) / 4 == 100 * eras + (year + 3) / 4);
    assert((y + 99) / 100 == 4 * eras + (year + 99) / 100);
}

/// Every day number from 0 on is the first day of the year found for it plus
/// the days of that year found for it.
pub proof fn lemma_gregorian_year_on_day(n: int)
    requires
        n >= 0,
    ensures
        gregorian_year_on(n) >= 0,
        days_before_year(gregorian_year_on(n)) + gregorian_day_of_year_on(n) == n,
        0 <= gregorian_day_of_year_on(n) < year_length(gregorian_year_on(n)),
{
    let eras = n / 146097;
    let r = n % 146097;
    lemma_year_in_era(r);
    lemma_year_of_era(eras, year_in_era(r));
}

/// Every day number from 0 on is the day number of the Gregorian date that
/// [`gregorian_date_on`] gives for it, and that date exists.
pub proof fn lemma_gregorian_date_on_day(n: int)
    requires
        n >= 0,
    ensures
        ({
            let date = gregorian_date_on(n);
            &&& is_gregorian_date(date.year, date.month, date.day)
            &&& date.year >= 0
            &&& gregorian_day_number(date.year, date.month, date.day) == n
        }),
{
    reveal(gregorian_date_on);
    let year = gregorian_year_on(n);
    lemma_gregorian_year_on_day(n);
    lemma_month_scan(gregorian_day_of_year_on(n), is_leap_year(year));
    let date = gregorian_date_on(n);
    lemma_day_number_in_year(year, date.month, date.day);
}

/// A Gregorian date that exists, of a year from 0 on, is the date that
/// [`gregorian_date_on`] gives for its day number.
pub proof fn lemma_gregorian_day_of_date(year: int, month: int, day: int)
    requires
        is_gregorian_date(year, month, day),
        year >= 0,
    ensures
        gregorian_day_number(year, month, day) >= 0,
        gregorian_date_on(gregorian_day_number(year, month, day)) == (Date { year, month, day }),
{
    reveal(gregorian_date_on);
    let n = gregorian_day_number(year, month, day);
    lemma_day_number_in_year(year, month, day);
    lemma_years_ascend(0, year);
    lemma_gregorian_year_on_day(n);
    lemma_next_year(year);
    let found = gregorian_year_on(n);
    lemma_next_year(found);
    if found < year {
        lemma_years_ascend(found + 1, year);
    }
    if year < found {
        lemma_years_ascend(year + 1, found);
    }
    lemma_month_scan_of_date(month, day, is_leap_year(year));
}

/// Whatever the day number, the date found for it has a month from 0 to 12
/// and a day of at most 31; below day number 0 its year is at most 0.
pub proof fn lemma_gregorian_date_shape(n: int)
    ensures
        0 <= gregorian_date_on(n).month <= 12,
        -1461 < gregorian_date_on(n).day <= 31,
        n < 0 ==> gregorian_date_on(n).year <= 0,
{
    if n >= 0 {
        lemma_gregorian_date_on_day(n);
    } else {
        reveal(gregorian_date_on);
        reveal_with_fuel(month_scan, 3);
    }
}

} // verus!
