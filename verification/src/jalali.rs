//! The arithmetic Jalali calendar: cycles of 33 years with 8 leap years each.
//!
//! Day numbers are those of the Gregorian module: day number 0 is 1 January
//! of Gregorian year 0.

use vstd::prelude::*;
use crate::arith::{div_trunc, rem_trunc};
use crate::date::Date;

verus! {

/// A leap year is every fourth year of a cycle, eight times in 33 years.
pub open spec fn is_jalali_leap_year(year: int) -> bool {
    ((year + 1595) % 33) % 4 == 0 && (year + 1595) % 33 != 32
}

/// Length of `month` (1 to 12): 31 days in the first six months, 30 in the
/// next five, 29 or 30 in the last.
pub open spec fn jalali_month_length(year: int, month: int) -> int {
    if month <= 6 {
        31
    } else if month <= 11 {
        30
    } else if is_jalali_leap_year(year) {
        30
    } else {
        29
    }
}

/// Days in `year`.
pub open spec fn jalali_year_length(year: int) -> int {
    if is_jalali_leap_year(year) {
        366
    } else {
        365
    }
}

/// A date that exists in the Jalali calendar.
pub open spec fn is_jalali_date(year: int, month: int, day: int) -> bool {
    1 <= month <= 12 && 1 <= day <= jalali_month_length(year, month)
}

/// Days of a year that lie before the first of `month`.
pub open spec fn jalali_days_before_month(month: int) -> int {
    if month < 7 {
        (month - 1) * 31
    } else {
        (month - 7) * 30 + 186
    }
}

/// Day number of a Jalali date. For a date that exists, of a year from -1595
/// on, it is the number of days from 1 January of Gregorian year 0 to it.
#[verifier::opaque]
pub open spec fn jalali_day_number(year: int, month: int, day: int) -> int {
    let y = year + 1595;
    -355668 + 365 * y + div_trunc(y, 33) * 8 + div_trunc(rem_trunc(y, 33) + 3, 4) + day
        + jalali_days_before_month(month)
}

/// The year in which day number `n` falls, for `n >= -355667`.
pub open spec fn jalali_year_on(n: int) -> int {
    let t = n + 355667;
    let cycles = div_trunc(t, 12053);
    let in_cycle = rem_trunc(t, 12053);
    let quads = div_trunc(in_cycle, 1461);
    let in_quad = rem_trunc(in_cycle, 1461);
    let years = if in_quad > 365 {
        (in_quad - 1) / 365
    } else {
        0
    };
    -1595 + 33 * cycles + 4 * quads + years
}

/// Days of its year that lie before day number `n`, for `n >= -355667`.
pub open spec fn jalali_day_of_year_on(n: int) -> int {
    let in_quad = rem_trunc(rem_trunc(n + 355667, 12053), 1461);
    if in_quad > 365 {
        (in_quad - 1) % 365
    } else {
        in_quad
    }
}

/// The Jalali date with day number `n`, for `n >= -355667`. Below that the
/// quotients round toward zero, and what comes out is no date.
#[verifier::opaque]
pub open spec fn jalali_date_on(n: int) -> Date {
    let year = jalali_year_on(n);
    let day_of_year = jalali_day_of_year_on(n);
    if day_of_year < 186 {
        Date { year, month: 1 + div_trunc(day_of_year, 31), day: 1 + rem_trunc(day_of_year, 31) }
    } else {
        Date { year, month: 7 + (day_of_year - 186) / 30, day: 1 + (day_of_year - 186) % 30 }
    }
}

/// Every day number from -355667 on is the day number of the Jalali date
/// that [`jalali_date_on`] gives for it, and that date exists.
pub proof fn lemma_jalali_date_on_day(n: int)
    requires
        n >= -355667,
    ensures
        ({
            let date = jalali_date_on(n);
            &&& is_jalali_date(date.year, date.month, date.day)
            &&& date.year >= -1595
            &&& jalali_day_number(date.year, date.month, date.day) == n
        }),
{
    reveal(jalali_date_on);
    reveal(jalali_day_number);
}

/// A Jalali date that exists, of a year from -1595 on, is the date that
/// [`jalali_date_on`] gives for its day number.
pub proof fn lemma_jalali_day_of_date(year: int, month: int, day: int)
    requires
        is_jalali_date(year, month, day),
        year >= -1595,
    ensures
        jalali_day_number(year, month, day) >= -355667,
        jalali_date_on(jalali_day_number(year, month, day)) == (Date { year, month, day }),
{
    reveal(jalali_date_on);
    reveal(jalali_day_number);
    let y = year + 1595;
    let cycles = y / 33;
    let in_cycle = y % 33;
    let quads = in_cycle / 4;
    let years = in_cycle % 4;
    let day_of_year = jalali_days_before_month(month) + day - 1;
    assert(0 <= day_of_year <= 365);
    assert(is_jalali_leap_year(year) <==> (years == 0 && quads != 8));
    assert(day_of_year == 365 ==> is_jalali_leap_year(year));
    assert((in_cycle + 3) / 4 == quads + (if years > 0 {
        1int
    } else {
        0int
    }));
    let n = jalali_day_number(year, month, day);
    let t = n + 355667;
    let in_quad = if years > 0 {
        365 * years + 1 + day_of_year
    } else {
        day_of_year
    };
    assert(t == 12053 * cycles + 1461 * quads + in_quad);
    assert(0 <= in_quad < 1461);
    assert(0 <= 1461 * quads + in_quad < 12053);
    assert(t / 12053 == cycles && t % 12053 == 1461 * quads + in_quad);
    assert((1461 * quads + in_quad) / 1461 == quads && (1461 * quads + in_quad) % 1461 == in_quad);
    assert(jalali_year_on(n) == year);
    assert(jalali_day_of_year_on(n) == day_of_year);
}

/// The year found for a day number from -355667 on lies in the cycle of 33
/// years that the day number falls in.
pub proof fn lemma_jalali_year_span(n: int)
    requires
        n >= -355667,
    ensures
        0 <= jalali_year_on(n) + 1595 - 33 * ((n + 355667) / 12053) <= 32,
{
}

/// From year -1595 on, a year begins where the year before it ends, and a
/// month where the month before it ends.
pub proof fn lemma_jalali_next_year(year: int, month: int)
    requires
        year >= -1595,
        1 <= month <= 12,
    ensures
        jalali_day_number(year + 1, 1, 1) == jalali_day_number(year, 1, 1) + jalali_year_length(
            year,
        ),
        month < 12 ==> jalali_day_number(year, month + 1, 1) == jalali_day_number(year, month, 1)
            + jalali_month_length(year, month),
        jalali_day_number(year + 1, 1, 1) == jalali_day_number(year, 12, 1) + jalali_month_length(
            year,
            12,
        ),
{
    reveal(jalali_day_number);
}

} // verus!
