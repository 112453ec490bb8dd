//! Conversion of dates between the Gregorian and the Jalali calendar.

use vstd::prelude::*;
use crate::arith::{narrow_i32, narrow_u32};
use crate::date::{fits, lemma_narrowed, narrowed, Date};
use crate::gregorian::{
    days_before_year, gregorian_date_on, gregorian_day_number, gregorian_day_of_year_on,
    gregorian_year_on, is_gregorian_date, is_leap_year, lemma_gregorian_date_on_day,
    lemma_day_number_in_year, lemma_gregorian_day_of_date, lemma_gregorian_year_on_day,
    lemma_next_year, lemma_years_ascend, month_length, month_scan,
};
use crate::jalali::{
    is_jalali_date, jalali_date_on, jalali_day_number, lemma_jalali_date_on_day,
    lemma_jalali_day_of_date, lemma_jalali_year_span,
};

verus! {

/// The Jalali triple that [`gregorian_to_jalali`] gives for a Gregorian one.
pub open spec fn gregorian_to_jalali_spec(year: int, month: int, day: int) -> (i32, u32, u32) {
    narrowed(jalali_date_on(gregorian_day_number(year, month, day)))
}

/// The Gregorian triple that [`jalali_to_gregorian`] gives for a Jalali one.
pub open spec fn jalali_to_gregorian_spec(year: int, month: int, day: int) -> (i32, u32, u32) {
    narrowed(gregorian_date_on(jalali_day_number(year, month, day)))
}

/// Day number of a Gregorian triple.
pub(crate) fn gregorian_days(year: i32, month: usize, day: i32) -> (n: i64)
    requires
        1 <= month <= 12,
    ensures
        n == gregorian_day_number(year as int, month as int, day as int),
        -790_000_000_000 <= n <= 790_000_000_000,
{
    proof {
        reveal(gregorian_day_number);
    }
    let days_before: [i64; 12] = [0, 31, 59, 90, 120, 151, 181, 212, 243, 273, 304, 334];
    let leap_base: i64 = if month > 2 {
        year as i64 + 1
    } else {
        year as i64
    };
    365 * (year as i64) + (leap_base + 3) / 4 - (leap_base + 99) / 100 + (leap_base + 399) / 400
        + days_before[month - 1] + day as i64 - 1
}

/// The Jalali date on day number `n`, narrowed to 32 bits a field.
pub(crate) fn jalali_on_day(n: i64) -> (jalali: (i32, u32, u32))
    requires
        -1_000_000_000_000 <= n <= 1_000_000_000_000,
    ensures
        jalali == narrowed(jalali_date_on(n as int)),
{
    proof {
        reveal(jalali_date_on);
    }
    let mut days: i64 = n + 355667;
    let mut year: i64 = -1595 + 33 * (days / 12053);
    days = days % 12053;
    year += 4 * (days / 1461);
    days = days % 1461;
    if days > 365 {
        year += (days - 1) / 365;
        days = (days - 1) % 365;
    }
    let month: i64;
    let day: i64;
    if days < 186 {
        month = 1 + days / 31;
        day = 1 + days % 31;
    } else {
        month = 7 + (days - 186) / 30;
        day = 1 + (days - 186) % 30;
    }
    (narrow_i32(year), narrow_u32(month), narrow_u32(day))
}

/// Converts a Gregorian date to the Jalali calendar.
///
/// The result is the Jalali date on the day number of the Gregorian triple.
/// The triple need not be a date that exists: day 32 of a month of 31 days
/// is the first day of the next month, and so on. A date that exists, of a
/// year from 0 on, has its true Jalali date, see
/// [`lemma_gregorian_round_trip`]. Where the year is below 0, or the day so
/// far below 1 that the day number falls below -355667, the result follows
/// the arithmetic and is no date. Fields that do not fit in 32 bits keep
/// their low 32 bits.
pub fn gregorian_to_jalali(gregorian_year: i32, gregorian_month: usize, gregorian_day: i32) -> (jalali:
    (i32, u32, u32))
    requires
        1 <= gregorian_month <= 12,
    ensures
        jalali == gregorian_to_jalali_spec(
            gregorian_year as int,
            gregorian_month as int,
            gregorian_day as int,
        ),
{
    jalali_on_day(gregorian_days(gregorian_year, gregorian_month, gregorian_day))
}

/// Day number of a Jalali triple.
pub(crate) fn jalali_days(year: i32, month: u32, day: i32) -> (n: i64)
    ensures
        n == jalali_day_number(year as int, month as int, day as int),
        -1_000_000_000_000 <= n <= 1_000_000_000_000,
{
    proof {
        reveal(jalali_day_number);
    }
    let y: i64 = year as i64 + 1595;
    let days_before: i64 = if month < 7 {
        (month as i64 - 1) * 31
    } else {
        (month as i64 - 7) * 30 + 186
    };
    -355668 + 365 * y + (y / 33) * 8 + ((y % 33) + 3) / 4 + day as i64 + days_before
}

/// Whether `year` is a leap year of the Gregorian calendar.
pub(crate) fn leap_year(year: i64) -> (leap: bool)
    ensures
        leap == is_leap_year(year as int),
{
    (year % 4 == 0 && year % 100 != 0) || year % 400 == 0
}

/// Splits a day number into the year and the days gone by in that year.
pub(crate) fn gregorian_year_on_day(n: i64) -> (split: (i64, i64))
    requires
        -1_000_000_000_000 <= n <= 1_000_000_000_000,
    ensures
        split.0 == gregorian_year_on(n as int),
        split.1 == gregorian_day_of_year_on(n as int),
        -1461 < split.1 <= 365,
        -3_000_000_000 <= split.0 <= 3_000_000_000,
{
    let mut days: i64 = n;
    let mut year: i64 = 400 * (days / 146097);
    days = days % 146097;
    if days > 36524 {
        days -= 1;
        year += 100 * (days / 36524);
        days = days % 36524;
        if days >= 365 {
            days += 1;
        }
    }
    year += 4 * (days / 1461);
    days = days % 1461;
    if days > 365 {
        year += (days - 1) / 365;
        days = (days - 1) % 365;
    }
    (year, days)
}

/// Finds the month and the day of the month for a day of a year, counted
/// from 1.
pub(crate) fn month_and_day(day_in_year: i64, leap: bool) -> (found: (usize, i64))
    requires
        -1461 < day_in_year <= 366,
    ensures
        (found.0 as int, found.1 as int) == month_scan(0, day_in_year as int, leap),
        found.0 <= 13,
        -1461 < found.1 <= 366,
{
    let lengths: [i64; 13] = [
        0,
        31,
        if leap {
            29
        } else {
            28
        },
        31,
        30,
        31,
        30,
        31,
        31,
        30,
        31,
        30,
        31,
    ];
    let mut day: i64 = day_in_year;
    let mut month: usize = 0;
    while month < 13 && day > lengths[month as usize]
        invariant
            month <= 13,
            -1461 < day <= 366,
            forall|m: int| 0 <= m < 13 ==> lengths[m] == month_length(m, leap),
            month_scan(month as int, day as int, leap) == month_scan(0, day_in_year as int, leap),
        decreases 13 - month,
    {
        day -= lengths[month];
        month += 1;
    }
    (month, day)
}

/// The Gregorian date on day number `n`, narrowed to 32 bits a field.
pub(crate) fn gregorian_on_day(n: i64) -> (gregorian: (i32, u32, u32))
    requires
        -1_000_000_000_000 <= n <= 1_000_000_000_000,
    ensures
        gregorian == narrowed(gregorian_date_on(n as int)),
{
    proof {
        reveal(gregorian_date_on);
    }
    let (year, days) = gregorian_year_on_day(n);
    let (month, day) = month_and_day(days + 1, leap_year(year));
    (narrow_i32(year), narrow_u32(month as i64), narrow_u32(day))
}

/// Converts a Jalali date to the Gregorian calendar.
///
/// The result is the Gregorian date on the day number of the Jalali triple.
/// The triple need not be a date that exists: day 31 of a month of 30 days
/// is the first day of the next month, and so on, and a month outside 1 to
/// 12 is counted as 30 days for each month past the seventh. A date that
/// exists, of a year from -621 to 2147483471, has its true Gregorian date,
/// see [`lemma_jalali_round_trip`]. Where the day number falls below 0, that
/// is before 1 January of Gregorian year 0, the result follows the
/// arithmetic and is no date. Fields that do not fit in 32 bits keep their
/// low 32 bits.
pub fn jalali_to_gregorian(jalali_year: i32, jalali_month: usize, jalali_day: i32) -> (gregorian:
    (i32, u32, u32))
    requires
        jalali_month <= u32::MAX,
    ensures
        gregorian == jalali_to_gregorian_spec(
            jalali_year as int,
            jalali_month as int,
            jalali_day as int,
        ),
{
    gregorian_on_day(jalali_days(jalali_year, jalali_month as u32, jalali_day))
}

/// The day number of a Gregorian date that exists, of a year from 0 to
/// `i32::MAX`, lies from 0 up to the first day of year 2147483648.
pub proof fn lemma_gregorian_day_span(year: int, month: int, day: int)
    requires
        is_gregorian_date(year, month, day),
        0 <= year <= i32::MAX,
    ensures
        0 <= gregorian_day_number(year, month, day) < days_before_year(0x8000_0000),
{
    lemma_gregorian_day_of_date(year, month, day);
    lemma_day_number_in_year(year, month, day);
    lemma_next_year(year);
    lemma_years_ascend(year + 1, 0x8000_0000);
}

/// The day number of a Jalali date that exists, of a year from -621 to
/// 2147483471, lies from 0 up to the first day of Gregorian year 2147483648.
pub proof fn lemma_jalali_day_span(year: int, month: int, day: int)
    requires
        is_jalali_date(year, month, day),
        -621 <= year <= 2_147_483_471,
    ensures
        0 <= jalali_day_number(year, month, day) < days_before_year(0x8000_0000),
{
    reveal(jalali_day_number);
}

/// On a day number from 0 up to the first day of year 2147483648 the
/// Gregorian date has fields that fit in 32 bits.
pub proof fn lemma_gregorian_date_fits(n: int)
    requires
        0 <= n < days_before_year(0x8000_0000),
    ensures
        fits(gregorian_date_on(n)),
        gregorian_date_on(n).year >= 0,
{
    reveal(gregorian_date_on);
    lemma_gregorian_date_on_day(n);
    lemma_gregorian_year_on_day(n);
    let year = gregorian_year_on(n);
    if year >= 0x8000_0000 {
        lemma_years_ascend(0x8000_0000, year);
    }
}

/// On a day number from 0 up to the first day of Gregorian year 2147483648
/// the Jalali date has fields that fit in 32 bits.
pub proof fn lemma_jalali_date_fits(n: int)
    requires
        0 <= n < days_before_year(0x8000_0000),
    ensures
        fits(jalali_date_on(n)),
{
    reveal(jalali_date_on);
    lemma_jalali_date_on_day(n);
    lemma_jalali_year_span(n);
}

/// A Gregorian date that exists, of a year from 0 on, comes back unchanged
/// when it is converted to the Jalali calendar and from there to the
/// Gregorian calendar again.
pub proof fn lemma_gregorian_round_trip(year: i32, month: usize, day: i32)
    requires
        is_gregorian_date(year as int, month as int, day as int),
        year >= 0,
    ensures
        ({
            let jalali = gregorian_to_jalali_spec(year as int, month as int, day as int);
            let back = jalali_to_gregorian_spec(
                jalali.0 as int,
                jalali.1 as int,
                jalali.2 as int,
            );
            &&& is_jalali_date(jalali.0 as int, jalali.1 as int, jalali.2 as int)
            &&& back.0 == year
            &&& back.1 == month
            &&& back.2 == day
        }),
{
    let n = gregorian_day_number(year as int, month as int, day as int);
    lemma_gregorian_day_span(year as int, month as int, day as int);
    lemma_gregorian_day_of_date(year as int, month as int, day as int);
    lemma_jalali_date_on_day(n);
    lemma_jalali_date_fits(n);
    lemma_narrowed(jalali_date_on(n));
    lemma_narrowed(Date { year: year as int, month: month as int, day: day as int });
}

/// A Jalali date that exists, of a year from -621 to 2147483471, comes back
/// unchanged when it is converted to the Gregorian calendar and from there
/// to the Jalali calendar again. These are the years that lie within the
/// Gregorian years 0 to 2147483647.
pub proof fn lemma_jalali_round_trip(year: i32, month: usize, day: i32)
    requires
        is_jalali_date(year as int, month as int, day as int),
        -621 <= year <= 2_147_483_471,
    ensures
        ({
            let gregorian = jalali_to_gregorian_spec(year as int, month as int, day as int);
            let back = gregorian_to_jalali_spec(
                gregorian.0 as int,
                gregorian.1 as int,
                gregorian.2 as int,
            );
            &&& is_gregorian_date(gregorian.0 as int, gregorian.1 as int, gregorian.2 as int)
            &&& back.0 == year
            &&& back.1 == month
            &&& back.2 == day
        }),
{
    let n = jalali_day_number(year as int, month as int, day as int);
    lemma_jalali_day_span(year as int, month as int, day as int);
    lemma_jalali_day_of_date(year as int, month as int, day as int);
    lemma_gregorian_date_on_day(n);
    lemma_gregorian_date_fits(n);
    lemma_narrowed(gregorian_date_on(n));
    lemma_narrowed(Date { year: year as int, month: month as int, day: day as int });
}

} // verus!
