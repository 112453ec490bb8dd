//! Julian Day Numbers of Gregorian dates.
//!
//! The Julian Day Number counts days without a gap; day 1721060 is
//! 1 January of Gregorian year 0, and day 2440588 is 1 January 1970.

use vstd::prelude::*;
use crate::arith::{div_trunc, narrow_i32, narrow_u32};
use crate::date::{earlier, narrowed, Date};
use crate::gregorian::{
    days_before_month, gregorian_date_on, gregorian_day_number, is_gregorian_date, is_leap_year,
    lemma_gregorian_date_on_day, lemma_years_ascend,
};

verus! {

/// Julian Day Number of a Gregorian triple. The year is counted from
/// 1 March of year -4800, so that a leap day ends its year.
#[verifier::opaque]
pub open spec fn julian_day_number(year: int, month: int, day: int) -> int {
    let a = div_trunc(14 - month, 12);
    let y = year + 4800 - a;
    let m = month + 12 * a - 3;
    day + div_trunc(153 * m + 2, 5) + 365 * y + div_trunc(y, 4) - div_trunc(y, 100) + div_trunc(
        y,
        400,
    ) - 32045
}

/// The Gregorian date on Julian Day `jdn`, for `jdn >= -32044`. Below that
/// the quotients round toward zero, and what comes out is no date.
#[verifier::opaque]
pub open spec fn date_on_julian_day(jdn: int) -> Date {
    let a = jdn + 32044;
    let b = div_trunc(4 * a + 3, 146097);
    let c = a - div_trunc(146097 * b, 4);
    let d = div_trunc(4 * c + 3, 1461);
    let e = c - div_trunc(1461 * d, 4);
    let m = div_trunc(5 * e + 2, 153);
    Date {
        year: 100 * b + d - 4800 + div_trunc(m, 10),
        month: m + 3 - 12 * div_trunc(m, 10),
        day: e - div_trunc(153 * m + 2, 5) + 1,
    }
}

/// Julian Day Number of a Gregorian triple.
pub fn gregorian_to_jdn(year: i32, month: i32, day: i32) -> (jdn: i64)
    ensures
        jdn == julian_day_number(year as int, month as int, day as int),
        -900_000_000_000 <= jdn <= 900_000_000_000,
{
    proof {
        reveal(julian_day_number);
    }
    let a: i64 = (14 - month as i64) / 12;
    let y: i64 = year as i64 + 4800 - a;
    let m: i64 = month as i64 + 12 * a - 3;
    day as i64 + (153 * m + 2) / 5 + 365 * y + y / 4 - y / 100 + y / 400 - 32045
}

/// The Gregorian date on Julian Day `jdn`, each field narrowed to 32 bits.
pub fn jdn_to_gregorian(jdn: i64) -> (gregorian: (i32, u32, u32))
    requires
        i64::MIN <= 4 * (jdn + 32044) + 3 <= i64::MAX,
    ensures
        gregorian == narrowed(date_on_julian_day(jdn as int)),
{
    proof {
        reveal(date_on_julian_day);
    }
    let a: i64 = jdn + 32044;
    let b: i64 = (4 * a + 3) / 146097;
    let c: i64 = a - (146097 * b) / 4;
    let d: i64 = (4 * c + 3) / 1461;
    let e: i64 = c - (1461 * d) / 4;
    let m: i64 = (5 * e + 2) / 153;
    let day: i64 = e - (153 * m + 2) / 5 + 1;
    let month: i64 = m + 3 - 12 * (m / 10);
    let year: i64 = 100 * b + d - 4800 + m / 10;
    (narrow_i32(year), narrow_u32(month), narrow_u32(day))
}

/// From year 0 on, the Julian Day Number of a date is its day number plus
/// 1721060, whatever the day.
pub proof fn lemma_julian_day_of_date(year: int, month: int, day: int)
    requires
        year >= 0,
        1 <= month <= 12,
    ensures
        julian_day_number(year, month, day) == gregorian_day_number(year, month, day) + 1721060,
{
    reveal(julian_day_number);
    reveal(gregorian_day_number);
    let a = (14 - month) / 12;
    assert(a == (if month <= 2 {
        1int
    } else {
        0int
    }));
    let m = month + 12 * a - 3;
    assert((153 * m + 2) / 5 == days_before_month(month) + (if month <= 2 {
        306int
    } else {
        -59int
    }));
    let base = if month > 2 {
        year + 1
    } else {
        year
    };
    let y = year + 4800 - a;
    assert(y == base + 4799);
    assert(y / 4 == (base + 3) / 4 + 1199);
    assert(y / 100 == (base + 99) / 100 + 47);
    assert(y / 400 == (base + 399) / 400 + 11);
}

/// A Gregorian date that exists, of a year from 0 on, is the date that
/// [`date_on_julian_day`] gives for its Julian Day Number.
pub proof fn lemma_date_on_julian_day_of_date(year: int, month: int, day: int)
    requires
        is_gregorian_date(year, month, day),
        year >= 0,
    ensures
        date_on_julian_day(julian_day_number(year, month, day)) == (Date { year, month, day }),
{
    reveal(date_on_julian_day);
    reveal(julian_day_number);
    let a = (14 - month) / 12;
    assert(a == (if month <= 2 {
        1int
    } else {
        0int
    }));
    let y = year + 4800 - a;
    let m = month + 12 * a - 3;
    assert(0 <= m <= 11);
    let before = (153 * m + 2) / 5;
    let e = day - 1 + before;
    assert(0 <= e <= 365);
    assert((5 * e + 2) / 153 == m);
    let cent = y / 100;
    let in_cent = y % 100;
    assert(y == 100 * cent + in_cent);
    assert(e == 365 ==> is_leap_year(year) && m == 11);
    assert(m == 11 ==> year + 4800 == y + 1);
    assert(e == 365 ==> in_cent % 4 == 3);
    assert(e == 365 && in_cent == 99 ==> cent % 4 == 3) by {
        if e == 365 && in_cent == 99 {
            assert(year + 4800 == 100 * (cent + 1));
            assert(year % 100 == 0);
            assert(year % 400 == 0);
            assert((cent + 1) % 4 == 0);
        }
    }
    assert(y / 4 == 25 * cent + in_cent / 4);
    assert(y / 400 == cent / 4);
    assert((146097 * cent) / 4 == 36524 * cent + cent / 4);
    assert((1461 * in_cent) / 4 == 365 * in_cent + in_cent / 4);
    let jdn = julian_day_number(year, month, day);
    let total = jdn + 32044;
    assert(total == e + (146097 * cent) / 4 + (1461 * in_cent) / 4);
    assert(4 * ((146097 * cent) / 4) == 146097 * cent - cent % 4);
    assert(4 * ((1461 * in_cent) / 4) == 1461 * in_cent - in_cent % 4);
    assert(4 * total + 3 == 146097 * cent + (1461 * in_cent + 4 * e + 3 - cent % 4 - in_cent % 4));
    assert(0 <= 1461 * in_cent + 4 * e + 3 - cent % 4 - in_cent % 4 < 146097);
    assert((4 * total + 3) / 146097 == cent);
    let c = total - (146097 * cent) / 4;
    assert(c == e + (1461 * in_cent) / 4);
    assert(4 * c + 3 == 1461 * in_cent + (4 * e + 3 - in_cent % 4));
    assert(0 <= 4 * e + 3 - in_cent % 4 < 1461);
    assert((4 * c + 3) / 1461 == in_cent);
    assert(c - (1461 * in_cent) / 4 == e);
    assert(m / 10 == a);
}

/// From Julian Day 1721060 on, the date on a Julian Day is the date with
/// the day number 1721060 less.
pub proof fn lemma_date_on_julian_day(jdn: int)
    requires
        jdn >= 1721060,
    ensures
        date_on_julian_day(jdn) == gregorian_date_on(jdn - 1721060),
        julian_day_number(
            date_on_julian_day(jdn).year,
            date_on_julian_day(jdn).month,
            date_on_julian_day(jdn).day,
        ) == jdn,
{
    let date = gregorian_date_on(jdn - 1721060);
    lemma_gregorian_date_on_day(jdn - 1721060);
    lemma_julian_day_of_date(date.year, date.month, date.day);
    lemma_date_on_julian_day_of_date(date.year, date.month, date.day);
}

/// From Julian Day 1721060 on, the date on a Julian Day exists.
pub proof fn lemma_date_on_julian_day_exists(jdn: int)
    requires
        jdn >= 1721060,
    ensures
        is_gregorian_date(
            date_on_julian_day(jdn).year,
            date_on_julian_day(jdn).month,
            date_on_julian_day(jdn).day,
        ),
        date_on_julian_day(jdn).year >= 0,
        1 <= date_on_julian_day(jdn).month <= 12,
        1 <= date_on_julian_day(jdn).day <= 31,
{
    lemma_date_on_julian_day(jdn);
    lemma_gregorian_date_on_day(jdn - 1721060);
}

/// A triple that comes before 1 January 1970, with a month from 0 to 12 and
/// a day of at most 31, has a Julian Day Number below that of 1 January 1970.
pub proof fn lemma_julian_day_before_1970(year: int, month: int, day: int)
    requires
        0 <= month <= 12,
        day <= 31,
        earlier(Date { year, month, day }, Date { year: 1970, month: 1, day: 1 }),
    ensures
        julian_day_number(year, month, day) < 2_440_588,
{
    reveal(julian_day_number);
    let y = year + 4800 - div_trunc(14 - month, 12);
    if 0 <= y <= 6768 {
        lemma_years_ascend(y + 1, 6769);
    } else if y >= 0 {
        lemma_years_ascend(y + 1, 6770);
    }
}

} // verus!
