//! Unix timestamps and calendar dates: the day that holds a timestamp, and
//! the timestamp of the midnight (UTC) that opens a day.

use vstd::prelude::*;
use crate::arith::{narrow_i32, wrap_i32};
use crate::convert::{
    gregorian_on_day, gregorian_to_jalali, gregorian_to_jalali_spec, jalali_days,
    jalali_to_gregorian_spec, lemma_gregorian_date_fits, lemma_gregorian_round_trip,
    lemma_jalali_date_fits, lemma_jalali_day_span,
};
use crate::gregorian::{
    gregorian_date_on, gregorian_day_number, is_gregorian_date, lemma_gregorian_date_on_day,
    lemma_gregorian_date_shape,
};
use crate::jalali::{is_jalali_date, jalali_date_on, jalali_day_number, lemma_jalali_date_on_day};
use crate::julian_day::{
    date_on_julian_day, gregorian_to_jdn, jdn_to_gregorian, julian_day_number,
    lemma_date_on_julian_day, lemma_date_on_julian_day_exists, lemma_julian_day_before_1970,
    lemma_julian_day_of_date,
};
use crate::date::{earlier, lemma_narrowed, narrowed, Date};

verus! {

/// Julian Day Number of 1 January 1970.
pub const UNIX_EPOCH_JULIAN_DAY: i64 = 2_440_588;

/// Seconds in a day.
pub const SECONDS_PER_DAY: i64 = 86_400;

/// What [`unix_to_gregorian`] returns: nothing below 0, else the Gregorian
/// date of the day that holds the timestamp, narrowed to 32 bits a field.
pub open spec fn unix_to_gregorian_spec(timestamp: int) -> Option<(i32, u32, u32)> {
    if timestamp < 0 {
        None
    } else {
        Some(narrowed(date_on_julian_day(2_440_588 + timestamp / 86_400)))
    }
}

/// What [`gregorian_to_unix`] returns: the seconds from the start of 1970 to
/// the start of the day, and nothing for a day before 1970. Month and day
/// are read as signed 32-bit numbers.
pub open spec fn gregorian_to_unix_spec(year: int, month: int, day: int) -> Option<i64> {
    let days = julian_day_number(year, wrap_i32(month), wrap_i32(day)) - 2_440_588;
    if days < 0 {
        None
    } else {
        Some((days * 86_400) as i64)
    }
}

/// What [`unix_to_jalali`] returns.
pub open spec fn unix_to_jalali_spec(timestamp: int) -> Option<(i32, u32, u32)> {
    match unix_to_gregorian_spec(timestamp) {
        Some(g) => Some(gregorian_to_jalali_spec(g.0 as int, g.1 as int, g.2 as int)),
        None => None,
    }
}

/// What [`jalali_to_unix`] returns. The day is read as a signed 32-bit number.
pub open spec fn jalali_to_unix_spec(year: int, month: int, day: int) -> Option<i64> {
    let g = jalali_to_gregorian_spec(year, month, wrap_i32(day));
    gregorian_to_unix_spec(g.0 as int, g.1 as int, g.2 as int)
}

/// The Gregorian date of the day that holds a Unix timestamp. Timestamps
/// below 0 have no result.
pub fn unix_to_gregorian(timestamp: i64) -> (gregorian: Option<(i32, u32, u32)>)
    ensures
        gregorian == unix_to_gregorian_spec(timestamp as int),
        gregorian matches Some(g) ==> 1 <= g.1 <= 12 && 1 <= g.2 <= 31,
{
    if timestamp < 0 {
        return None;
    }
    let days = timestamp / SECONDS_PER_DAY;
    let jdn = UNIX_EPOCH_JULIAN_DAY + days;
    proof {
        lemma_date_on_julian_day_exists(jdn as int);
    }
    Some(jdn_to_gregorian(jdn))
}

/// The Unix timestamp of the midnight that opens a Gregorian day. Days
/// before 1970 have no result.
pub fn gregorian_to_unix(year: i32, month: u32, day: u32) -> (timestamp: Option<i64>)
    ensures
        timestamp == gregorian_to_unix_spec(year as int, month as int, day as int),
{
    let jdn = gregorian_to_jdn(year, narrow_i32(month as i64), narrow_i32(day as i64));
    let days = jdn - UNIX_EPOCH_JULIAN_DAY;
    if days < 0 {
        return None;
    }
    Some(days * SECONDS_PER_DAY)
}

/// The Jalali date of the day that holds a Unix timestamp (seconds since
/// the start of 1970, UTC). Timestamps below 0 have no result.
pub fn unix_to_jalali(timestamp: i64) -> (jalali: Option<(i32, u32, u32)>)
    ensures
        jalali == unix_to_jalali_spec(timestamp as int),
        jalali is None <==> timestamp < 0,
{
    match unix_to_gregorian(timestamp) {
        Some((gy, gm, gd)) => Some(gregorian_to_jalali(gy, gm as usize, gd as i32)),
        None => None,
    }
}

/// The Unix timestamp of the midnight (UTC) that opens a Jalali day. Days
/// whose Gregorian date is before 1970 have no result.
pub fn jalali_to_unix(jalali_year: i32, jalali_month: u32, jalali_day: u32) -> (timestamp: Option<
    i64,
>)
    ensures
        timestamp == jalali_to_unix_spec(
            jalali_year as int,
            jalali_month as int,
            jalali_day as int,
        ),
{
    let (gy, gm, gd) = gregorian_on_day(
        jalali_days(jalali_year, jalali_month, narrow_i32(jalali_day as i64)),
    );
    gregorian_to_unix(gy, gm, gd)
}

/// A timestamp from 0 up to the end of Gregorian year 2147483647, taken to
/// its Jalali date and back, gives the midnight that opens its day; a
/// timestamp at midnight comes back unchanged. From 67767976233532800 on the
/// Gregorian year no longer fits in 32 bits.
pub proof fn lemma_unix_round_trip(timestamp: i64)
    requires
        0 <= timestamp < 67_767_976_233_532_800,
    ensures
        unix_to_jalali_spec(timestamp as int) is Some,
        ({
            let j = unix_to_jalali_spec(timestamp as int).unwrap();
            let back = jalali_to_unix_spec(j.0 as int, j.1 as int, j.2 as int);
            &&& back == Some((timestamp - timestamp % 86_400) as i64)
            &&& timestamp % 86_400 == 0 ==> back == Some(timestamp)
        }),
{
    let days = timestamp as int / 86_400;
    let jdn = 2_440_588 + days;
    let n = jdn - 1_721_060;
    let date = date_on_julian_day(jdn);
    lemma_date_on_julian_day(jdn);
    lemma_date_on_julian_day_exists(jdn);
    lemma_gregorian_date_fits(n);
    lemma_narrowed(date);
    lemma_gregorian_round_trip(date.year as i32, date.month as usize, date.day as i32);
}

/// A Jalali triple whose Gregorian equivalent comes before 1 January 1970
/// has no timestamp, whatever the triple.
pub proof fn lemma_before_epoch_is_none(year: i32, month: u32, day: u32)
    ensures
        ({
            let g = jalali_to_gregorian_spec(year as int, month as int, wrap_i32(day as int));
            earlier(
                Date { year: g.0 as int, month: g.1 as int, day: g.2 as int },
                Date { year: 1970, month: 1, day: 1 },
            ) ==> jalali_to_unix_spec(year as int, month as int, day as int) is None
        }),
{
    let n = jalali_day_number(year as int, month as int, wrap_i32(day as int));
    let date = gregorian_date_on(n);
    lemma_gregorian_date_shape(n);
    let g = narrowed(date);
    if earlier(
        Date { year: g.0 as int, month: g.1 as int, day: g.2 as int },
        Date { year: 1970, month: 1, day: 1 },
    ) {
        lemma_julian_day_before_1970(g.0 as int, date.month, date.day);
    }
}

/// A timestamp from 0 up to the end of Gregorian year 2147483647 has the
/// Jalali date of its day: day number 719528 is 1 January 1970, and a day
/// has 86400 seconds.
pub proof fn lemma_unix_to_jalali_is_date(timestamp: i64)
    requires
        0 <= timestamp < 67_767_976_233_532_800,
    ensures
        ({
            let date = jalali_date_on(719_528 + timestamp / 86_400);
            &&& is_jalali_date(date.year, date.month, date.day)
            &&& unix_to_jalali_spec(timestamp as int) == Some(
                (date.year as i32, date.month as u32, date.day as u32),
            )
        }),
{
    let jdn = 2_440_588 + timestamp as int / 86_400;
    let n = jdn - 1_721_060;
    let date = date_on_julian_day(jdn);
    lemma_date_on_julian_day(jdn);
    lemma_gregorian_date_on_day(n);
    lemma_gregorian_date_fits(n);
    lemma_narrowed(date);
    lemma_jalali_date_on_day(n);
    lemma_jalali_date_fits(n);
    lemma_narrowed(jalali_date_on(n));
}

/// A Jalali date that exists, of a year from -621 to 2147483471, has the
/// timestamp of the midnight that opens it, 86400 seconds for each day
/// since 1 January 1970, and none where it comes before that day.
pub proof fn lemma_jalali_to_unix_is_midnight(year: i32, month: u32, day: u32)
    requires
        is_jalali_date(year as int, month as int, day as int),
        -621 <= year <= 2_147_483_471,
    ensures
        ({
            let days = jalali_day_number(year as int, month as int, day as int) - 719_528;
            jalali_to_unix_spec(year as int, month as int, day as int) == (if days < 0 {
                None
            } else {
                Some((days * 86_400) as i64)
            })
        }),
{
    let n = jalali_day_number(year as int, month as int, day as int);
    lemma_jalali_day_span(year as int, month as int, day as int);
    let date = gregorian_date_on(n);
    lemma_gregorian_date_on_day(n);
    lemma_gregorian_date_fits(n);
    lemma_narrowed(date);
    lemma_julian_day_of_date(date.year, date.month, date.day);
}

/// A timestamp from 0 up to the end of Gregorian year 2147483647 has the
/// Gregorian date of its day.
pub proof fn lemma_unix_to_gregorian_is_date(timestamp: i64)
    requires
        0 <= timestamp < 67_767_976_233_532_800,
    ensures
        ({
            let date = gregorian_date_on(719_528 + timestamp / 86_400);
            &&& is_gregorian_date(date.year, date.month, date.day)
            &&& unix_to_gregorian_spec(timestamp as int) == Some(
                (date.year as i32, date.month as u32, date.day as u32),
            )
        }),
{
    let jdn = 2_440_588 + timestamp as int / 86_400;
    lemma_date_on_julian_day(jdn);
    lemma_gregorian_date_on_day(jdn - 1_721_060);
    lemma_gregorian_date_fits(jdn - 1_721_060);
    lemma_narrowed(date_on_julian_day(jdn));
}

/// A Gregorian triple of a year from 0 on, with a month from 1 to 12, has
/// the timestamp of the midnight that opens its day, 86400 seconds for each
/// day since 1 January 1970, and none where it comes before that day.
pub proof fn lemma_gregorian_to_unix_is_midnight(year: i32, month: u32, day: u32)
    requires
        year >= 0,
        1 <= month <= 12,
        day <= i32::MAX,
    ensures
        ({
            let days = gregorian_day_number(year as int, month as int, day as int) - 719_528;
            gregorian_to_unix_spec(year as int, month as int, day as int) == (if days < 0 {
                None
            } else {
                Some((days * 86_400) as i64)
            })
        }),
{
    lemma_julian_day_of_date(year as int, month as int, day as int);
}

} // verus!
