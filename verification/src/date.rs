//! The mathematical model of a calendar date.

use vstd::prelude::*;
use crate::arith::{wrap_i32, wrap_u32};

verus! {

/// A year, month and day as unbounded integers. Which calendar the three
/// numbers belong to is told by the function that gives or takes them.
pub struct Date {
    pub year: int,
    pub month: int,
    pub day: int,
}

/// The triple that a converter hands back for `date`: each field keeps its
/// low 32 bits, the year as a signed number.
pub open spec fn narrowed(date: Date) -> (i32, u32, u32) {
    (wrap_i32(date.year) as i32, wrap_u32(date.month) as u32, wrap_u32(date.day) as u32)
}

/// `date` is unchanged by [`narrowed`]: its year fits `i32`, its month and day fit `u32`.
pub open spec fn fits(date: Date) -> bool {
    &&& i32::MIN <= date.year <= i32::MAX
    &&& 0 <= date.month <= u32::MAX
    &&& 0 <= date.day <= u32::MAX
}

/// `a` comes before `b`, comparing year, then month, then day.
pub open spec fn earlier(a: Date, b: Date) -> bool {
    a.year < b.year || (a.year == b.year && (a.month < b.month || (a.month == b.month && a.day
        < b.day)))
}

/// Narrowing keeps a date whose fields fit.
pub proof fn lemma_narrowed(date: Date)
    requires
        fits(date),
    ensures
        narrowed(date).0 == date.year,
        narrowed(date).1 == date.month,
        narrowed(date).2 == date.day,
{
}

} // verus!
