//! Integer helpers shared by the calendar arithmetic: division that rounds
//! toward zero, and two's-complement narrowing to 32 bits.

use vstd::prelude::*;

verus! {

/// Quotient of `a` by a positive `b`, rounded toward zero.
pub open spec fn div_trunc(a: int, b: int) -> int {
    if a >= 0 {
        a / b
    } else {
        -((-a) / b)
    }
}

/// Remainder that goes with [`div_trunc`]; it has the sign of `a`.
pub open spec fn rem_trunc(a: int, b: int) -> int {
    a - b * div_trunc(a, b)
}

/// The value of the low 32 bits of `x`, read as a signed number.
pub open spec fn wrap_i32(x: int) -> int {
    (x + 0x8000_0000) % 0x1_0000_0000 - 0x8000_0000
}

/// The value of the low 32 bits of `x`, read as an unsigned number.
pub open spec fn wrap_u32(x: int) -> int {
    x % 0x1_0000_0000
}

/// Keeps the low 32 bits of `x` as a signed number.
pub(crate) fn narrow_i32(x: i64) -> (r: i32)
    ensures
        r == wrap_i32(x as int),
        i32::MIN <= x <= i32::MAX ==> r == x,
{
    let r = #[verifier::truncate]
    (x as i32);
    // The cast keeps the low 32 bits; the two cases say so in arithmetic.
    assert(x >= 0 ==> (x as i32) == ((x + 0x8000_0000) as u64 % 0x1_0000_0000) as i64
        - 0x8000_0000) by (bit_vector);
    assert(x < 0 ==> (x as i32) == 0x7fff_ffffi64 - ((0x7fff_ffffi64 - x) as u64
        % 0x1_0000_0000) as i64) by (bit_vector);
    r
}

/// Keeps the low 32 bits of `x` as an unsigned number.
pub(crate) fn narrow_u32(x: i64) -> (r: u32)
    ensures
        r == wrap_u32(x as int),
        0 <= x <= u32::MAX ==> r == x,
{
    let r = #[verifier::truncate]
    (x as u32);
    // The cast keeps the low 32 bits; the two cases say so in arithmetic.
    assert(x >= 0 ==> (x as u32) == x % 0x1_0000_0000) by (bit_vector);
    assert(x < 0 ==> (x as u32) == 0xffff_ffffu32 - (((-1 - x) as u64 % 0x1_0000_0000) as u32))
        by (bit_vector);
    r
}

} // verus!
