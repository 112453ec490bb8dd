//! Integers written in base ten.

use vstd::prelude::*;
use crate::digits::is_latin_digit;

verus! {

/// One Latin digit or more, and nothing else.
pub open spec fn is_number(text: Seq<char>) -> bool {
    text.len() > 0 && forall|i: int| 0 <= i < text.len() ==> is_latin_digit(#[trigger] text[i])
}

/// The value of a run of Latin digits, read in base ten.
pub open spec fn number_value(text: Seq<char>) -> int
    decreases text.len(),
{
    if text.len() == 0 {
        0
    } else {
        10 * number_value(text.drop_last()) + (text.last() as int - '0' as int)
    }
}

/// The integer that `text` writes: digits, with `+` allowed before them
/// and, where `signed`, `-` as well. Anything else writes no integer.
pub open spec fn parse_integer(text: Seq<char>, signed: bool) -> Option<int> {
    let negative = signed && text.len() > 0 && text[0] == '-';
    let digits = if text.len() > 0 && (text[0] == '+' || negative) {
        text.subrange(1, text.len() as int)
    } else {
        text
    };
    if !is_number(digits) {
        None
    } else if negative {
        Some(-number_value(digits))
    } else {
        Some(number_value(digits))
    }
}

/// The Latin digit of a value from 0 to 9.
pub open spec fn digit_char(value: int) -> char {
    (value + '0' as int) as char
}

/// The digits of `n` in base ten, without leading zeros, for `n >= 0`.
pub open spec fn decimal(n: int) -> Seq<char>
    decreases n,
{
    if n < 10 {
        seq![digit_char(n)]
    } else {
        decimal(n / 10).push(digit_char(n % 10))
    }
}

/// `count` zeros.
pub open spec fn zeros(count: int) -> Seq<char> {
    Seq::new(
        (if count > 0 {
            count
        } else {
            0
        }) as nat,
        |i: int| '0',
    )
}

/// `value` in base ten, filled up with zeros to `width` characters. A
/// negative value opens with `-`, which counts for the width, and the zeros
/// follow it.
pub open spec fn padded(value: int, width: int) -> Seq<char> {
    if value < 0 {
        let digits = decimal(-value);
        seq!['-'] + zeros(width - 1 - digits.len()) + digits
    } else {
        let digits = decimal(value);
        zeros(width - digits.len()) + digits
    }
}

/// Reads the field of `text` from `from` up to `to` as an integer from `low`
/// to `high`.
pub(crate) fn parse_field(
    text: &Vec<char>,
    from: usize,
    to: usize,
    signed: bool,
    low: i64,
    high: i64,
) -> (value: Option<i64>)
    requires
        from <= to <= text.len(),
        -0x8000_0000 <= low <= high <= 0x8000_0000,
    ensures
        ({
            let written = parse_integer(text@.subrange(from as int, to as int), signed);
            if written is Some && low <= written.unwrap() <= high {
                value == Some(written.unwrap() as i64)
            } else {
                value is None
            }
        }),
{
    let ghost field = text@.subrange(from as int, to as int);
    if from >= to {
        return None;
    }
    let first = text[from];
    let negative = signed && first == '-';
    let start = if first == '+' || negative {
        from + 1
    } else {
        from
    };
    let ghost digits = text@.subrange(start as int, to as int);
    assert(digits == (if first == '+' || negative {
        field.subrange(1, field.len() as int)
    } else {
        field
    }));
    if start >= to {
        return None;
    }
    let mut magnitude: i64 = 0;
    let mut at = start;
    while at < to
        invariant
            start <= at <= to <= text.len(),
            start < to,
            digits == text@.subrange(start as int, to as int),
            parse_integer(text@.subrange(from as int, to as int), signed) == (if !is_number(
                digits,
            ) {
                None
            } else if negative {
                Some(-number_value(digits))
            } else {
                Some(number_value(digits))
            }),
            forall|i: int| 0 <= i < at - start ==> is_latin_digit(#[trigger] digits[i]),
            0 <= magnitude <= 0x8000_0001,
            magnitude <= 0x8000_0000 ==> magnitude == number_value(
                text@.subrange(start as int, at as int),
            ),
            magnitude > 0x8000_0000 ==> number_value(text@.subrange(start as int, at as int))
                > 0x8000_0000,
        decreases to - at,
    {
        let c = text[at];
        if !('0' <= c && c <= '9') {
            assert(!is_latin_digit(digits[at - start]));
            return None;
        }
        assert(text@.subrange(start as int, at + 1).drop_last() == text@.subrange(
            start as int,
            at as int,
        ));
        if magnitude <= 0x8000_0000 {
            magnitude = magnitude * 10 + (c as u32 - '0' as u32) as i64;
            if magnitude > 0x8000_0000 {
                magnitude = 0x8000_0001;
            }
        }
        at += 1;
    }
    if magnitude > 0x8000_0000 {
        return None;
    }
    let value = if negative {
        -magnitude
    } else {
        magnitude
    };
    if low <= value && value <= high {
        Some(value)
    } else {
        None
    }
}

/// Appends the digits of `n` in base ten.
pub(crate) fn push_decimal(out: &mut Vec<char>, n: u64)
    ensures
        final(out)@ == old(out)@ + decimal(n as int),
    decreases n,
{
    if n >= 10 {
        push_decimal(out, n / 10);
    }
    let digit = char::from_u32('0' as u32 + (n % 10) as u32).unwrap();
    out.push(digit);
}

/// Appends `value` in base ten, filled up with zeros to `width` characters.
pub(crate) fn push_padded(out: &mut String, value: i64, width: usize)
    requires
        1 <= width,
        value > i64::MIN,
    ensures
        final(out)@ == old(out)@ + padded(value as int, width as int),
{
    let mut digits: Vec<char> = Vec::new();
    let room = if value < 0 {
        out.push('-');
        push_decimal(&mut digits, (-value) as u64);
        width - 1
    } else {
        push_decimal(&mut digits, value as u64);
        width
    };
    let fill = if digits.len() < room {
        room - digits.len()
    } else {
        0
    };
    let ghost signed = out@;
    let mut filled: usize = 0;
    while filled < fill
        invariant
            filled <= fill,
            out@ == signed + zeros(filled as int),
        decreases fill - filled,
    {
        out.push('0');
        filled += 1;
    }
    let ghost padding = out@;
    let mut at: usize = 0;
    while at < digits.len()
        invariant
            at <= digits.len(),
            out@ == padding + digits@.take(at as int),
        decreases digits.len() - at,
    {
        out.push(digits[at]);
        at += 1;
    }
}

/// A field that writes an integer is a run of Latin digits, with at most a
/// sign before it; so a field with any other character, and an empty one,
/// writes none.
pub proof fn lemma_integer_is_digits(field: Seq<char>, signed: bool)
    requires
        parse_integer(field, signed) is Some,
    ensures
        field.len() >= 1,
        forall|i: int| 1 <= i < field.len() ==> is_latin_digit(#[trigger] field[i]),
        is_latin_digit(field[0]) || (field.len() >= 2 && (field[0] == '+' || (signed && field[0]
            == '-'))),
{
    let negative = signed && field[0] == '-';
    if field[0] == '+' || negative {
        let digits = field.subrange(1, field.len() as int);
        assert forall|i: int| 1 <= i < field.len() implies is_latin_digit(#[trigger] field[i]) by {
            assert(is_latin_digit(digits[i - 1]));
        }
    }
}

/// The digits written for a number from 0 on are a run of Latin digits
/// with that number as its value.
pub proof fn lemma_decimal_value(n: int)
    requires
        n >= 0,
    ensures
        is_number(decimal(n)),
        number_value(decimal(n)) == n,
        n >= 10 ==> decimal(n)[0] != '0',
    decreases n,
{
    if n >= 10 {
        lemma_decimal_value(n / 10);
        assert(decimal(n).drop_last() == decimal(n / 10));
    } else {
        assert(decimal(n).drop_last() == Seq::<char>::empty());
        assert(number_value(Seq::<char>::empty()) == 0);
    }
}

/// Zeros before a run of digits do not change its value.
pub proof fn lemma_leading_zeros(count: int, digits: Seq<char>)
    requires
        is_number(digits),
    ensures
        is_number(zeros(count) + digits),
        number_value(zeros(count) + digits) == number_value(digits),
    decreases digits.len(),
{
    let all = zeros(count) + digits;
    assert forall|i: int| 0 <= i < all.len() implies is_latin_digit(#[trigger] all[i]) by {
        if i >= zeros(count).len() {
            assert(is_latin_digit(digits[i - zeros(count).len()]));
        }
    }
    assert(all.drop_last() == zeros(count) + digits.drop_last());
    if digits.len() > 1 {
        assert forall|i: int| 0 <= i < digits.len() - 1 implies is_latin_digit(
            #[trigger] digits.drop_last()[i],
        ) by {
            assert(is_latin_digit(digits[i]));
        }
        lemma_leading_zeros(count, digits.drop_last());
    } else {
        assert(digits.drop_last() == Seq::<char>::empty());
        assert(zeros(count) + Seq::<char>::empty() == zeros(count));
        lemma_zeros_value(count);
        assert(number_value(Seq::<char>::empty()) == 0);
    }
}

/// A run of zeros has the value 0.
pub proof fn lemma_zeros_value(count: int)
    ensures
        number_value(zeros(count)) == 0,
    decreases count,
{
    if count > 0 {
        assert(zeros(count).drop_last() == zeros(count - 1));
        lemma_zeros_value(count - 1);
    }
}

/// What is written for an integer is read back as that integer. What is
/// written for an integer from 0 on holds Latin digits only, so it is read
/// back where no `-` is taken as well.
pub proof fn lemma_padded_reads_back(value: int, width: int)
    ensures
        parse_integer(padded(value, width), true) == Some(value),
        value >= 0 ==> parse_integer(padded(value, width), false) == Some(value),
        value >= 0 ==> is_number(padded(value, width)),
{
    if value < 0 {
        let digits = decimal(-value);
        lemma_decimal_value(-value);
        lemma_leading_zeros(width - 1 - digits.len(), digits);
        let text = padded(value, width);
        assert(text.subrange(1, text.len() as int) == zeros(width - 1 - digits.len()) + digits);
    } else {
        let digits = decimal(value);
        lemma_decimal_value(value);
        lemma_leading_zeros(width - digits.len(), digits);
    }
}

} // verus!
