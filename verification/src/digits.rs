//! Digits in three scripts: Latin `0`-`9`, Persian U+06F0-U+06F9 and
//! Arabic-Indic U+0660-U+0669.

use vstd::prelude::*;

verus! {

/// One of `0` to `9`.
pub open spec fn is_latin_digit(c: char) -> bool {
    '0' <= c && c <= '9'
}

/// One of the ten digits from U+06F0 on.
pub open spec fn is_persian_digit(c: char) -> bool {
    '\u{06F0}' <= c && c <= '\u{06F9}'
}

/// One of the ten digits from U+0660 on.
pub open spec fn is_arabic_digit(c: char) -> bool {
    '\u{0660}' <= c && c <= '\u{0669}'
}

/// The Persian digit for a Latin digit; any other character is kept.
pub open spec fn persian_char(c: char) -> char {
    if is_latin_digit(c) {
        (c as u32 - '0' as u32 + 0x06F0) as char
    } else {
        c
    }
}

/// The Latin digit for a Persian or Arabic digit; any other character is kept.
pub open spec fn latin_char(c: char) -> char {
    if is_arabic_digit(c) {
        (c as u32 - 0x0660 + '0' as u32) as char
    } else if is_persian_digit(c) {
        (c as u32 - 0x06F0 + '0' as u32) as char
    } else {
        c
    }
}

/// `text` with each Latin digit replaced by its Persian digit.
pub open spec fn persian_digits(text: Seq<char>) -> Seq<char> {
    Seq::new(text.len(), |i: int| persian_char(text[i]))
}

/// `text` with each Persian or Arabic digit replaced by its Latin digit.
pub open spec fn latin_digits(text: Seq<char>) -> Seq<char> {
    Seq::new(text.len(), |i: int| latin_char(text[i]))
}

/// The Persian digit for a Latin digit, found by its code point.
pub(crate) fn to_persian_char(c: char) -> (r: char)
    ensures
        r == persian_char(c),
{
    if '0' <= c && c <= '9' {
        char::from_u32(0x06F0 + (c as u32 - '0' as u32)).unwrap()
    } else {
        c
    }
}

/// The Latin digit for a Persian or Arabic digit, found by its code point.
pub(crate) fn to_latin_char(c: char) -> (r: char)
    ensures
        r == latin_char(c),
{
    let code = c as u32;
    if 0x0660 <= code && code <= 0x0669 {
        char::from_u32('0' as u32 + (code - 0x0660)).unwrap()
    } else if 0x06F0 <= code && code <= 0x06F9 {
        char::from_u32('0' as u32 + (code - 0x06F0)).unwrap()
    } else {
        c
    }
}

/// Replaces each Latin digit of `s` by the Persian digit of the same value.
/// Every other character is kept.
pub fn latin_digits_to_persian(s: &str) -> (out: String)
    ensures
        out@ == persian_digits(s@),
{
    let mut out = String::new();
    for c in it: s.chars()
        invariant
            it.seq() == s@,
            out@ == persian_digits(s@.take(it.index())),
    {
        out.push(to_persian_char(c));
    }
    out
}

/// Replaces each Persian or Arabic digit of `s` by the Latin digit of the
/// same value. Every other character is kept.
pub fn persian_or_arabic_digits_to_latin(s: &str) -> (out: String)
    ensures
        out@ == latin_digits(s@),
{
    let mut out = String::new();
    for c in it: s.chars()
        invariant
            it.seq() == s@,
            out@ == latin_digits(s@.take(it.index())),
    {
        out.push(to_latin_char(c));
    }
    out
}

/// Each Latin digit has one Persian digit and each Persian digit one Latin
/// digit: the two replacements undo each other on them. An Arabic digit
/// goes to the Latin digit of its value, as a Persian digit does.
pub proof fn lemma_digit_pairs(c: char)
    ensures
        is_latin_digit(c) ==> is_persian_digit(persian_char(c)) && latin_char(persian_char(c)) == c,
        is_persian_digit(c) ==> is_latin_digit(latin_char(c)) && persian_char(latin_char(c)) == c,
        is_arabic_digit(c) ==> is_latin_digit(latin_char(c)),
        is_persian_digit(c) ==> latin_char(c) as int - '0' as int == c as int - 0x06F0,
        is_arabic_digit(c) ==> latin_char(c) as int - '0' as int == c as int - 0x0660,
{
}

/// Different digits of one script go to different digits of the other, and
/// every digit of the other script is reached.
pub proof fn lemma_digits_one_to_one(a: char, b: char)
    ensures
        is_latin_digit(a) && is_latin_digit(b) && persian_char(a) == persian_char(b) ==> a == b,
        is_persian_digit(a) && is_persian_digit(b) && latin_char(a) == latin_char(b) ==> a == b,
        is_arabic_digit(a) && is_arabic_digit(b) && latin_char(a) == latin_char(b) ==> a == b,
        is_persian_digit(a) ==> exists|c: char| is_latin_digit(c) && #[trigger] persian_char(c) == a,
        is_latin_digit(a) ==> exists|c: char| is_persian_digit(c) && #[trigger] latin_char(c) == a,
        is_latin_digit(a) ==> exists|c: char| is_arabic_digit(c) && #[trigger] latin_char(c) == a,
{
    lemma_digit_pairs(a);
    lemma_digit_pairs(b);
    if is_latin_digit(a) {
        let arabic = (a as u32 - '0' as u32 + 0x0660) as char;
        assert(latin_char(arabic) == a);
    }
}

/// Characters that are no digits of the script that a replacement reads are
/// kept by it.
pub proof fn lemma_other_characters_kept(text: Seq<char>, i: int)
    requires
        0 <= i < text.len(),
    ensures
        !is_latin_digit(text[i]) ==> persian_digits(text)[i] == text[i],
        !is_persian_digit(text[i]) && !is_arabic_digit(text[i]) ==> latin_digits(text)[i]
            == text[i],
{
}

/// After the replacement by Latin digits no Persian or Arabic digit is left,
/// so a second replacement changes nothing.
pub proof fn lemma_latin_digits_settled(text: Seq<char>)
    ensures
        forall|i: int|
            0 <= i < text.len() ==> !is_persian_digit(#[trigger] latin_digits(text)[i])
                && !is_arabic_digit(latin_digits(text)[i]),
        latin_digits(latin_digits(text)) == latin_digits(text),
{
    assert forall|i: int| 0 <= i < text.len() implies !is_persian_digit(
        #[trigger] latin_digits(text)[i],
    ) && !is_arabic_digit(latin_digits(text)[i]) by {
        lemma_digit_pairs(text[i]);
    }
}

/// Replacing by Persian digits and then by Latin digits gives what the
/// replacement by Latin digits alone gives: every digit of `text`, of any of
/// the three scripts, ends as the Latin digit of its value. A text without
/// Persian and Arabic digits comes back unchanged.
pub proof fn lemma_latin_of_persian(text: Seq<char>)
    ensures
        latin_digits(persian_digits(text)) == latin_digits(text),
        (forall|i: int|
            0 <= i < text.len() ==> !is_persian_digit(#[trigger] text[i]) && !is_arabic_digit(
                text[i],
            )) ==> latin_digits(persian_digits(text)) == text,
{
    assert forall|i: int| 0 <= i < text.len() implies latin_char(persian_char(text[i]))
        == latin_char(#[trigger] text[i]) by {
        lemma_digit_pairs(text[i]);
    }
}

} // verus!
