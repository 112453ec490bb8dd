//! Dates as text: a year, a month and a day in decimal, with a separator
//! between them.

use vstd::prelude::*;
use crate::convert::{
    gregorian_to_jalali, gregorian_to_jalali_spec, jalali_to_gregorian, jalali_to_gregorian_spec,
};
use crate::decimal::{lemma_padded_reads_back, padded, parse_field, parse_integer, push_padded};
use crate::digits::{latin_digits, lemma_latin_digits_settled, persian_or_arabic_digits_to_latin};
use crate::split::{field_bounds, join, lemma_join_then_split, split};

verus! {

/// The year, month and day that `text` writes. Digits of the Persian and
/// Arabic scripts count as Latin digits. There must be three fields, each an
/// integer: a year that fits `i32`, a month from 1 to 12 and a day from 1
/// to 31. The month takes no `-`.
pub open spec fn parse_date(text: Seq<char>, separator: char) -> Option<(int, int, int)> {
    let fields = split(latin_digits(text), separator);
    if fields.len() != 3 {
        None
    } else {
        match (
            parse_integer(fields[0], true),
            parse_integer(fields[1], false),
            parse_integer(fields[2], true),
        ) {
            (Some(year), Some(month), Some(day)) => if i32::MIN <= year <= i32::MAX && 1 <= month
                <= 12 && 1 <= day <= 31 {
                Some((year, month, day))
            } else {
                None
            },
            _ => None,
        }
    }
}

/// A date as text: the year in four characters or more, month and day in
/// two or more, with `-` between them.
pub open spec fn date_text(date: (i32, u32, u32)) -> Seq<char> {
    padded(date.0 as int, 4) + seq!['-'] + padded(date.1 as int, 2) + seq!['-'] + padded(
        date.2 as int,
        2,
    )
}

/// The Jalali text for a Gregorian text, where that text writes a date.
pub open spec fn gregorian_text_to_jalali(text: Seq<char>, separator: char) -> Option<Seq<char>> {
    match parse_date(text, separator) {
        Some(date) => Some(date_text(gregorian_to_jalali_spec(date.0, date.1, date.2))),
        None => None,
    }
}

/// The Gregorian text for a Jalali text, where that text writes a date.
pub open spec fn jalali_text_to_gregorian(text: Seq<char>, separator: char) -> Option<Seq<char>> {
    match parse_date(text, separator) {
        Some(date) => Some(date_text(jalali_to_gregorian_spec(date.0, date.1, date.2))),
        None => None,
    }
}

/// The characters of a text, one by one.
pub(crate) fn chars_of(text: &str) -> (chars: Vec<char>)
    ensures
        chars@ == text@,
{
    let mut chars: Vec<char> = Vec::new();
    for c in it: text.chars()
        invariant
            it.seq() == text@,
            chars@ == text@.take(it.index()),
    {
        chars.push(c);
    }
    chars
}

/// Reads a text of three fields as year, month and day.
pub(crate) fn read_date(date_str: &str, separator: char) -> (date: Option<(i32, usize, i32)>)
    ensures
        match date {
            Some(d) => parse_date(date_str@, separator) == Some(
                (d.0 as int, d.1 as int, d.2 as int),
            ),
            None => parse_date(date_str@, separator) is None,
        },
{
    let normalized = persian_or_arabic_digits_to_latin(date_str);
    let text = chars_of(normalized.as_str());
    let (first, second) = match field_bounds(&text, separator) {
        Some(bounds) => bounds,
        None => {
            return None;
        },
    };
    let year = parse_field(&text, 0, first, true, -0x8000_0000, 0x7fff_ffff);
    let month = parse_field(&text, first + 1, second, false, 1, 12);
    let day = parse_field(&text, second + 1, text.len(), true, 1, 31);
    match (year, month, day) {
        (Some(y), Some(m), Some(d)) => Some((y as i32, m as usize, d as i32)),
        _ => None,
    }
}

/// A date as text: year, month and day with `-` between them.
pub(crate) fn format_date(date: (i32, u32, u32)) -> (text: String)
    ensures
        text@ == date_text(date),
{
    let mut text = String::new();
    push_padded(&mut text, date.0 as i64, 4);
    text.push('-');
    push_padded(&mut text, date.1 as i64, 2);
    text.push('-');
    push_padded(&mut text, date.2 as i64, 2);
    text
}

/// Reads a Gregorian date from text and writes it as a Jalali date.
///
/// The text holds year, month and day with `separator` between them, in
/// digits of the Latin, Persian or Arabic script. The result is written in
/// Latin digits with `-` between the fields. A text that is no date in this
/// sense has no result.
pub fn parse_gregorian_string_to_jalali_string(date_str: &str, separator: char) -> (jalali: Option<
    String,
>)
    ensures
        jalali is Some <==> gregorian_text_to_jalali(date_str@, separator) is Some,
        jalali matches Some(text) ==> gregorian_text_to_jalali(date_str@, separator) == Some(
            text@,
        ),
{
    match read_date(date_str, separator) {
        Some((year, month, day)) => Some(format_date(gregorian_to_jalali(year, month, day))),
        None => None,
    }
}

/// Reads a Jalali date from text and writes it as a Gregorian date.
///
/// The text holds year, month and day with `separator` between them, in
/// digits of the Latin, Persian or Arabic script. The result is written in
/// Latin digits with `-` between the fields. A text that is no date in this
/// sense has no result.
pub fn parse_jalali_string_to_gregorian_string(date_str: &str, separator: char) -> (gregorian:
    Option<String>)
    ensures
        gregorian is Some <==> jalali_text_to_gregorian(date_str@, separator) is Some,
        gregorian matches Some(text) ==> jalali_text_to_gregorian(date_str@, separator) == Some(
            text@,
        ),
{
    match read_date(date_str, separator) {
        Some((year, month, day)) => Some(format_date(jalali_to_gregorian(year, month, day))),
        None => None,
    }
}

/// A text is read as a date exactly where it has three fields, each field
/// writes an integer (the month without `-`), the year fits `i32`, the month
/// lies from 1 to 12 and the day from 1 to 31. Every other text is rejected,
/// by both conversions.
pub proof fn lemma_malformed_text_rejected(text: Seq<char>, separator: char)
    ensures
        ({
            let fields = split(latin_digits(text), separator);
            let year = parse_integer(fields[0], true);
            let month = parse_integer(fields[1], false);
            let day = parse_integer(fields[2], true);
            parse_date(text, separator) is None <==> {
                ||| fields.len() != 3
                ||| year is None
                ||| month is None
                ||| day is None
                ||| year.unwrap() < i32::MIN
                ||| year.unwrap() > i32::MAX
                ||| month.unwrap() < 1
                ||| month.unwrap() > 12
                ||| day.unwrap() < 1
                ||| day.unwrap() > 31
            }
        }),
        parse_date(text, separator) is None <==> gregorian_text_to_jalali(text, separator) is None,
        parse_date(text, separator) is None <==> jalali_text_to_gregorian(text, separator) is None,
{
}

/// A text in Persian or Arabic digits is read as the same text in Latin
/// digits is read, and is converted to the same text.
pub proof fn lemma_scripts_read_alike(text: Seq<char>, separator: char)
    ensures
        parse_date(text, separator) == parse_date(latin_digits(text), separator),
        gregorian_text_to_jalali(text, separator) == gregorian_text_to_jalali(
            latin_digits(text),
            separator,
        ),
        jalali_text_to_gregorian(text, separator) == jalali_text_to_gregorian(
            latin_digits(text),
            separator,
        ),
{
    lemma_latin_digits_settled(text);
}

/// The text written for a year from 0 on, a month from 1 to 12 and a day
/// from 1 to 31 is read back, with `-` as the separator, as that year, month
/// and day.
pub proof fn lemma_date_text_reads_back(year: i32, month: u32, day: u32)
    requires
        year >= 0,
        1 <= month <= 12,
        1 <= day <= 31,
    ensures
        parse_date(date_text((year, month, day)), '-') == Some(
            (year as int, month as int, day as int),
        ),
{
    let fields = seq![padded(year as int, 4), padded(month as int, 2), padded(day as int, 2)];
    let text = date_text((year, month, day));
    lemma_padded_reads_back(year as int, 4);
    lemma_padded_reads_back(month as int, 2);
    lemma_padded_reads_back(day as int, 2);
    let tail = fields.subrange(1, 3);
    assert(join(tail.subrange(1, 2), '-') == fields[2]);
    assert(join(tail, '-') == fields[1] + seq!['-'] + fields[2]);
    assert(join(fields, '-') == text);
    lemma_join_then_split(fields, '-');
    assert(latin_digits(text) == text);
}

} // verus!
