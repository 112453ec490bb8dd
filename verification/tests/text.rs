use jalali_rs::{
    gregorian_to_jalali, jalali_to_gregorian, parse_gregorian_string_to_jalali_string,
    parse_jalali_string_to_gregorian_string,
};

#[test]
fn test_parse_gregorian_string_to_jalali_string() {
    let result = parse_gregorian_string_to_jalali_string("2025-12-27", '-');
    assert_eq!(result, Some("1404-10-06".to_string()));

    let result_persian = parse_gregorian_string_to_jalali_string("۲۰۲۵-۱۲-۲۷", '-');
    assert_eq!(result_persian, Some("1404-10-06".to_string()));

    let invalid = parse_gregorian_string_to_jalali_string("invalid", '-');
    assert_eq!(invalid, None);
}

#[test]
fn test_parse_jalali_string_to_gregorian_string() {
    let result = parse_jalali_string_to_gregorian_string("1404-10-06", '-');
    assert_eq!(result, Some("2025-12-27".to_string()));

    let result_persian = parse_jalali_string_to_gregorian_string("۱۴۰۴-۱۰-۰۶", '-');
    assert_eq!(result_persian, Some("2025-12-27".to_string()));

    let invalid = parse_jalali_string_to_gregorian_string("invalid", '-');
    assert_eq!(invalid, None);
}

#[test]
fn wrong_field_count_is_rejected() {
    for text in ["", "2025", "2025-12", "2025-12-27-", "-2025-12-27", "2025-12-27-01", "2025--12-27"] {
        assert_eq!(parse_gregorian_string_to_jalali_string(text, '-'), None, "{}", text);
        assert_eq!(parse_jalali_string_to_gregorian_string(text, '-'), None, "{}", text);
    }
    assert_eq!(parse_gregorian_string_to_jalali_string("2025-12-27", '/'), None);
}

#[test]
fn field_that_is_no_number_is_rejected() {
    for text in [
        "x/12/27", "2025/x/27", "2025/12/x", "/12/27", "2025//27", "2025/12/", " 2025/12/27",
        "2025/12/27 ", "2025/1 2/27", "20a5/12/27", "+/12/27", "-/12/27", "2025/+/27",
        "2025/12/+", "2025/12/-", "2025/12.0/27", "2025/0x0c/27", "++2025/12/27",
        "2025/12/2\u{0967}",
    ] {
        assert_eq!(parse_gregorian_string_to_jalali_string(text, '/'), None, "{}", text);
        assert_eq!(parse_jalali_string_to_gregorian_string(text, '/'), None, "{}", text);
    }
}

#[test]
fn month_outside_1_to_12_is_rejected() {
    for text in ["2025/0/27", "2025/13/27", "2025/-1/27", "2025/-12/27", "2025/-0/1", "2025/99999999999999999999999/27"] {
        assert_eq!(parse_gregorian_string_to_jalali_string(text, '/'), None, "{}", text);
        assert_eq!(parse_jalali_string_to_gregorian_string(text, '/'), None, "{}", text);
    }
    assert_eq!(parse_gregorian_string_to_jalali_string("2025/1/27", '/'), Some("1403-11-08".to_string()));
    assert_eq!(parse_gregorian_string_to_jalali_string("2025/12/27", '/'), Some("1404-10-06".to_string()));
}

#[test]
fn day_outside_1_to_31_is_rejected() {
    for text in ["2025/12/0", "2025/12/32", "2025/12/-1", "2025/12/-0", "2025/12/4294967297", "2025/12/99999999999999999999"] {
        assert_eq!(parse_gregorian_string_to_jalali_string(text, '/'), None, "{}", text);
        assert_eq!(parse_jalali_string_to_gregorian_string(text, '/'), None, "{}", text);
    }
    assert_eq!(parse_gregorian_string_to_jalali_string("2025/12/1", '/'), Some("1404-09-10".to_string()));
    assert_eq!(parse_gregorian_string_to_jalali_string("2025/12/31", '/'), Some("1404-10-10".to_string()));
    assert_eq!(parse_gregorian_string_to_jalali_string("2025/2/31", '/'), Some("1403-12-13".to_string()));
}

#[test]
fn year_that_does_not_fit_is_rejected() {
    for text in ["2147483648/1/1", "-2147483649/1/1", "99999999999999999999/1/1"] {
        assert_eq!(parse_gregorian_string_to_jalali_string(text, '/'), None, "{}", text);
        assert_eq!(parse_jalali_string_to_gregorian_string(text, '/'), None, "{}", text);
    }
    assert_eq!(
        parse_gregorian_string_to_jalali_string("2147483647/12/31", '/'),
        Some("2147483472-03-14".to_string())
    );
    assert_eq!(
        parse_jalali_string_to_gregorian_string("-2147483648/1/1", '/'),
        Some("-2147482580-00-4294966803".to_string())
    );
}

#[test]
fn signs_and_leading_zeros_are_read() {
    assert_eq!(parse_gregorian_string_to_jalali_string("+2025-+12-+27", '-'), Some("1404-10-06".to_string()));
    assert_eq!(parse_gregorian_string_to_jalali_string("002025-0012-00000027", '-'), Some("1404-10-06".to_string()));
    assert_eq!(parse_jalali_string_to_gregorian_string("+1404/+10/+06", '/'), Some("2025-12-27".to_string()));
    assert_eq!(parse_gregorian_string_to_jalali_string("-0/1/1", '/'), Some("-622-10-11".to_string()));
}

#[test]
fn any_separator_goes_in_and_the_hyphen_comes_out() {
    assert_eq!(parse_gregorian_string_to_jalali_string("2025/12/27", '/'), Some("1404-10-06".to_string()));
    assert_eq!(parse_gregorian_string_to_jalali_string("2025 12 27", ' '), Some("1404-10-06".to_string()));
    assert_eq!(parse_gregorian_string_to_jalali_string("2025\u{060C}12\u{060C}27", '\u{060C}'), Some("1404-10-06".to_string()));
    assert_eq!(parse_jalali_string_to_gregorian_string("1404.10.06", '.'), Some("2025-12-27".to_string()));
    assert_eq!(parse_gregorian_string_to_jalali_string("2025x12x27", 'x'), Some("1404-10-06".to_string()));
}

#[test]
fn hyphen_as_separator_leaves_no_minus_sign() {
    assert_eq!(parse_gregorian_string_to_jalali_string("-5-1-1", '-'), None);
    assert_eq!(parse_gregorian_string_to_jalali_string("-5/1/1", '/'), Some("-627-10-12".to_string()));
}

#[test]
fn digit_as_separator_is_matched_after_the_digits_are_made_latin() {
    assert_eq!(parse_gregorian_string_to_jalali_string("2025\u{06F1}2\u{06F1}7", '\u{06F1}'), None);
    assert_eq!(parse_gregorian_string_to_jalali_string("2\u{06F0}25-12-27", '0'), None);
    assert_eq!(parse_gregorian_string_to_jalali_string("2025912927", '9'), Some("1404-10-06".to_string()));
}

#[test]
fn persian_and_arabic_digits_are_read_as_latin_digits() {
    let latin = parse_gregorian_string_to_jalali_string("2024-03-20", '-');
    assert_eq!(latin, Some("1403-01-01".to_string()));
    assert_eq!(parse_gregorian_string_to_jalali_string("\u{06F2}\u{06F0}\u{06F2}\u{06F4}-\u{06F0}\u{06F3}-\u{06F2}\u{06F0}", '-'), latin);
    assert_eq!(parse_gregorian_string_to_jalali_string("\u{0662}\u{0660}\u{0662}\u{0664}-\u{0660}\u{0663}-\u{0662}\u{0660}", '-'), latin);
    assert_eq!(parse_gregorian_string_to_jalali_string("2\u{0660}\u{06F2}4-0\u{0663}-\u{06F2}0", '-'), latin);
    let back = parse_jalali_string_to_gregorian_string("1403-01-01", '-');
    assert_eq!(back, Some("2024-03-20".to_string()));
    assert_eq!(parse_jalali_string_to_gregorian_string("\u{06F1}\u{06F4}\u{06F0}\u{06F3}-\u{06F0}\u{06F1}-\u{0660}\u{0661}", '-'), back);
}

#[test]
fn fields_are_filled_with_zeros() {
    assert_eq!(parse_jalali_string_to_gregorian_string("1-1-1", '-'), Some("0622-03-21".to_string()));
    assert_eq!(parse_jalali_string_to_gregorian_string("-600/1/1", '/'), Some("0021-03-21".to_string()));
    assert_eq!(parse_jalali_string_to_gregorian_string("-621/1/1", '/'), Some("0000-03-21".to_string()));
    assert_eq!(parse_gregorian_string_to_jalali_string("622/3/21", '/'), Some("0001-01-01".to_string()));
    assert_eq!(parse_gregorian_string_to_jalali_string("600/1/1", '/'), Some("-022-10-11".to_string()));
    assert_eq!(parse_gregorian_string_to_jalali_string("20000/1/1", '/'), Some("19378-10-12".to_string()));
}

#[test]
fn what_is_read_is_what_the_standard_parser_reads() {
    let fields = [
        "", "0", "7", "12", "13", "31", "32", "007", "+7", "-7", "+", "-", "+-7", "-+7", "7+", " 7",
        "7 ", "1_0", "2147483647", "2147483648", "-2147483648", "-2147483649", "1e1", "٧", "۷",
        "00000000000000000000012", "4294967308",
    ];
    for year in fields {
        for month in fields {
            for day in fields {
                let text = format!("{}/{}/{}", year, month, day);
                let normal: String = text
                    .chars()
                    .map(|c| match c {
                        '٧' | '۷' => '7',
                        other => other,
                    })
                    .collect();
                let parts: Vec<&str> = normal.split('/').collect();
                let read = match (
                    parts[0].parse::<i32>(),
                    parts[1].parse::<usize>(),
                    parts[2].parse::<i32>(),
                ) {
                    (Ok(y), Ok(m), Ok(d)) if 1 <= m && m <= 12 && 1 <= d && d <= 31 => Some((y, m, d)),
                    _ => None,
                };
                let jalali = read.map(|(y, m, d)| {
                    let (jy, jm, jd) = gregorian_to_jalali(y, m, d);
                    format!("{:04}-{:02}-{:02}", jy, jm, jd)
                });
                let gregorian = read.map(|(y, m, d)| {
                    let (gy, gm, gd) = jalali_to_gregorian(y, m, d);
                    format!("{:04}-{:02}-{:02}", gy, gm, gd)
                });
                assert_eq!(parse_gregorian_string_to_jalali_string(&text, '/'), jalali, "{}", text);
                assert_eq!(parse_jalali_string_to_gregorian_string(&text, '/'), gregorian, "{}", text);
            }
        }
    }
}

#[test]
fn what_is_written_is_what_the_standard_formatter_writes() {
    for year in [i32::MIN, -2147483647, -100000, -10000, -9999, -1000, -999, -100, -99, -10, -9, -1, 0, 1, 9, 10, 99, 100, 999, 1000, 9999, 10000, 1404, 2025, i32::MAX] {
        for month in 1..=12usize {
            for day in [1, 15, 31] {
                let text = format!("{}/{}/{}", year, month, day);
                let (jy, jm, jd) = gregorian_to_jalali(year, month, day);
                assert_eq!(
                    parse_gregorian_string_to_jalali_string(&text, '/'),
                    Some(format!("{:04}-{:02}-{:02}", jy, jm, jd)),
                    "{}",
                    text
                );
                let (gy, gm, gd) = jalali_to_gregorian(year, month, day);
                assert_eq!(
                    parse_jalali_string_to_gregorian_string(&text, '/'),
                    Some(format!("{:04}-{:02}-{:02}", gy, gm, gd)),
                    "{}",
                    text
                );
            }
        }
    }
}

#[test]
fn written_dates_are_read_back() {
    for text in ["1404-10-06", "0001-01-01", "0622-03-21", "3000-12-29", "2147483471-12-29"] {
        let gregorian = parse_jalali_string_to_gregorian_string(text, '-').unwrap();
        assert_eq!(parse_gregorian_string_to_jalali_string(&gregorian, '-'), Some(text.to_string()));
    }
    for text in ["2025-12-27", "0000-01-01", "0001-01-01", "1970-01-01", "2147483647-12-31"] {
        let jalali = parse_gregorian_string_to_jalali_string(text, '/');
        assert_eq!(jalali, None);
        let jalali = parse_gregorian_string_to_jalali_string(text, '-').unwrap();
        if !jalali.starts_with('-') {
            assert_eq!(parse_jalali_string_to_gregorian_string(&jalali, '-'), Some(text.to_string()));
        } else {
            assert_eq!(parse_jalali_string_to_gregorian_string(&jalali, '-'), None);
        }
    }
}
