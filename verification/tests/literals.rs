use stix_patterns_parser::ast::Timestamp;
use stix_patterns_parser::error::ParseError;
use stix_patterns_parser::literal::{
    choose_timestamp, parse_decimal, parse_i64, parse_timestamp, parse_u32, strip_quotes,
    unescape_string,
};

#[test]
fn unescape_resolves_the_five_escapes() {
    assert_eq!(unescape_string("a\\nb"), "a\nb");
    assert_eq!(unescape_string("a\\rb"), "a\rb");
    assert_eq!(unescape_string("a\\tb"), "a\tb");
    assert_eq!(unescape_string("a\\\\b"), "a\\b");
    assert_eq!(unescape_string("a\\'b"), "a'b");
}

#[test]
fn unescape_keeps_other_escapes_with_their_backslash() {
    assert_eq!(unescape_string("a\\qb"), "a\\qb");
    assert_eq!(unescape_string("\\d+\\.exe"), "\\d+\\.exe");
}

#[test]
fn unescape_keeps_a_backslash_at_the_end() {
    assert_eq!(unescape_string("abc\\"), "abc\\");
    assert_eq!(unescape_string("\\"), "\\");
}

#[test]
fn unescape_leaves_plain_text_alone() {
    assert_eq!(unescape_string(""), "");
    assert_eq!(unescape_string("foo.dll"), "foo.dll");
    assert_eq!(unescape_string("a'b"), "a'b");
    assert_eq!(unescape_string(&unescape_string("a\\'b")), "a'b");
    assert_eq!(unescape_string("h\u{e9}llo \u{1F600}"), "h\u{e9}llo \u{1F600}");
}

#[test]
fn unescape_reads_pairs_from_the_left() {
    assert_eq!(unescape_string("\\\\n"), "\\n");
    assert_eq!(unescape_string("\\\\\\n"), "\\\n");
}

#[test]
fn strip_quotes_takes_both_quotes_or_none() {
    assert_eq!(strip_quotes("'SHA-256'"), "SHA-256");
    assert_eq!(strip_quotes("name"), "name");
    assert_eq!(strip_quotes("''"), "");
    assert_eq!(strip_quotes("'"), "'");
    assert_eq!(strip_quotes("'abc"), "'abc");
    assert_eq!(strip_quotes("abc'"), "abc'");
    assert_eq!(strip_quotes(""), "");
    assert_eq!(strip_quotes("'a'b'"), "a'b");
}

#[test]
fn integers_of_64_bits() {
    assert_eq!(parse_i64("0"), Ok(0));
    assert_eq!(parse_i64("100"), Ok(100));
    assert_eq!(parse_i64("-5"), Ok(-5));
    assert_eq!(parse_i64("+5"), Ok(5));
    assert_eq!(parse_i64("007"), Ok(7));
    assert_eq!(parse_i64("9223372036854775807"), Ok(i64::MAX));
    assert_eq!(parse_i64("-9223372036854775808"), Ok(i64::MIN));
}

#[test]
fn integers_that_do_not_fit_or_are_none() {
    for text in [
        "9223372036854775808",
        "-9223372036854775809",
        "99999999999999999999999999",
        "",
        "-",
        "+",
        "12a",
        "1.5",
        " 1",
        "--1",
    ] {
        assert_eq!(parse_i64(text), Err(ParseError::InvalidInt(text.to_string())));
    }
}

#[test]
fn integers_of_32_bits_without_sign() {
    assert_eq!(parse_u32("0"), Ok(0));
    assert_eq!(parse_u32("5"), Ok(5));
    assert_eq!(parse_u32("+5"), Ok(5));
    assert_eq!(parse_u32("4294967295"), Ok(u32::MAX));
    for text in ["4294967296", "-1", "-0", "", "*", "1 "] {
        assert_eq!(parse_u32(text), Err(ParseError::InvalidInt(text.to_string())));
    }
}

#[test]
fn parsing_agrees_with_the_standard_library() {
    for text in ["0", "-0", "+0", "42", "-42", "0042", "18446744073709551616", "x", "1_000"] {
        assert_eq!(parse_i64(text).ok(), text.parse::<i64>().ok());
        assert_eq!(parse_u32(text).ok(), text.parse::<u32>().ok());
    }
}

#[test]
fn decimal_numbers_are_kept_as_written() {
    for text in ["1.5", "-0.25", "+3.0", "10", "0.000001", "123456789012345678901234567890.5"] {
        assert_eq!(parse_decimal(text), Ok(text.to_string()));
        assert!(text.parse::<f64>().is_ok());
    }
    assert_eq!("1.5".parse::<f64>().unwrap(), 1.5);
}

#[test]
fn what_is_no_decimal_number() {
    for text in ["", ".5", "5.", "1.2.3", "1e5", "abc", "-", "+.5", "1,5", " 1.5"] {
        assert_eq!(parse_decimal(text), Err(ParseError::InvalidFloat(text.to_string())));
    }
}

#[test]
fn timestamp_with_offset() {
    assert_eq!(
        parse_timestamp("2021-01-01T00:00:00Z"),
        Ok(Timestamp { micros: 1_609_459_200_000_000 })
    );
    assert_eq!(
        parse_timestamp("2021-01-01T02:00:00+02:00"),
        Ok(Timestamp { micros: 1_609_459_200_000_000 })
    );
    assert_eq!(
        parse_timestamp("2021-01-01T00:00:00.123456Z"),
        Ok(Timestamp { micros: 1_609_459_200_123_456 })
    );
    assert_eq!(parse_timestamp("1970-01-01T00:00:00Z"), Ok(Timestamp { micros: 0 }));
    assert_eq!(parse_timestamp("1969-12-31T23:59:59Z"), Ok(Timestamp { micros: -1_000_000 }));
}

#[test]
fn timestamp_without_offset_is_utc() {
    assert_eq!(
        parse_timestamp("2021-01-01T00:00:00"),
        parse_timestamp("2021-01-01T00:00:00Z")
    );
    assert_eq!(
        parse_timestamp("2021-01-01T00:00:00"),
        Ok(Timestamp { micros: 1_609_459_200_000_000 })
    );
}

#[test]
fn timestamp_without_offset_with_fraction() {
    assert_eq!(
        parse_timestamp("2021-01-01T00:00:00.5"),
        Ok(Timestamp { micros: 1_609_459_200_500_000 })
    );
    assert_eq!(
        parse_timestamp("2021-01-01T00:00:00.000001"),
        Ok(Timestamp { micros: 1_609_459_200_000_001 })
    );
}

#[test]
fn timestamp_keeps_microseconds_only() {
    assert_eq!(
        parse_timestamp("2021-01-01T00:00:00.123456789Z"),
        Ok(Timestamp { micros: 1_609_459_200_123_456 })
    );
}

#[test]
fn what_is_no_timestamp() {
    for text in ["", "2021-01-01", "yesterday", "2021-13-01T00:00:00Z", "2021-01-01 00:00:00"] {
        assert_eq!(
            parse_timestamp(text),
            Err(ParseError::InvalidTimestamp(text.to_string()))
        );
    }
}

#[test]
fn the_first_reading_wins() {
    assert_eq!(choose_timestamp("x", Some(1), Some(2), Some(3)), Ok(Timestamp { micros: 1 }));
    assert_eq!(choose_timestamp("x", None, Some(2), Some(3)), Ok(Timestamp { micros: 2 }));
    assert_eq!(choose_timestamp("x", None, None, Some(3)), Ok(Timestamp { micros: 3 }));
    assert_eq!(
        choose_timestamp("x", None, None, None),
        Err(ParseError::InvalidTimestamp("x".to_string()))
    );
}
