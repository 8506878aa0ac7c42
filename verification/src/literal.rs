//! From the text of a literal to the value that it stands for.

use vstd::prelude::*;
use crate::ast::Timestamp;
use crate::error::{ParseError, ParseErrorView};
use crate::scan::{at, is_digit, run_end, scan_run, has_char, CharClass};
use crate::text::{chars_of, string_of};

verus! {

/// The text without the quote at its start and the quote at its end, where
/// it has both; else the text as it is.
pub open spec fn stripped(s: Seq<char>) -> Seq<char> {
    if s.len() >= 2 && s[0] == '\'' && s[s.len() - 1] == '\'' {
        s.subrange(1, s.len() - 1)
    } else {
        s
    }
}

/// Takes the quotes off a quoted name; a name without them is left alone.
pub fn strip_quotes(s: &str) -> (name: String)
    ensures
        name@ == stripped(s@),
{
    let chars = chars_of(s);
    let n = chars.len();
    if n >= 2 && chars[0] == '\'' && chars[n - 1] == '\'' {
        string_of(&chars, 1, n - 1)
    } else {
        s.to_owned()
    }
}

/// What a backslash and the character `c` after it stand for: a line feed,
/// a carriage return, a tab, a backslash or a quote; before any other
/// character the backslash stands for itself.
pub open spec fn escape_of(c: char) -> Seq<char> {
    if c == 'n' {
        seq!['\n']
    } else if c == 'r' {
        seq!['\r']
    } else if c == 't' {
        seq!['\t']
    } else if c == '\\' || c == '\'' {
        seq![c]
    } else {
        seq!['\\', c]
    }
}

/// The text with its escapes resolved. A backslash at the very end stays.
pub open spec fn unescaped(s: Seq<char>) -> Seq<char>
    decreases s.len(),
{
    if s.len() == 0 {
        s
    } else if s[0] != '\\' {
        seq![s[0]] + unescaped(s.skip(1))
    } else if s.len() == 1 {
        s
    } else {
        escape_of(s[1]) + unescaped(s.skip(2))
    }
}

/// Resolves the escapes of the body of a string literal.
pub fn unescape_string(s: &str) -> (text: String)
    ensures
        text@ == unescaped(s@),
{
    let chars = chars_of(s);
    let n = chars.len();
    let mut text = String::new();
    let mut i: usize = 0;
    assert(chars@.skip(0) =~= chars@);
    assert(text@ + unescaped(chars@) =~= unescaped(chars@));
    while i < n
        invariant
            n == chars.len(),
            i <= n,
            unescaped(chars@) == text@ + unescaped(chars@.skip(i as int)),
        decreases n - i,
    {
        let ghost rest = chars@.skip(i as int);
        let ghost before = text@;
        let c = chars[i];
        assert(rest[0] == c);
        if c != '\\' {
            text.push(c);
            i += 1;
            assert(rest.skip(1) =~= chars@.skip(i as int));
            assert(before + (seq![c] + unescaped(rest.skip(1))) =~= text@ + unescaped(
                rest.skip(1),
            ));
        } else if i + 1 == n {
            text.push(c);
            i += 1;
            assert(rest =~= seq![c]);
            assert(chars@.skip(i as int) =~= Seq::<char>::empty());
            assert(before + rest =~= text@ + unescaped(chars@.skip(i as int)));
        } else {
            let e = chars[i + 1];
            assert(rest[1] == e);
            if e == 'n' {
                text.push('\n');
            } else if e == 'r' {
                text.push('\r');
            } else if e == 't' {
                text.push('\t');
            } else if e == '\\' || e == '\'' {
                text.push(e);
            } else {
                text.push('\\');
                text.push(e);
            }
            i += 2;
            assert(rest.skip(2) =~= chars@.skip(i as int));
            assert(text@ =~= before + escape_of(e));
            assert(before + (escape_of(e) + unescaped(rest.skip(2))) =~= text@ + unescaped(
                rest.skip(2),
            ));
        }
    }
    assert(chars@.skip(n as int) =~= Seq::<char>::empty());
    assert(text@ + Seq::<char>::empty() =~= text@);
    text
}

/// The number that a digit stands for.
pub open spec fn digit_value(c: char) -> int {
    c as int - '0' as int
}

/// Whether the text is made of digits, and of at least one.
pub open spec fn is_digits(s: Seq<char>) -> bool {
    s.len() > 0 && forall|i: int| 0 <= i < s.len() ==> is_digit(#[trigger] s[i])
}

/// The number that a run of digits stands for in base ten.
pub open spec fn decimal(s: Seq<char>) -> int
    decreases s.len(),
{
    if s.len() == 0 {
        0
    } else {
        decimal(s.drop_last()) * 10 + digit_value(s.last())
    }
}

/// The integer that the text stands for: digits, with or without a sign
/// before them.
pub open spec fn integer_literal(s: Seq<char>) -> Option<int> {
    if at(s, 0, '-') {
        if is_digits(s.skip(1)) {
            Some(-decimal(s.skip(1)))
        } else {
            None
        }
    } else if at(s, 0, '+') {
        if is_digits(s.skip(1)) {
            Some(decimal(s.skip(1)))
        } else {
            None
        }
    } else if is_digits(s) {
        Some(decimal(s))
    } else {
        None
    }
}

/// The integer that the text stands for, where it fits in 64 bits.
pub open spec fn integer_i64(s: Seq<char>) -> Option<i64> {
    match integer_literal(s) {
        Some(v) => if i64::MIN <= v <= i64::MAX {
            Some(v as i64)
        } else {
            None
        },
        None => None,
    }
}

/// The integer that the text stands for, where it has no minus sign and fits
/// in 32 bits without a sign.
pub open spec fn integer_u32(s: Seq<char>) -> Option<u32> {
    match integer_literal(s) {
        Some(v) => if !at(s, 0, '-') && v <= u32::MAX {
            Some(v as u32)
        } else {
            None
        },
        None => None,
    }
}

/// A run of digits stands for a number that is not negative, and for no less
/// than any of its beginnings does.
pub proof fn lemma_decimal_grows(s: Seq<char>, k: int)
    requires
        forall|i: int| 0 <= i < s.len() ==> is_digit(#[trigger] s[i]),
        0 <= k <= s.len(),
    ensures
        0 <= decimal(s.take(k)) <= decimal(s),
    decreases s.len(),
{
    if s.len() == 0 {
        assert(s.take(k) =~= s);
    } else if k == s.len() {
        assert(s.take(k) =~= s);
        lemma_decimal_grows(s.drop_last(), k - 1);
    } else {
        lemma_decimal_grows(s.drop_last(), k);
        assert(s.drop_last().take(k) =~= s.take(k));
    }
}

/// The number that the digits from `from` on stand for, if every character
/// there is a digit and the number is at most `limit`.
fn magnitude(chars: &Vec<char>, from: usize, limit: u64) -> (value: Option<u64>)
    requires
        from <= chars.len(),
        limit >= 9,
    ensures
        value matches Some(v) ==> is_digits(chars@.skip(from as int)) && v == decimal(
            chars@.skip(from as int),
        ) && v <= limit,
        value is None ==> !is_digits(chars@.skip(from as int)) || decimal(
            chars@.skip(from as int),
        ) > limit,
{
    let n = chars.len();
    let ghost digits = chars@.skip(from as int);
    if from == n {
        return None;
    }
    let mut acc: u64 = 0;
    let mut i: usize = from;
    while i < n
        invariant
            n == chars.len(),
            from <= i <= n,
            digits == chars@.skip(from as int),
            forall|k: int| 0 <= k < i - from ==> is_digit(#[trigger] digits[k]),
            acc == decimal(digits.take(i - from)),
            acc <= limit,
            limit >= 9,
        decreases n - i,
    {
        let c = chars[i];
        assert(digits[i - from] == c);
        if !('0' <= c && c <= '9') {
            return None;
        }
        let d: u64 = (c as u32 - '0' as u32) as u64;
        proof {
            assert(digits.take(i - from + 1).drop_last() =~= digits.take(i - from));
            assert(decimal(digits.take(i - from + 1)) == acc * 10 + d);
            if is_digits(digits) {
                lemma_decimal_grows(digits, i - from + 1);
            }
        }
        if acc > (limit - d) / 10 {
            return None;
        }
        acc = acc * 10 + d;
        i += 1;
    }
    assert(digits.take(n - from) =~= digits);
    Some(acc)
}

/// Reads an integer of 64 bits: digits, with or without a sign before them.
pub fn parse_i64(s: &str) -> (r: Result<i64, ParseError>)
    ensures
        match integer_i64(s@) {
            Some(v) => r == Ok::<i64, ParseError>(v),
            None => r is Err && r.unwrap_err()@ == ParseErrorView::InvalidInt(s@),
        },
{
    let chars = chars_of(s);
    let negative = has_char(&chars, 0, '-');
    let from: usize = if negative || has_char(&chars, 0, '+') {
        1
    } else {
        0
    };
    assert(chars@.skip(0) =~= chars@);
    let limit: u64 = if negative {
        0x8000_0000_0000_0000
    } else {
        0x7fff_ffff_ffff_ffff
    };
    match magnitude(&chars, from, limit) {
        Some(v) => {
            if negative {
                if v == 0x8000_0000_0000_0000 {
                    Ok(i64::MIN)
                } else {
                    Ok(-(v as i64))
                }
            } else {
                Ok(v as i64)
            }
        },
        None => {
            proof {
                if is_digits(chars@.skip(from as int)) {
                    lemma_decimal_grows(chars@.skip(from as int), 0);
                }
            }
            Err(ParseError::InvalidInt(s.to_owned()))
        },
    }
}

/// Reads an integer of 32 bits without a sign: digits, with or without a
/// plus sign before them.
pub fn parse_u32(s: &str) -> (r: Result<u32, ParseError>)
    ensures
        match integer_u32(s@) {
            Some(v) => r == Ok::<u32, ParseError>(v),
            None => r is Err && r.unwrap_err()@ == ParseErrorView::InvalidInt(s@),
        },
{
    let chars = chars_of(s);
    let from: usize = if has_char(&chars, 0, '+') {
        1
    } else {
        0
    };
    assert(chars@.skip(0) =~= chars@);
    match magnitude(&chars, from, 0xffff_ffff) {
        Some(v) => Ok(v as u32),
        None => {
            proof {
                if at(chars@, 0, '-') {
                    assert(!is_digit(chars@[0]));
                }
                if is_digits(chars@.skip(from as int)) {
                    lemma_decimal_grows(chars@.skip(from as int), 0);
                }
            }
            Err(ParseError::InvalidInt(s.to_owned()))
        },
    }
}

/// Whether the text is a decimal number: digits, with or without a sign
/// before them, and with or without a point and more digits after them.
pub open spec fn is_decimal_number(s: Seq<char>) -> bool {
    let from: int = if at(s, 0, '-') || at(s, 0, '+') {
        1
    } else {
        0
    };
    let point = run_end(s, from, CharClass::Digit);
    point > from && (point == s.len() || (at(s, point, '.') && point + 1 < s.len() && run_end(
        s,
        point + 1,
        CharClass::Digit,
    ) == s.len()))
}

/// Takes a decimal number as it is written. The library computes with no
/// binary floating point: the literal itself is the value.
pub fn parse_decimal(s: &str) -> (r: Result<String, ParseError>)
    ensures
        is_decimal_number(s@) ==> r is Ok && r.unwrap()@ == s@,
        !is_decimal_number(s@) ==> r is Err && r.unwrap_err()@ == ParseErrorView::InvalidFloat(
            s@,
        ),
{
    let chars = chars_of(s);
    let n = chars.len();
    let from: usize = if has_char(&chars, 0, '-') || has_char(&chars, 0, '+') {
        1
    } else {
        0
    };
    let point = scan_run(&chars, from, CharClass::Digit);
    let good = point > from && (point == n || (chars[point] == '.' && point + 1 < n && scan_run(
        &chars,
        point + 1,
        CharClass::Digit,
    ) == n));
    if good {
        Ok(s.to_owned())
    } else {
        Err(ParseError::InvalidFloat(s.to_owned()))
    }
}

/// What `chrono::DateTime::parse_from_rfc3339` makes of a text: the moment,
/// in microseconds since 1970-01-01T00:00:00 UTC, or nothing where it
/// rejects the text.
pub uninterp spec fn rfc3339_micros(text: Seq<char>) -> Option<i64>;

/// What `chrono::NaiveDateTime::parse_from_str` makes of a text under a
/// format, read as a moment of UTC: microseconds since 1970-01-01T00:00:00,
/// or nothing where it rejects the text.
pub uninterp spec fn naive_micros(text: Seq<char>, format: Seq<char>) -> Option<i64>;

/// Calls `chrono::DateTime::parse_from_rfc3339` and reads the moment it
/// gives in microseconds. Nothing is claimed of which texts it accepts, only
/// that the answer depends on the text alone.
#[verifier::external_body]
fn rfc3339(text: &str) -> (micros: Option<i64>)
    ensures
        micros == rfc3339_micros(text@),
{
    match chrono::DateTime::parse_from_rfc3339(text) {
        Ok(moment) => Some(moment.timestamp_micros()),
        Err(_) => None,
    }
}

/// Calls `chrono::NaiveDateTime::parse_from_str` with one of the two formats
/// of this library, takes the date and time it gives as UTC and reads the
/// moment in microseconds. Nothing is claimed of which texts it accepts, only
/// that the answer depends on the text and the format alone.
#[verifier::external_body]
fn naive(text: &str, format: &str) -> (micros: Option<i64>)
    requires
        format@ == SECONDS_FORMAT@ || format@ == FRACTION_FORMAT@,
    ensures
        micros == naive_micros(text@, format@),
{
    match chrono::NaiveDateTime::parse_from_str(text, format) {
        Ok(moment) => Some(moment.and_utc().timestamp_micros()),
        Err(_) => None,
    }
}

/// Date and time to the second, with no offset.
pub const SECONDS_FORMAT: &'static str = "%Y-%m-%dT%H:%M:%S";

/// Date and time with a fraction of a second, with no offset.
pub const FRACTION_FORMAT: &'static str = "%Y-%m-%dT%H:%M:%S%.f";

/// The first of three readings of a timestamp that gave a moment.
pub open spec fn first_reading(
    with_offset: Option<i64>,
    to_the_second: Option<i64>,
    with_fraction: Option<i64>,
) -> Option<i64> {
    if with_offset is Some {
        with_offset
    } else if to_the_second is Some {
        to_the_second
    } else {
        with_fraction
    }
}

/// The moment that a timestamp stands for: as a timestamp with an offset if
/// it is one, else as a date and time of UTC, to the second or with a
/// fraction.
pub open spec fn timestamp_of(text: Seq<char>) -> Option<i64> {
    first_reading(
        rfc3339_micros(text),
        naive_micros(text, SECONDS_FORMAT@),
        naive_micros(text, FRACTION_FORMAT@),
    )
}

/// Picks the first of three readings of a timestamp that gave a moment, and
/// rejects the text where none did.
pub fn choose_timestamp(
    text: &str,
    with_offset: Option<i64>,
    to_the_second: Option<i64>,
    with_fraction: Option<i64>,
) -> (r: Result<Timestamp, ParseError>)
    ensures
        match first_reading(with_offset, to_the_second, with_fraction) {
            Some(micros) => r == Ok::<Timestamp, ParseError>(Timestamp { micros }),
            None => r is Err && r.unwrap_err()@ == ParseErrorView::InvalidTimestamp(text@),
        },
{
    match with_offset {
        Some(micros) => Ok(Timestamp { micros }),
        None => match to_the_second {
            Some(micros) => Ok(Timestamp { micros }),
            None => match with_fraction {
                Some(micros) => Ok(Timestamp { micros }),
                None => Err(ParseError::InvalidTimestamp(text.to_owned())),
            },
        },
    }
}

/// Reads a timestamp in one of three forms, tried in this order: with an
/// offset, as RFC 3339 has it; without one, to the second; without one, with
/// a fraction of a second. A timestamp without an offset is taken as UTC.
pub fn parse_timestamp(s: &str) -> (r: Result<Timestamp, ParseError>)
    ensures
        match timestamp_of(s@) {
            Some(micros) => r == Ok::<Timestamp, ParseError>(Timestamp { micros }),
            None => r is Err && r.unwrap_err()@ == ParseErrorView::InvalidTimestamp(s@),
        },
{
    let with_offset = rfc3339(s);
    if with_offset.is_some() {
        return choose_timestamp(s, with_offset, None, None);
    }
    let to_the_second = naive(s, SECONDS_FORMAT);
    if to_the_second.is_some() {
        return choose_timestamp(s, None, to_the_second, None);
    }
    choose_timestamp(s, None, None, naive(s, FRACTION_FORMAT))
}

} // verus!
