//! The status of a response, as its `Status` header gives it.

use crate::failure::Failure;
use crate::header_map::HeaderMap;
use crate::text::chars_of;
use vstd::prelude::*;

verus! {

/// The status of a response that names none.
pub const DEFAULT_STATUS: u16 = 200;

/// A space, a horizontal tab, a line feed, a form feed or a carriage return.
pub open spec fn is_ascii_whitespace(c: char) -> bool {
    c == ' ' || c == '\t' || c == '\n' || c == '\x0c' || c == '\r'
}

/// Where the run that starts at `from` ends: a run of whitespace where
/// `white` is set, of other characters where it is not.
pub open spec fn span_end(s: Seq<char>, from: int, white: bool) -> int
    decreases s.len() - from,
{
    if 0 <= from < s.len() && is_ascii_whitespace(s[from]) == white {
        span_end(s, from + 1, white)
    } else {
        from
    }
}

/// The first word of a text: what stands between the whitespace that the
/// text begins with and the next whitespace. It is empty where the text
/// holds nothing but whitespace.
pub open spec fn first_word(s: Seq<char>) -> Seq<char> {
    let start = span_end(s, 0, true);
    s.subrange(start, span_end(s, start, false))
}

/// One of the characters `0` to `9`.
pub open spec fn is_digit(c: char) -> bool {
    0x30 <= c as u32 <= 0x39
}

/// The number that a digit stands for.
pub open spec fn digit_value(c: char) -> nat {
    (c as u32 - 0x30) as nat
}

/// The number that a sequence of digits stands for in decimal.
pub open spec fn digits_value(digits: Seq<char>) -> nat
    decreases digits.len(),
{
    if digits.len() == 0 {
        0
    } else {
        digits_value(digits.drop_last()) * 10 + digit_value(digits.last())
    }
}

/// Whether every character is a digit.
pub open spec fn all_digits(s: Seq<char>) -> bool {
    forall|i: int| 0 <= i < s.len() ==> is_digit(#[trigger] s[i])
}

/// The number that a word stands for: digits, at least one, which a plus
/// sign may precede, giving a number up to 65535. Leading zeros are
/// accepted.
pub open spec fn parse_u16(word: Seq<char>) -> Option<u16> {
    let digits = if word.len() > 0 && word[0] == '+' {
        word.skip(1)
    } else {
        word
    };
    if digits.len() > 0 && all_digits(digits) && digits_value(digits) <= 0xffff {
        Some(digits_value(digits) as u16)
    } else {
        None
    }
}

/// The status that the value of a `Status` header gives: the number that
/// its first word stands for.
pub open spec fn status_value(value: Seq<char>) -> Option<u16> {
    parse_u16(first_word(value))
}

/// The status of a response with these headers: 200 where there is no
/// `status` header, else what its value gives.
pub open spec fn status_of(headers: Map<Seq<char>, Seq<char>>) -> Result<u16, Failure> {
    if headers.contains_key("status"@) {
        match status_value(headers["status"@]) {
            Some(code) => Ok(code),
            None => Err(Failure::InvalidStatusValue),
        }
    } else {
        Ok(DEFAULT_STATUS)
    }
}

/// A position that the run reaches from `from`, and at which it stops, is
/// where it ends.
proof fn lemma_span_end_is(s: Seq<char>, from: int, end: int, white: bool)
    requires
        0 <= from <= end <= s.len(),
        forall|i: int| from <= i < end ==> is_ascii_whitespace(#[trigger] s[i]) == white,
        end < s.len() ==> is_ascii_whitespace(s[end]) != white,
    ensures
        span_end(s, from, white) == end,
    decreases end - from,
{
    if from < end {
        lemma_span_end_is(s, from + 1, end, white);
    }
}

/// The digits that a number begins with stand for no more than the number.
pub proof fn lemma_digits_value_grows(digits: Seq<char>, n: int)
    requires
        0 <= n <= digits.len(),
    ensures
        digits_value(digits.take(n)) <= digits_value(digits),
    decreases digits.len() - n,
{
    if n < digits.len() {
        lemma_digits_value_grows(digits, n + 1);
        assert(digits.take(n + 1).drop_last() =~= digits.take(n));
    } else {
        assert(digits.take(n) =~= digits);
    }
}

/// Where the run that starts at `from` ends.
fn scan(text: &[char], from: usize, white: bool) -> (end: usize)
    requires
        from <= text.len(),
    ensures
        end == span_end(text@, from as int, white),
        from <= end <= text.len(),
{
    let mut pos: usize = from;
    while pos < text.len() && whitespace(text[pos]) == white
        invariant
            from <= pos <= text.len(),
            forall|i: int| from <= i < pos ==> is_ascii_whitespace(#[trigger] text@[i]) == white,
        decreases text.len() - pos,
    {
        pos += 1;
    }
    proof {
        lemma_span_end_is(text@, from as int, pos as int, white);
    }
    pos
}

/// Whether `c` is ASCII whitespace.
fn whitespace(c: char) -> (white: bool)
    ensures
        white == is_ascii_whitespace(c),
{
    c == ' ' || c == '\t' || c == '\n' || c == '\x0c' || c == '\r'
}

/// Reads the number that `text[from..to]` stands for.
fn read_u16(text: &[char], from: usize, to: usize) -> (number: Option<u16>)
    requires
        from <= to <= text.len(),
    ensures
        number == parse_u16(text@.subrange(from as int, to as int)),
{
    let ghost word = text@.subrange(from as int, to as int);
    let start: usize = if from < to && text[from] == '+' {
        from + 1
    } else {
        from
    };
    let ghost digits = text@.subrange(start as int, to as int);
    assert(digits =~= if word.len() > 0 && word[0] == '+' {
        word.skip(1)
    } else {
        word
    });
    if start == to {
        return None;
    }
    let mut value: u32 = 0;
    let mut pos: usize = start;
    while pos < to
        invariant
            from <= start <= pos <= to <= text.len(),
            word == text@.subrange(from as int, to as int),
            digits == text@.subrange(start as int, to as int),
            digits == if word.len() > 0 && word[0] == '+' {
                word.skip(1)
            } else {
                word
            },
            all_digits(digits.take(pos - start)),
            value == digits_value(digits.take(pos - start)),
            value <= 0xffff,
        decreases to - pos,
    {
        let code: u32 = text[pos] as u32;
        if code < 0x30 || code > 0x39 {
            assert(!is_digit(digits[pos - start]));
            return None;
        }
        let ghost longer = digits.take(pos - start + 1);
        assert(longer.drop_last() =~= digits.take(pos - start));
        assert(longer.last() == text@[pos as int]);
        value = value * 10 + (code - 0x30);
        if value > 0xffff {
            proof {
                lemma_digits_value_grows(digits, pos - start + 1);
            }
            return None;
        }
        pos += 1;
    }
    assert(digits.take(pos - start) =~= digits);
    Some(value as u16)
}

/// Reads the status that the value of a `Status` header gives: the number
/// that its first word stands for, if that is a number from 0 to 65535.
pub fn parse_status(value: &str) -> (status: Option<u16>)
    ensures
        status == status_value(value@),
{
    let text = chars_of(value);
    let start: usize = scan(text.as_slice(), 0, true);
    let end: usize = scan(text.as_slice(), start, false);
    read_u16(text.as_slice(), start, end)
}

/// Reads the status of a response from its headers: 200 where there is no
/// `status` header.
pub fn status_code(headers: &HeaderMap) -> (status: Result<u16, Failure>)
    ensures
        status == status_of(headers@),
{
    match headers.get("status") {
        Some(value) => match parse_status(value.as_str()) {
            Some(code) => Ok(code),
            None => Err(Failure::InvalidStatusValue),
        },
        None => Ok(DEFAULT_STATUS),
    }
}

} // verus!
