//! The byte-level grammar of a CGI header line.
//!
//! A header line is `name ":" blanks value line-ending`. The name is a token,
//! the value is field content, and nothing in a line is interpreted: the bytes
//! of the value are kept as they stand.
//!
//! Every scanner takes the whole buffer and the position to start at, and
//! gives positions back, so that the contracts can speak of one sequence.

use vstd::prelude::*;

verus! {

pub const HTAB: u8 = 0x09;

pub const LF: u8 = 0x0a;

pub const CR: u8 = 0x0d;

pub const SPACE: u8 = 0x20;

pub const DQUOTE: u8 = 0x22;

pub const COLON: u8 = 0x3a;

/// An ASCII control byte: below `0x20`, or `0x7f`.
pub open spec fn is_control(b: u8) -> bool {
    b < 0x20 || b == 0x7f
}

/// One of the nineteen separator bytes: `( ) < > @ , ; : \ " / [ ] ? = { }`,
/// space and horizontal tab.
pub open spec fn is_separator(b: u8) -> bool {
    b == 0x28 || b == 0x29 || b == 0x3c || b == 0x3e || b == 0x40 || b == 0x2c || b == 0x3b || b
        == 0x3a || b == 0x5c || b == 0x22 || b == 0x2f || b == 0x5b || b == 0x5d || b == 0x3f || b
        == 0x3d || b == 0x7b || b == 0x7d || b == 0x20 || b == 0x09
}

/// A byte that may stand in a token: neither a control byte nor a separator.
/// Bytes from `0x80` up are token bytes.
pub open spec fn is_token_byte(b: u8) -> bool {
    !is_control(b) && !is_separator(b)
}

/// A space or a horizontal tab.
pub open spec fn is_blank(b: u8) -> bool {
    b == 0x20 || b == 0x09
}

/// A byte that may stand between the quotes of a quoted string: a horizontal
/// tab, or any byte that is neither a control byte nor the quote itself.
pub open spec fn is_quoted_byte(b: u8) -> bool {
    b != 0x22 && (b == 0x09 || !is_control(b))
}

/// A byte that may stand in a header value: a token byte or a separator,
/// which is to say a horizontal tab or any byte that is no control byte.
pub open spec fn is_content_byte(b: u8) -> bool {
    is_token_byte(b) || is_separator(b)
}

/// Where the longest run of accepted bytes that starts at `from` ends: the
/// first position at or after `from` that is the end of `s` or holds a byte
/// that `accept` refuses.
pub open spec fn run_end(s: Seq<u8>, from: int, accept: spec_fn(u8) -> bool) -> int
    decreases s.len() - from,
{
    if 0 <= from < s.len() && accept(s[from]) {
        run_end(s, from + 1, accept)
    } else {
        from
    }
}

/// The end of the token that starts at `from` (`from` itself if none does).
pub open spec fn token_end(s: Seq<u8>, from: int) -> int {
    run_end(s, from, |b: u8| is_token_byte(b))
}

/// The end of the spaces and tabs that start at `from`.
pub open spec fn blank_end(s: Seq<u8>, from: int) -> int {
    run_end(s, from, |b: u8| is_blank(b))
}

/// The end of the run of quotable bytes that starts at `from`.
pub open spec fn quoted_text_end(s: Seq<u8>, from: int) -> int {
    run_end(s, from, |b: u8| is_quoted_byte(b))
}

/// The end of the header value that starts at `from`.
pub open spec fn content_end(s: Seq<u8>, from: int) -> int {
    run_end(s, from, |b: u8| is_content_byte(b))
}

/// The end of the quoted string that starts at `from`, if one does: an
/// opening quote, quotable bytes, a closing quote.
pub open spec fn quoted_string_end(s: Seq<u8>, from: int) -> Option<int> {
    let close = quoted_text_end(s, from + 1);
    if 0 <= from < s.len() && s[from] == DQUOTE && close < s.len() && s[close] == DQUOTE {
        Some(close + 1)
    } else {
        None
    }
}

/// The length of the line ending at `at`: 1 for a line feed, 2 for a carriage
/// return followed by a line feed, 0 where neither stands.
pub open spec fn line_ending_len(s: Seq<u8>, at: int) -> int {
    if 0 <= at < s.len() && s[at] == LF {
        1
    } else if 0 <= at && at + 1 < s.len() && s[at] == CR && s[at + 1] == LF {
        2
    } else {
        0
    }
}

/// One header line inside a sequence of bytes, by its positions.
pub struct Field {
    /// Where the name starts.
    pub start: int,
    /// Where the name ends and the colon stands.
    pub name_end: int,
    /// Where the value starts, after the colon and the blanks.
    pub value_start: int,
    /// Where the value ends and the line ending starts.
    pub value_end: int,
    /// Where the next line starts.
    pub next: int,
}

impl Field {
    /// The bytes of the name.
    pub open spec fn name(self, s: Seq<u8>) -> Seq<u8> {
        s.subrange(self.start, self.name_end)
    }

    /// The bytes of the value.
    pub open spec fn value(self, s: Seq<u8>) -> Seq<u8> {
        s.subrange(self.value_start, self.value_end)
    }
}

/// The positions that delimit one header line inside a buffer.
#[derive(Clone, Copy, Debug, PartialEq, Eq)]
pub struct FieldSpan {
    /// Where the name starts.
    pub start: usize,
    /// Where the name ends and the colon stands.
    pub name_end: usize,
    /// Where the value starts, after the colon and the blanks.
    pub value_start: usize,
    /// Where the value ends and the line ending starts.
    pub value_end: usize,
    /// Where the next line starts.
    pub next: usize,
}

impl View for FieldSpan {
    type V = Field;

    open spec fn view(&self) -> Field {
        Field {
            start: self.start as int,
            name_end: self.name_end as int,
            value_start: self.value_start as int,
            value_end: self.value_end as int,
            next: self.next as int,
        }
    }
}

/// The header line that starts at `from`, if one does: a token that is not
/// empty, a colon, any spaces and tabs, the value, and a line ending.
pub open spec fn field_at(s: Seq<u8>, from: int) -> Option<Field> {
    let name_end = token_end(s, from);
    let value_start = blank_end(s, name_end + 1);
    let value_end = content_end(s, value_start);
    let ending = line_ending_len(s, value_end);
    if 0 <= from < name_end < s.len() && s[name_end] == COLON && ending > 0 {
        Some(
            Field { start: from, name_end, value_start, value_end, next: value_end + ending },
        )
    } else {
        None
    }
}

/// A header line lies inside the sequence, its parts follow one another, and
/// it is not empty.
pub proof fn lemma_field_at(s: Seq<u8>, from: int)
    ensures
        field_at(s, from) matches Some(f) ==> 0 <= from == f.start < f.name_end < f.value_start
            <= f.value_end < f.next <= s.len(),
{
    if 0 <= from <= s.len() {
        lemma_run_end(s, from, |b: u8| is_token_byte(b));
        let name_end = token_end(s, from);
        if name_end < s.len() {
            lemma_run_end(s, name_end + 1, |b: u8| is_blank(b));
            lemma_run_end(s, blank_end(s, name_end + 1), |b: u8| is_content_byte(b));
        }
    }
}

/// A run ends at or after its start and inside the sequence, every byte of it
/// is accepted, and the byte at its end, if there is one, is refused.
pub proof fn lemma_run_end(s: Seq<u8>, from: int, accept: spec_fn(u8) -> bool)
    requires
        0 <= from <= s.len(),
    ensures
        from <= run_end(s, from, accept) <= s.len(),
        forall|i: int| from <= i < run_end(s, from, accept) ==> accept(#[trigger] s[i]),
        run_end(s, from, accept) < s.len() ==> !accept(s[run_end(s, from, accept)]),
    decreases s.len() - from,
{
    if from < s.len() && accept(s[from]) {
        lemma_run_end(s, from + 1, accept);
    }
}

/// A position that every byte from `from` on is accepted up to, and that is
/// the end of the sequence or holds a refused byte, is where the run ends.
pub proof fn lemma_run_end_is(s: Seq<u8>, from: int, end: int, accept: spec_fn(u8) -> bool)
    requires
        0 <= from <= end <= s.len(),
        forall|i: int| from <= i < end ==> accept(#[trigger] s[i]),
        end < s.len() ==> !accept(s[end]),
    ensures
        run_end(s, from, accept) == end,
    decreases end - from,
{
    if from < end {
        lemma_run_end_is(s, from + 1, end, accept);
    }
}

/// Whether `b` is one of the separator bytes.
pub fn separator_byte(b: u8) -> (r: bool)
    ensures
        r == is_separator(b),
{
    b == 0x28 || b == 0x29 || b == 0x3c || b == 0x3e || b == 0x40 || b == 0x2c || b == 0x3b || b
        == 0x3a || b == 0x5c || b == 0x22 || b == 0x2f || b == 0x5b || b == 0x5d || b == 0x3f || b
        == 0x3d || b == 0x7b || b == 0x7d || b == 0x20 || b == 0x09
}

/// Whether `b` is an ASCII control byte.
pub fn control_byte(b: u8) -> (r: bool)
    ensures
        r == is_control(b),
{
    b < 0x20 || b == 0x7f
}

/// Whether `b` may stand in a token.
pub fn token_byte(b: u8) -> (r: bool)
    ensures
        r == is_token_byte(b),
{
    !control_byte(b) && !separator_byte(b)
}

/// Scans a token: the longest run of token bytes at `from`, which must hold
/// at least one byte. Gives the position after it.
pub fn token(input: &[u8], from: usize) -> (end: Option<usize>)
    ensures
        end == if token_end(input@, from as int) > from {
            Some(token_end(input@, from as int) as usize)
        } else {
            None
        },
{
    if from > input.len() {
        return None;
    }
    let mut pos: usize = from;
    while pos < input.len() && token_byte(input[pos])
        invariant
            from <= pos <= input.len(),
            forall|i: int| from <= i < pos ==> is_token_byte(#[trigger] input@[i]),
        decreases input.len() - pos,
    {
        pos += 1;
    }
    proof {
        lemma_run_end_is(input@, from as int, pos as int, |b: u8| is_token_byte(b));
    }
    if pos > from {
        Some(pos)
    } else {
        None
    }
}

/// Scans one separator byte at `from`. Gives the position after it.
pub fn separator(input: &[u8], from: usize) -> (end: Option<usize>)
    ensures
        end == if from < input.len() && is_separator(input@[from as int]) {
            Some((from + 1) as usize)
        } else {
            None
        },
{
    if from < input.len() && separator_byte(input[from]) {
        Some(from + 1)
    } else {
        None
    }
}

/// Skips the spaces and tabs at `from`. Gives the position after them.
pub fn blanks(input: &[u8], from: usize) -> (end: usize)
    ensures
        end == blank_end(input@, from as int),
        from <= input.len() ==> from <= end <= input.len(),
{
    if from > input.len() {
        return from;
    }
    let mut pos: usize = from;
    while pos < input.len() && (input[pos] == SPACE || input[pos] == HTAB)
        invariant
            from <= pos <= input.len(),
            forall|i: int| from <= i < pos ==> is_blank(#[trigger] input@[i]),
        decreases input.len() - pos,
    {
        pos += 1;
    }
    proof {
        lemma_run_end_is(input@, from as int, pos as int, |b: u8| is_blank(b));
    }
    pos
}

/// Scans a quoted string at `from`: a quote, then tabs and bytes that are
/// neither control bytes nor quotes, then a quote. Gives the position after
/// the closing quote; the quotes belong to what was scanned.
pub fn quoted_string(input: &[u8], from: usize) -> (end: Option<usize>)
    ensures
        end == match quoted_string_end(input@, from as int) {
            Some(e) => Some(e as usize),
            None => None,
        },
{
    if from >= input.len() || input[from] != DQUOTE {
        return None;
    }
    let mut pos: usize = from + 1;
    while pos < input.len() && input[pos] != DQUOTE && (input[pos] == HTAB || !control_byte(
        input[pos],
    ))
        invariant
            from < pos <= input.len(),
            forall|i: int| from < i < pos ==> is_quoted_byte(#[trigger] input@[i]),
        decreases input.len() - pos,
    {
        pos += 1;
    }
    proof {
        lemma_run_end_is(input@, from + 1, pos as int, |b: u8| is_quoted_byte(b));
    }
    if pos < input.len() && input[pos] == DQUOTE {
        Some(pos + 1)
    } else {
        None
    }
}

/// Scans a header value at `from`: tokens, single separators and quoted
/// strings, as many as follow one another. Gives the position after the last
/// of them, which is `from` itself where none stands.
///
/// The quote is a separator, so what this accepts is the longest run of
/// content bytes, whether or not its quotes pair up.
pub fn field_content(input: &[u8], from: usize) -> (end: usize)
    ensures
        end == content_end(input@, from as int),
        from <= input.len() ==> from <= end <= input.len(),
{
    if from > input.len() {
        return from;
    }
    let mut pos: usize = from;
    loop
        invariant
            from <= pos <= input.len(),
            forall|i: int| from <= i < pos ==> is_content_byte(#[trigger] input@[i]),
        ensures
            from <= pos <= input.len(),
            forall|i: int| from <= i < pos ==> is_content_byte(#[trigger] input@[i]),
            pos < input.len() ==> !is_content_byte(input@[pos as int]),
        decreases input.len() - pos,
    {
        proof {
            lemma_run_end(input@, pos as int, |b: u8| is_token_byte(b));
            if pos < input.len() {
                lemma_run_end(input@, pos as int + 1, |b: u8| is_quoted_byte(b));
            }
        }
        let next: usize = match token(input, pos) {
            Some(end) => end,
            None => match separator(input, pos) {
                Some(end) => end,
                None => match quoted_string(input, pos) {
                    Some(end) => end,
                    None => { break ; },
                },
            },
        };
        pos = next;
    }
    proof {
        lemma_run_end_is(input@, from as int, pos as int, |b: u8| is_content_byte(b));
    }
    pos
}

/// Scans a line ending at `from`: a line feed, or a carriage return and a
/// line feed. Gives the position after it.
pub fn line_ending(input: &[u8], from: usize) -> (end: Option<usize>)
    ensures
        end == if line_ending_len(input@, from as int) > 0 {
            Some((from + line_ending_len(input@, from as int)) as usize)
        } else {
            None
        },
{
    if from < input.len() && input[from] == LF {
        Some(from + 1)
    } else if from < input.len() && input[from] == CR && from + 1 < input.len() && input[from
        + 1] == LF {
        Some(from + 2)
    } else {
        None
    }
}

/// Scans one header line at `from`: name, colon, blanks, value, line ending.
pub fn generic_field(input: &[u8], from: usize) -> (field: Option<FieldSpan>)
    ensures
        match field {
            Some(f) => field_at(input@, from as int) == Some(f@),
            None => field_at(input@, from as int) is None,
        },
        field matches Some(f) ==> from == f.start < f.name_end < f.value_start <= f.value_end
            < f.next <= input.len(),
{
    proof {
        if from <= input.len() {
            lemma_run_end(input@, from as int, |b: u8| is_token_byte(b));
        }
    }
    let name_end: usize = match token(input, from) {
        Some(end) => end,
        None => { return None; },
    };
    if name_end >= input.len() || input[name_end] != COLON {
        return None;
    }
    let value_start: usize = blanks(input, name_end + 1);
    let value_end: usize = field_content(input, value_start);
    match line_ending(input, value_end) {
        Some(next) => Some(FieldSpan { start: from, name_end, value_start, value_end, next }),
        None => None,
    }
}

} // verus!
