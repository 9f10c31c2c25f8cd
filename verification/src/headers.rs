//! The header block of a CGI response.
//!
//! A response begins with one or more header lines and a blank line; what
//! follows the blank line is the body. Lines end with a line feed, which a
//! carriage return may precede.

use crate::failure::Failure;
use crate::grammar::{field_at, generic_field, lemma_field_at, line_ending, line_ending_len, Field};
use crate::header_map::HeaderMap;
use crate::text::{ascii_lowercase, latin1, lower_byte, pairs_map, push_char};
use vstd::prelude::*;
use vstd::slice::slice_subrange;

verus! {

/// The header lines that follow one another from `from` on, as many as
/// there are.
pub open spec fn fields_from(s: Seq<u8>, from: int) -> Seq<Field>
    decreases s.len() - from,
    via fields_from_decreases
{
    match field_at(s, from) {
        Some(f) => seq![f] + fields_from(s, f.next),
        None => Seq::empty(),
    }
}

#[via_fn]
proof fn fields_from_decreases(s: Seq<u8>, from: int) {
    lemma_field_at(s, from);
}

/// The name under which a header is kept: its bytes read as ISO-8859-1, the
/// ASCII capital letters in lower case.
pub open spec fn header_name(name: Seq<u8>) -> Seq<char> {
    latin1(ascii_lowercase(name))
}

/// The names and values of header lines, in the order of the lines.
pub open spec fn header_pairs(s: Seq<u8>, fields: Seq<Field>) -> Seq<(Seq<char>, Seq<char>)> {
    Seq::new(fields.len(), |i: int| (header_name(fields[i].name(s)), latin1(fields[i].value(s))))
}

/// A header block: its lines, and where the body starts.
pub struct Block {
    /// The header lines, in their order.
    pub fields: Seq<Field>,
    /// Where the body starts, after the blank line.
    pub body_start: int,
}

/// The header block that a response begins with, if it begins with one: all
/// the header lines that follow one another from the start, at least one,
/// and a line ending after the last of them.
pub open spec fn header_block(s: Seq<u8>) -> Option<Block> {
    let fields = fields_from(s, 0);
    let end = if fields.len() > 0 {
        fields.last().next
    } else {
        0
    };
    if fields.len() > 0 && line_ending_len(s, end) > 0 {
        Some(Block { fields, body_start: end + line_ending_len(s, end) })
    } else {
        None
    }
}

/// The headers that a block gives: for each name the value of the last line
/// that has it.
pub open spec fn block_headers(s: Seq<u8>, block: Block) -> Map<Seq<char>, Seq<char>> {
    pairs_map(header_pairs(s, block.fields))
}

/// Decodes a byte string as ISO-8859-1. Every byte string decodes: byte `b`
/// becomes the character with code point `b`.
pub fn latin1_to_string(s: &[u8]) -> (text: String)
    ensures
        text@ == latin1(s@),
{
    let mut text = String::new();
    let mut i: usize = 0;
    while i < s.len()
        invariant
            i <= s.len(),
            text@ == latin1(s@.take(i as int)),
        decreases s.len() - i,
    {
        push_char(&mut text, s[i] as char);
        i += 1;
        assert(text@ =~= latin1(s@.take(i as int)));
    }
    assert(s@.take(i as int) =~= s@);
    text
}

/// The name under which the header with these name bytes is kept.
pub fn header_name_of(name: &[u8]) -> (text: String)
    ensures
        text@ == header_name(name@),
{
    let mut text = String::new();
    let mut i: usize = 0;
    while i < name.len()
        invariant
            i <= name.len(),
            text@ == header_name(name@.take(i as int)),
        decreases name.len() - i,
    {
        let b: u8 = name[i];
        let lower: u8 = if 0x41 <= b && b <= 0x5a {
            b + 0x20
        } else {
            b
        };
        assert(lower == lower_byte(b));
        push_char(&mut text, lower as char);
        i += 1;
        assert(text@ =~= header_name(name@.take(i as int)));
    }
    assert(name@.take(i as int) =~= name@);
    text
}

/// Splits a response into its headers and its body.
///
/// The response must begin with a header block. The headers are returned by
/// name, in lower case, each with the value of the last line that has the
/// name; the body is the part of `input` after the blank line. Anything else
/// is refused as a whole.
pub fn parse_headers(input: &[u8]) -> (result: Result<(&[u8], HeaderMap), Failure>)
    ensures
        match result {
            Ok((body, headers)) => {
                &&& header_block(input@) matches Some(block)
                &&& headers@ == block_headers(input@, block)
                &&& body@ == input@.skip(block.body_start)
                &&& input@.take(input@.len() - body@.len()) + body@ == input@
            },
            Err(failure) => failure == Failure::MalformedHeaders && header_block(input@) is None,
        },
{
    let mut headers = HeaderMap::new();
    let mut pos: usize = 0;
    let mut any: bool = false;
    let ghost mut done: Seq<Field> = Seq::empty();
    loop
        invariant
            pos <= input.len(),
            fields_from(input@, 0) == done + fields_from(input@, pos as int),
            headers@ == pairs_map(header_pairs(input@, done)),
            any == (done.len() > 0),
            pos == if done.len() > 0 {
                done.last().next
            } else {
                0
            },
        ensures
            pos <= input.len(),
            fields_from(input@, 0) == done,
            headers@ == pairs_map(header_pairs(input@, done)),
            any == (done.len() > 0),
            pos == if done.len() > 0 {
                done.last().next
            } else {
                0
            },
        decreases input.len() - pos,
    {
        let field = match generic_field(input, pos) {
            Some(field) => field,
            None => {
                assert(done + Seq::<Field>::empty() =~= done);
                break ;
            },
        };
        let name = header_name_of(slice_subrange(input, field.start, field.name_end));
        let value = latin1_to_string(slice_subrange(input, field.value_start, field.value_end));
        headers.insert(name, value);
        proof {
            let longer = done.push(field@);
            assert(done + (seq![field@] + fields_from(input@, field.next as int)) =~= longer
                + fields_from(input@, field.next as int));
            assert(header_pairs(input@, longer).drop_last() =~= header_pairs(input@, done));
            done = longer;
        }
        pos = field.next;
        any = true;
    }
    if !any {
        return Err(Failure::MalformedHeaders);
    }
    match line_ending(input, pos) {
        Some(body_start) => {
            let body = slice_subrange(input, body_start, input.len());
            assert(input@.take(input@.len() - body@.len()) + body@ =~= input@);
            Ok((body, headers))
        },
        None => Err(Failure::MalformedHeaders),
    }
}

} // verus!
