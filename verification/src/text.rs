//! Text as sequences of characters: the models that the contracts of this
//! crate speak of, and the few string operations its logic needs.

use vstd::prelude::*;
use vstd::utf8::encode_utf8_decode_utf8;

verus! {

/// The text that a byte string stands for when every byte is read as the
/// code point of the same number (ISO-8859-1).
pub open spec fn latin1(bytes: Seq<u8>) -> Seq<char> {
    Seq::new(bytes.len(), |i: int| bytes[i] as char)
}

/// The lower-case form of an ASCII capital letter; any other byte unchanged.
pub open spec fn lower_byte(b: u8) -> u8 {
    if 0x41 <= b <= 0x5a {
        (b + 0x20) as u8
    } else {
        b
    }
}

/// A byte string with its ASCII capital letters in lower case.
pub open spec fn ascii_lowercase(bytes: Seq<u8>) -> Seq<u8> {
    Seq::new(bytes.len(), |i: int| lower_byte(bytes[i]))
}

/// What a list of pairs of strings holds, as pairs of texts.
pub open spec fn pair_views(pairs: Seq<(String, String)>) -> Seq<(Seq<char>, Seq<char>)> {
    Seq::new(pairs.len(), |i: int| (pairs[i].0@, pairs[i].1@))
}

/// A map with the pairs of a list set in it, one after another.
pub open spec fn extended(
    base: Map<Seq<char>, Seq<char>>,
    pairs: Seq<(Seq<char>, Seq<char>)>,
) -> Map<Seq<char>, Seq<char>>
    decreases pairs.len(),
{
    if pairs.len() == 0 {
        base
    } else {
        extended(base, pairs.drop_last()).insert(pairs.last().0, pairs.last().1)
    }
}

/// The map that a list of name and value pairs stands for. Where a name
/// occurs more than once, the value of its last occurrence stays.
pub open spec fn pairs_map(pairs: Seq<(Seq<char>, Seq<char>)>) -> Map<Seq<char>, Seq<char>> {
    extended(Map::empty(), pairs)
}

/// Appends one character to a string.
///
/// Trusted: `String::push` adds the given character at the end and leaves
/// what was there unchanged.
#[verifier::external_body]
pub(crate) fn push_char(s: &mut String, c: char)
    ensures
        final(s)@ == old(s)@.push(c),
{
    s.push(c)
}

/// Whether two strings hold the same text.
pub fn str_eq(a: &str, b: &str) -> (same: bool)
    ensures
        same == (a@ == b@),
{
    let x = a.as_bytes();
    let y = b.as_bytes();
    proof {
        encode_utf8_decode_utf8(a@);
        encode_utf8_decode_utf8(b@);
    }
    if x.len() != y.len() {
        return false;
    }
    let mut i: usize = 0;
    while i < x.len()
        invariant
            i <= x.len() == y.len(),
            forall|k: int| 0 <= k < i ==> x@[k] == y@[k],
            x@ != y@ ==> a@ != b@,
        decreases x.len() - i,
    {
        if x[i] != y[i] {
            return false;
        }
        i += 1;
    }
    assert(x@ =~= y@);
    true
}

/// The characters of a string, one by one.
pub fn chars_of(s: &str) -> (chars: Vec<char>)
    ensures
        chars@ == s@,
{
    let mut chars: Vec<char> = Vec::new();
    for c in it: s.chars()
        invariant
            chars@ == s@.take(it.index() as int),
            it.seq() == s@,
    {
        chars.push(c);
        assert(s@.take(it.index() + 1) =~= s@.take(it.index() as int).push(c));
    }
    assert(s@.take(s@.len() as int) =~= s@);
    chars
}

/// The string made of the characters `chars[from..to]`.
pub(crate) fn string_of(chars: &[char], from: usize, to: usize) -> (text: String)
    requires
        from <= to <= chars.len(),
    ensures
        text@ == chars@.subrange(from as int, to as int),
{
    let mut text = String::new();
    let mut i: usize = from;
    while i < to
        invariant
            from <= i <= to <= chars.len(),
            text@ == chars@.subrange(from as int, i as int),
        decreases to - i,
    {
        push_char(&mut text, chars[i]);
        i += 1;
        assert(text@ =~= chars@.subrange(from as int, i as int));
    }
    text
}

/// The two strings, one after the other.
pub fn concat(a: &str, b: &str) -> (text: String)
    ensures
        text@ == a@ + b@,
{
    let mut text = a.to_owned();
    text.append(b);
    text
}

/// Whether `s` begins with `prefix`.
pub fn starts_with(s: &str, prefix: &str) -> (found: bool)
    ensures
        found == prefix@.is_prefix_of(s@),
{
    let text = chars_of(s);
    let start = chars_of(prefix);
    if start.len() > text.len() {
        return false;
    }
    let mut i: usize = 0;
    while i < start.len()
        invariant
            i <= start.len() <= text.len(),
            text@ == s@,
            start@ == prefix@,
            forall|k: int| 0 <= k < i ==> start@[k] == text@[k],
        decreases start.len() - i,
    {
        if start[i] != text[i] {
            assert(text@.subrange(0, start@.len() as int)[i as int] != start@[i as int]);
            return false;
        }
        i += 1;
    }
    assert(start@ =~= text@.subrange(0, start@.len() as int));
    true
}

/// What follows `prefix` in `s`, where `s` begins with it.
pub fn strip_prefix(s: &str, prefix: &str) -> (rest: Option<String>)
    ensures
        match rest {
            Some(r) => prefix@.is_prefix_of(s@) && r@ == s@.skip(prefix@.len() as int),
            None => !prefix@.is_prefix_of(s@),
        },
{
    if starts_with(s, prefix) {
        let text = chars_of(s);
        let skipped: usize = prefix.unicode_len();
        Some(string_of(text.as_slice(), skipped, text.len()))
    } else {
        None
    }
}

/// Whether the character `c` occurs in `s`.
pub fn contains_char(s: &str, c: char) -> (found: bool)
    ensures
        found == s@.contains(c),
{
    let text = chars_of(s);
    let mut i: usize = 0;
    while i < text.len()
        invariant
            i <= text.len(),
            text@ == s@,
            forall|k: int| 0 <= k < i ==> text@[k] != c,
        decreases text.len() - i,
    {
        if text[i] == c {
            return true;
        }
        i += 1;
    }
    false
}

} // verus!
