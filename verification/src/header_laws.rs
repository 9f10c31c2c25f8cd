//! What holds of the header block parser for every input.
//!
//! The parser is specified by how it scans. The laws below tie that to the
//! written form of a header block: lines of a name, a colon, blanks, a value
//! and a line ending, followed by a blank line.

use crate::grammar::{
    blank_end, content_end, field_at, is_blank, is_content_byte, is_quoted_byte, is_separator,
    is_token_byte, lemma_field_at, lemma_run_end, lemma_run_end_is, line_ending_len, run_end,
    token_end, Field, COLON, CR, DQUOTE, LF,
};
use crate::header_map::{lemma_pairs_map_last, lemma_pairs_map_len, names_distinct};
use crate::headers::{block_headers, fields_from, header_block, header_name, header_pairs};
use crate::text::{ascii_lowercase, latin1, lower_byte, pairs_map};
use vstd::prelude::*;

verus! {

/// A header line as it is written.
pub struct HeaderLine {
    /// The name.
    pub name: Seq<u8>,
    /// The spaces and tabs between the colon and the value.
    pub blanks: Seq<u8>,
    /// The value.
    pub value: Seq<u8>,
    /// The line ending.
    pub ending: Seq<u8>,
}

/// A line feed, or a carriage return and a line feed.
pub open spec fn is_line_ending(bytes: Seq<u8>) -> bool {
    bytes == seq![LF] || bytes == seq![CR, LF]
}

/// Whether every byte is a token byte.
pub open spec fn all_token_bytes(bytes: Seq<u8>) -> bool {
    forall|i: int| 0 <= i < bytes.len() ==> is_token_byte(#[trigger] bytes[i])
}

/// Whether every byte is a space or a tab.
pub open spec fn all_blank(bytes: Seq<u8>) -> bool {
    forall|i: int| 0 <= i < bytes.len() ==> is_blank(#[trigger] bytes[i])
}

/// Whether every byte may stand in a value.
pub open spec fn all_content_bytes(bytes: Seq<u8>) -> bool {
    forall|i: int| 0 <= i < bytes.len() ==> is_content_byte(#[trigger] bytes[i])
}

/// A quoted string: a quote, quotable bytes, a quote.
pub open spec fn is_quoted_string(bytes: Seq<u8>) -> bool {
    &&& bytes.len() >= 2
    &&& bytes[0] == DQUOTE
    &&& bytes[bytes.len() - 1] == DQUOTE
    &&& forall|i: int| 0 < i < bytes.len() - 1 ==> is_quoted_byte(#[trigger] bytes[i])
}

/// Whether two names are the same but for the case of their ASCII letters.
pub open spec fn same_ignoring_case(a: Seq<u8>, b: Seq<u8>) -> bool {
    a.len() == b.len() && forall|i: int| 0 <= i < a.len() ==> lower_byte(a[i]) == lower_byte(b[i])
}

impl HeaderLine {
    /// Whether the line follows the grammar: the name is a token, the value
    /// holds content bytes only and does not begin with a blank.
    pub open spec fn well_formed(self) -> bool {
        &&& self.name.len() > 0
        &&& all_token_bytes(self.name)
        &&& all_blank(self.blanks)
        &&& all_content_bytes(self.value)
        &&& self.value.len() > 0 ==> !is_blank(self.value[0])
        &&& is_line_ending(self.ending)
    }

    /// The bytes of the line.
    pub open spec fn bytes(self) -> Seq<u8> {
        self.name + seq![COLON] + self.blanks + self.value + self.ending
    }
}

/// The bytes of lines that follow one another.
pub open spec fn lines_bytes(lines: Seq<HeaderLine>) -> Seq<u8>
    decreases lines.len(),
{
    if lines.len() == 0 {
        Seq::empty()
    } else {
        lines[0].bytes() + lines_bytes(lines.drop_first())
    }
}

/// The names and values that lines give, in their order.
pub open spec fn lines_pairs(lines: Seq<HeaderLine>) -> Seq<(Seq<char>, Seq<char>)> {
    Seq::new(lines.len(), |i: int| (header_name(lines[i].name), latin1(lines[i].value)))
}

/// Whether every line follows the grammar.
pub open spec fn all_well_formed(lines: Seq<HeaderLine>) -> bool {
    forall|i: int| 0 <= i < lines.len() ==> (#[trigger] lines[i]).well_formed()
}

/// A well-formed line that stands at `at` is scanned as the line it is.
proof fn lemma_line_scans(s: Seq<u8>, at: int, line: HeaderLine)
    requires
        0 <= at,
        at + line.bytes().len() <= s.len(),
        s.subrange(at, at + line.bytes().len()) == line.bytes(),
        line.well_formed(),
    ensures
        field_at(s, at) matches Some(f) && f.start == at && f.next == at + line.bytes().len()
            && f.name(s) == line.name && f.value(s) == line.value,
{
    let bytes = line.bytes();
    let name_end = at + line.name.len();
    let value_start = name_end + 1 + line.blanks.len();
    let value_end = value_start + line.value.len();
    assert forall|k: int| 0 <= k < bytes.len() implies s[at + k] == bytes[k] by {
        assert(s.subrange(at, at + bytes.len())[k] == s[at + k]);
    }
    assert forall|i: int| at <= i < name_end implies is_token_byte(#[trigger] s[i]) by {
        assert(s[i] == bytes[i - at]);
        assert(bytes[i - at] == line.name[i - at]);
    }
    assert(s[name_end] == COLON) by {
        assert(s[name_end] == bytes[name_end - at]);
    }
    lemma_run_end_is(s, at, name_end, |b: u8| is_token_byte(b));
    assert forall|i: int| name_end + 1 <= i < value_start implies is_blank(#[trigger] s[i]) by {
        assert(s[i] == bytes[i - at]);
        assert(bytes[i - at] == line.blanks[i - name_end - 1]);
    }
    assert forall|i: int| value_start <= i < value_end implies is_content_byte(
        #[trigger] s[i],
    ) by {
        assert(s[i] == bytes[i - at]);
        assert(bytes[i - at] == line.value[i - value_start]);
    }
    assert(s[value_end] == bytes[value_end - at]);
    assert(bytes[value_end - at] == line.ending[0]);
    if line.ending.len() == 2 {
        assert(s[value_end + 1] == bytes[value_end + 1 - at]);
        assert(bytes[value_end + 1 - at] == line.ending[1]);
    }
    if line.value.len() > 0 {
        assert(s[value_start] == bytes[value_start - at]);
        assert(bytes[value_start - at] == line.value[0]);
    }
    lemma_run_end_is(s, name_end + 1, value_start, |b: u8| is_blank(b));
    lemma_run_end_is(s, value_start, value_end, |b: u8| is_content_byte(b));
    assert(token_end(s, at) == name_end);
    assert(blank_end(s, name_end + 1) == value_start);
    assert(content_end(s, value_start) == value_end);
    assert(line_ending_len(s, value_end) == line.ending.len());
    let f = field_at(s, at)->Some_0;
    assert(f.name(s) =~= line.name) by {
        assert forall|k: int| 0 <= k < line.name.len() implies s[at + k] == line.name[k] by {
            assert(bytes[k] == line.name[k]);
        }
    }
    assert(f.value(s) =~= line.value) by {
        assert forall|k: int| 0 <= k < line.value.len() implies s[value_start + k]
            == line.value[k] by {
            assert(s[value_start + k] == bytes[value_start - at + k]);
            assert(bytes[value_start - at + k] == line.value[k]);
        }
    }
}

/// Well-formed lines that stand at `at`, with no header line after them, are
/// scanned as the lines they are.
proof fn lemma_lines_scan(s: Seq<u8>, at: int, lines: Seq<HeaderLine>)
    requires
        0 <= at,
        at + lines_bytes(lines).len() <= s.len(),
        s.subrange(at, at + lines_bytes(lines).len()) == lines_bytes(lines),
        all_well_formed(lines),
        field_at(s, at + lines_bytes(lines).len()) is None,
    ensures
        fields_from(s, at).len() == lines.len(),
        header_pairs(s, fields_from(s, at)) == lines_pairs(lines),
        lines.len() > 0 ==> fields_from(s, at).last().next == at + lines_bytes(lines).len(),
    decreases lines.len(),
{
    if lines.len() == 0 {
        assert(header_pairs(s, fields_from(s, at)) =~= lines_pairs(lines));
    } else {
        let first = lines[0];
        let rest = lines.drop_first();
        let all = lines_bytes(lines);
        let next = at + first.bytes().len();
        assert(first.well_formed());
        assert(s.subrange(at, next) =~= first.bytes()) by {
            assert(s.subrange(at, next) =~= s.subrange(at, at + all.len()).subrange(
                0,
                first.bytes().len() as int,
            ));
        }
        assert(s.subrange(next, next + lines_bytes(rest).len()) =~= lines_bytes(rest)) by {
            assert(s.subrange(next, next + lines_bytes(rest).len()) =~= s.subrange(
                at,
                at + all.len(),
            ).subrange(first.bytes().len() as int, all.len() as int));
        }
        assert forall|i: int| 0 <= i < rest.len() implies (#[trigger] rest[i]).well_formed() by {
            assert(lines[i + 1].well_formed());
        }
        lemma_line_scans(s, at, first);
        lemma_lines_scan(s, next, rest);
        let f = field_at(s, at)->Some_0;
        let fields = fields_from(s, at);
        let tail = fields_from(s, next);
        assert(fields == seq![f] + tail);
        assert(header_pairs(s, fields) =~= lines_pairs(lines)) by {
            assert forall|i: int| 0 <= i < lines.len() implies header_pairs(s, fields)[i]
                == lines_pairs(lines)[i] by {
                if i > 0 {
                    assert(fields[i] == tail[i - 1]);
                    assert(header_pairs(s, tail)[i - 1] == lines_pairs(rest)[i - 1]);
                    assert(rest[i - 1] == lines[i]);
                }
            }
        }
        if rest.len() > 0 {
            assert(fields.last() == tail.last());
        }
    }
}

/// Every well-formed header block is accepted, and gives what it holds.
///
/// For any header lines that follow the grammar, at least one, then a blank
/// line, then any body: the parser finds as many fields as there are lines;
/// the headers are those of the lines, the last value staying where a name
/// repeats; the body is what follows the blank line. The headers are at most
/// as many as the lines, and exactly as many where no name repeats.
pub proof fn law_well_formed_block_is_parsed(
    lines: Seq<HeaderLine>,
    blank: Seq<u8>,
    body: Seq<u8>,
)
    requires
        lines.len() > 0,
        all_well_formed(lines),
        is_line_ending(blank),
    ensures
        ({
            let input = lines_bytes(lines) + blank + body;
            &&& header_block(input) matches Some(block)
            &&& block.fields.len() == lines.len()
            &&& block.body_start == lines_bytes(lines).len() + blank.len()
            &&& input.skip(block.body_start) == body
            &&& block_headers(input, block) == pairs_map(lines_pairs(lines))
            &&& block_headers(input, block).dom().finite()
            &&& block_headers(input, block).len() <= lines.len()
            &&& block_headers(input, block).len() == lines.len() <==> names_distinct(
                lines_pairs(lines),
            )
        }),
{
    let head = lines_bytes(lines);
    let input = head + blank + body;
    let end = head.len() as int;
    assert(input.subrange(0, end) =~= head);
    assert(input[end] == blank[0]);
    if blank.len() == 2 {
        assert(input[end + 1] == blank[1]);
    }
    assert(field_at(input, end) is None) by {
        lemma_run_end_is(input, end, end, |b: u8| is_token_byte(b));
    }
    lemma_lines_scan(input, 0, lines);
    assert(line_ending_len(input, end) == blank.len());
    assert(input.skip(end + blank.len()) =~= body);
    lemma_pairs_map_len(lines_pairs(lines));
}

/// Names that differ only in the case of their ASCII letters are one name:
/// two names are kept under the same name exactly if they are the same but
/// for case.
pub proof fn law_names_ignore_case(a: Seq<u8>, b: Seq<u8>)
    ensures
        same_ignoring_case(a, b) <==> header_name(a) == header_name(b),
{
    if same_ignoring_case(a, b) {
        assert(header_name(a) =~= header_name(b));
    }
    if header_name(a) == header_name(b) {
        assert(a.len() == header_name(a).len());
        assert(b.len() == header_name(b).len());
        assert forall|i: int| 0 <= i < a.len() implies lower_byte(a[i]) == lower_byte(b[i]) by {
            assert(header_name(a)[i] == lower_byte(a[i]) as char);
            assert(header_name(b)[i] == lower_byte(b[i]) as char);
            assert(ascii_lowercase(a)[i] == lower_byte(a[i]));
        }
    }
}

/// Where a name repeats, the last value stays.
///
/// For a well-formed block and any line of it after which no line has the
/// same name but for case: under the name of that line stands its value.
pub proof fn law_last_value_stays(
    lines: Seq<HeaderLine>,
    blank: Seq<u8>,
    body: Seq<u8>,
    j: int,
)
    requires
        all_well_formed(lines),
        is_line_ending(blank),
        0 <= j < lines.len(),
        forall|k: int| j < k < lines.len() ==> !same_ignoring_case(lines[k].name, lines[j].name),
    ensures
        ({
            let input = lines_bytes(lines) + blank + body;
            &&& header_block(input) matches Some(block)
            &&& block_headers(input, block).contains_key(header_name(lines[j].name))
            &&& block_headers(input, block)[header_name(lines[j].name)] == latin1(lines[j].value)
        }),
{
    law_well_formed_block_is_parsed(lines, blank, body);
    let pairs = lines_pairs(lines);
    assert forall|k: int| j < k < pairs.len() implies (#[trigger] pairs[k]).0 != pairs[j].0 by {
        law_names_ignore_case(lines[k].name, lines[j].name);
    }
    lemma_pairs_map_last(pairs, j);
}

/// Lines whose names differ only in case give one header, with the value of
/// the last of them.
///
/// For a well-formed block in which two lines have the same name but for
/// case, the later of them being the last with that name: the headers are
/// fewer than the lines, and under that name stands the value of the later
/// line.
pub proof fn law_same_name_gives_one_header(
    lines: Seq<HeaderLine>,
    blank: Seq<u8>,
    body: Seq<u8>,
    i: int,
    j: int,
)
    requires
        all_well_formed(lines),
        is_line_ending(blank),
        0 <= i < j < lines.len(),
        same_ignoring_case(lines[i].name, lines[j].name),
        forall|k: int| j < k < lines.len() ==> !same_ignoring_case(lines[k].name, lines[j].name),
    ensures
        ({
            let input = lines_bytes(lines) + blank + body;
            &&& header_block(input) matches Some(block)
            &&& block_headers(input, block).dom().finite()
            &&& block_headers(input, block).len() < lines.len()
            &&& block_headers(input, block).contains_key(header_name(lines[i].name))
            &&& block_headers(input, block)[header_name(lines[i].name)] == latin1(lines[j].value)
        }),
{
    law_well_formed_block_is_parsed(lines, blank, body);
    law_last_value_stays(lines, blank, body, j);
    let pairs = lines_pairs(lines);
    law_names_ignore_case(lines[i].name, lines[j].name);
    assert(pairs[i].0 == pairs[j].0);
    lemma_pairs_map_len(pairs);
}

/// A quoted string holds content bytes only.
pub proof fn lemma_quoted_string_is_content(quoted: Seq<u8>)
    requires
        is_quoted_string(quoted),
    ensures
        all_content_bytes(quoted),
        !is_blank(quoted[0]),
{
    assert forall|i: int| 0 <= i < quoted.len() implies is_content_byte(#[trigger] quoted[i]) by {
        if 0 < i < quoted.len() - 1 {
            assert(is_quoted_byte(quoted[i]));
        }
    }
}

/// One of the parts that a value is made of: a token, a single separator,
/// or a quoted string.
pub open spec fn is_value_part(bytes: Seq<u8>) -> bool {
    ||| bytes.len() > 0 && all_token_bytes(bytes)
    ||| bytes.len() == 1 && is_separator(bytes[0])
    ||| is_quoted_string(bytes)
}

/// The bytes of parts that follow one another.
pub open spec fn joined(parts: Seq<Seq<u8>>) -> Seq<u8>
    decreases parts.len(),
{
    if parts.len() == 0 {
        Seq::empty()
    } else {
        joined(parts.drop_last()) + parts.last()
    }
}

/// Whether every part is a token, a separator or a quoted string.
pub open spec fn all_value_parts(parts: Seq<Seq<u8>>) -> bool {
    forall|i: int| 0 <= i < parts.len() ==> is_value_part(#[trigger] parts[i])
}

/// Tokens, separators and quoted strings that follow one another hold
/// content bytes only, so that a value made of them is kept whole.
pub proof fn law_value_parts_are_content(parts: Seq<Seq<u8>>)
    requires
        all_value_parts(parts),
    ensures
        all_content_bytes(joined(parts)),
    decreases parts.len(),
{
    if parts.len() > 0 {
        let front = parts.drop_last();
        let last = parts.last();
        assert forall|i: int| 0 <= i < front.len() implies is_value_part(#[trigger] front[i]) by {
            assert(is_value_part(parts[i]));
        }
        law_value_parts_are_content(front);
        assert(is_value_part(last));
        if is_quoted_string(last) {
            lemma_quoted_string_is_content(last);
        }
        assert forall|i: int| 0 <= i < joined(parts).len() implies is_content_byte(
            #[trigger] joined(parts)[i],
        ) by {
            if i < joined(front).len() {
                assert(joined(parts)[i] == joined(front)[i]);
            } else {
                assert(joined(parts)[i] == last[i - joined(front).len()]);
            }
        }
    }
}

/// Content bytes are made of tokens and separators: every run of content
/// bytes can be written as parts that follow one another.
pub proof fn law_content_is_value_parts(value: Seq<u8>)
    requires
        all_content_bytes(value),
    ensures
        all_value_parts(Seq::new(value.len(), |i: int| seq![value[i]])),
        joined(Seq::new(value.len(), |i: int| seq![value[i]])) == value,
    decreases value.len(),
{
    let parts = Seq::new(value.len(), |i: int| seq![value[i]]);
    assert forall|i: int| 0 <= i < parts.len() implies is_value_part(#[trigger] parts[i]) by {
        assert(is_content_byte(value[i]));
        assert(parts[i][0] == value[i]);
    }
    if value.len() > 0 {
        let front = value.drop_last();
        assert forall|i: int| 0 <= i < front.len() implies is_content_byte(#[trigger] front[i]) by {
            assert(is_content_byte(value[i]));
        }
        law_content_is_value_parts(front);
        assert(parts.drop_last() =~= Seq::new(front.len(), |i: int| seq![front[i]]));
        assert(joined(parts) =~= value);
    }
}

/// A quoted string in a value is kept as it is written, quotes and
/// separators included.
///
/// For a line whose value holds a quoted string, with content bytes before
/// and after it: the header has the whole value, byte for byte, in which
/// the quoted string stands with both of its quotes.
pub proof fn law_quoted_string_is_kept(
    line: HeaderLine,
    before: Seq<u8>,
    quoted: Seq<u8>,
    after: Seq<u8>,
    blank: Seq<u8>,
    body: Seq<u8>,
)
    requires
        line.name.len() > 0,
        all_token_bytes(line.name),
        all_blank(line.blanks),
        is_line_ending(line.ending),
        line.value == before + quoted + after,
        all_content_bytes(before),
        before.len() > 0 ==> !is_blank(before[0]),
        is_quoted_string(quoted),
        all_content_bytes(after),
        is_line_ending(blank),
    ensures
        ({
            let input = line.bytes() + blank + body;
            let value = latin1(before) + latin1(quoted) + latin1(after);
            &&& header_block(input) matches Some(block)
            &&& block_headers(input, block) == Map::<Seq<char>, Seq<char>>::empty().insert(
                header_name(line.name),
                value,
            )
            &&& latin1(quoted).first() == '"'
            &&& latin1(quoted).last() == '"'
            &&& input.skip(block.body_start) == body
        }),
{
    lemma_quoted_string_is_content(quoted);
    assert forall|i: int| 0 <= i < line.value.len() implies is_content_byte(
        #[trigger] line.value[i],
    ) by {
        if i < before.len() {
            assert(line.value[i] == before[i]);
        } else if i < before.len() + quoted.len() {
            assert(line.value[i] == quoted[i - before.len()]);
        } else {
            assert(line.value[i] == after[i - before.len() - quoted.len()]);
        }
    }
    assert(line.value[0] == if before.len() > 0 {
        before[0]
    } else {
        quoted[0]
    });
    let lines = seq![line];
    assert(lines.drop_first() =~= Seq::<HeaderLine>::empty());
    assert(lines_bytes(lines) =~= line.bytes()) by {
        assert(lines_bytes(lines.drop_first()) =~= Seq::<u8>::empty());
    }
    law_well_formed_block_is_parsed(lines, blank, body);
    let pairs = lines_pairs(lines);
    assert(pairs.drop_last() =~= Seq::<(Seq<char>, Seq<char>)>::empty());
    assert(pairs.last() == (header_name(line.name), latin1(line.value)));
    assert(pairs_map(pairs.drop_last()) =~= Map::<Seq<char>, Seq<char>>::empty());
    assert(latin1(line.value) =~= latin1(before) + latin1(quoted) + latin1(after));
    assert(lines_bytes(lines) + blank + body =~= line.bytes() + blank + body);
}

/// A response that begins with a line ending is refused: no header stands
/// before the blank line.
pub proof fn law_block_without_headers_is_refused(input: Seq<u8>)
    requires
        line_ending_len(input, 0) > 0,
    ensures
        header_block(input) is None,
{
    lemma_run_end_is(input, 0, 0, |b: u8| is_token_byte(b));
}

/// A name with a forbidden byte is refused.
///
/// After any well-formed lines comes a line whose name holds a byte that is
/// no token byte. The response is refused, with two exceptions that the
/// conditions leave out: a name whose first forbidden byte is a colon after
/// at least one token byte is read as a shorter name, and a name that begins
/// with a line ending after at least one line is read as the blank line.
pub proof fn law_forbidden_byte_in_name_is_refused(
    lines: Seq<HeaderLine>,
    name: Seq<u8>,
    rest: Seq<u8>,
)
    requires
        all_well_formed(lines),
        !all_token_bytes(name),
        token_end(name, 0) == 0 || name[token_end(name, 0)] != COLON,
        lines.len() > 0 ==> line_ending_len(name + seq![COLON] + rest, 0) == 0,
    ensures
        header_block(lines_bytes(lines) + name + seq![COLON] + rest) is None,
{
    let head = lines_bytes(lines);
    let tail = name + seq![COLON] + rest;
    let input = head + name + seq![COLON] + rest;
    let end = head.len() as int;
    assert(input =~= head + tail);
    let stop = token_end(name, 0);
    lemma_run_end(name, 0, |b: u8| is_token_byte(b));
    assert(stop < name.len()) by {
        if stop == name.len() {
            assert(all_token_bytes(name));
        }
    }
    assert forall|k: int| 0 <= k < tail.len() implies input[end + k] == tail[k] by {}
    assert forall|i: int| end <= i < end + stop implies is_token_byte(#[trigger] input[i]) by {
        assert(input[i] == tail[i - end]);
        assert(tail[i - end] == name[i - end]);
    }
    assert(input[end + stop] == name[stop]) by {
        assert(input[end + stop] == tail[stop]);
    }
    lemma_run_end_is(input, end, end + stop, |b: u8| is_token_byte(b));
    assert(field_at(input, end) is None);
    assert(input.subrange(0, end) =~= head);
    lemma_lines_scan(input, 0, lines);
    if lines.len() > 0 {
        assert(line_ending_len(input, end) == 0) by {
            assert(input[end] == tail[0]);
            if tail.len() > 1 {
                assert(input[end + 1] == tail[1]);
            }
        }
    }
}

/// A response that ends after its header lines is refused: the blank line
/// is missing.
pub proof fn law_block_without_blank_line_is_refused(lines: Seq<HeaderLine>)
    requires
        all_well_formed(lines),
    ensures
        header_block(lines_bytes(lines)) is None,
{
    let input = lines_bytes(lines);
    let end = input.len() as int;
    assert(input.subrange(0, end) =~= input);
    lemma_run_end_is(input, end, end, |b: u8| is_token_byte(b));
    lemma_lines_scan(input, 0, lines);
}

/// The fields that are scanned from `from` on follow one another, and each
/// ends with a line feed.
proof fn lemma_fields_end_with_line_feed(s: Seq<u8>, from: int)
    ensures
        fields_from(s, from).len() > 0 ==> {
            let last = fields_from(s, from).last();
            from < last.next <= s.len() && s[last.next - 1] == LF
        },
    decreases s.len() - from,
{
    lemma_field_at(s, from);
    match field_at(s, from) {
        Some(f) => {
            lemma_fields_end_with_line_feed(s, f.next);
            let tail = fields_from(s, f.next);
            assert(fields_from(s, from) == seq![f] + tail);
            if tail.len() > 0 {
                assert(fields_from(s, from).last() == tail.last());
            } else {
                assert(fields_from(s, from).last() == f);
            }
        },
        None => {},
    }
}

/// Every response that is accepted holds a blank line, and its body starts
/// right after the first one that follows a header line: a line feed that
/// ends a header line, and at once another line ending.
pub proof fn law_accepted_block_has_blank_line(input: Seq<u8>)
    ensures
        header_block(input) matches Some(block) ==> exists|at: int|
            0 < at < block.body_start <= input.len() && input[at - 1] == LF
                && #[trigger] line_ending_len(input, at) == block.body_start - at,
{
    if let Some(block) = header_block(input) {
        lemma_fields_end_with_line_feed(input, 0);
        let at = block.fields.last().next;
        assert(line_ending_len(input, at) == block.body_start - at);
    }
}

/// Where the header lines that are scanned from `from` on end.
pub open spec fn fields_end(s: Seq<u8>, from: int) -> int {
    if fields_from(s, from).len() > 0 {
        fields_from(s, from).last().next
    } else {
        from
    }
}

/// A run that ends inside the first `n` bytes is the same run in them.
proof fn lemma_run_end_in_prefix(s: Seq<u8>, n: int, from: int, accept: spec_fn(u8) -> bool)
    requires
        0 <= from,
        run_end(s, from, accept) <= n <= s.len(),
    ensures
        run_end(s.take(n), from, accept) == run_end(s, from, accept),
{
    lemma_run_end(s, from, accept);
    let end = run_end(s, from, accept);
    assert forall|i: int| from <= i < end implies accept(#[trigger] s.take(n)[i]) by {
        assert(accept(s[i]));
    }
    lemma_run_end_is(s.take(n), from, end, accept);
}

/// A header line that ends inside the first `n` bytes is the same line in
/// them.
proof fn lemma_field_in_prefix(s: Seq<u8>, n: int, from: int)
    requires
        field_at(s, from) is Some,
        field_at(s, from)->Some_0.next <= n <= s.len(),
    ensures
        field_at(s.take(n), from) == field_at(s, from),
{
    lemma_field_at(s, from);
    let f = field_at(s, from)->Some_0;
    lemma_run_end_in_prefix(s, n, from, |b: u8| is_token_byte(b));
    lemma_run_end_in_prefix(s, n, f.name_end + 1, |b: u8| is_blank(b));
    lemma_run_end_in_prefix(s, n, f.value_start, |b: u8| is_content_byte(b));
    assert(s.take(n)[f.name_end] == s[f.name_end]);
    assert(s.take(n)[f.value_end] == s[f.value_end]);
    if f.next - f.value_end == 2 {
        assert(s.take(n)[f.value_end + 1] == s[f.value_end + 1]);
    }
}

/// Header lines that end inside the first `n` bytes, where no further line
/// starts in them, are the same lines in them, with the same names and
/// values.
proof fn lemma_fields_in_prefix(s: Seq<u8>, n: int, from: int)
    requires
        0 <= from,
        fields_end(s, from) <= n <= s.len(),
        field_at(s.take(n), fields_end(s, from)) is None,
    ensures
        fields_from(s.take(n), from) == fields_from(s, from),
        header_pairs(s.take(n), fields_from(s, from)) == header_pairs(s, fields_from(s, from)),
    decreases s.len() - from,
{
    lemma_field_at(s, from);
    lemma_fields_end_with_line_feed(s, from);
    match field_at(s, from) {
        Some(f) => {
            let tail = fields_from(s, f.next);
            let fields = fields_from(s, from);
            assert(fields == seq![f] + tail);
            lemma_fields_end_with_line_feed(s, f.next);
            assert(fields_end(s, from) == fields_end(s, f.next)) by {
                if tail.len() > 0 {
                    assert(fields.last() == tail.last());
                } else {
                    assert(fields.last() == f);
                }
            }
            lemma_field_in_prefix(s, n, from);
            lemma_fields_in_prefix(s, n, f.next);
            assert(fields_from(s.take(n), from) == seq![f] + fields_from(s.take(n), f.next));
            assert(f.name(s.take(n)) =~= f.name(s));
            assert(f.value(s.take(n)) =~= f.value(s));
            assert(header_pairs(s.take(n), fields) =~= header_pairs(s, fields)) by {
                assert forall|i: int| 0 <= i < fields.len() implies header_pairs(
                    s.take(n),
                    fields,
                )[i] == header_pairs(s, fields)[i] by {
                    if i > 0 {
                        assert(fields[i] == tail[i - 1]);
                        assert(header_pairs(s.take(n), tail)[i - 1] == header_pairs(s, tail)[i
                            - 1]);
                    }
                }
            }
        },
        None => {
            assert(header_pairs(s.take(n), fields_from(s, from)) =~= header_pairs(
                s,
                fields_from(s, from),
            ));
        },
    }
}

/// The header span of an accepted response is a response of its own, with
/// the same headers and an empty body.
///
/// For every response that is accepted: the bytes before its body are
/// accepted too, as the same block with the same headers, and nothing is
/// left for a body.
pub proof fn law_header_span_parses_alike(input: Seq<u8>)
    ensures
        header_block(input) matches Some(block) ==> {
            let span = input.take(block.body_start);
            &&& 0 < block.body_start <= input.len()
            &&& header_block(span) == Some(block)
            &&& block_headers(span, block) == block_headers(input, block)
            &&& span.skip(block.body_start) == Seq::<u8>::empty()
            &&& span + input.skip(block.body_start) == input
        },
{
    if let Some(block) = header_block(input) {
        lemma_fields_end_with_line_feed(input, 0);
        let end = block.fields.last().next;
        let n = block.body_start;
        let span = input.take(n);
        assert(fields_end(input, 0) == end);
        assert(span[end] == input[end]);
        if n - end == 2 {
            assert(span[end + 1] == input[end + 1]);
        }
        assert(field_at(span, end) is None) by {
            lemma_run_end_is(span, end, end, |b: u8| is_token_byte(b));
        }
        lemma_fields_in_prefix(input, n, 0);
        assert(line_ending_len(span, end) == line_ending_len(input, end));
        assert(span.skip(n) =~= Seq::<u8>::empty());
        assert(span + input.skip(n) =~= input);
    }
}

} // verus!
