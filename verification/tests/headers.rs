use fastcgi_cli::failure::Failure;
use fastcgi_cli::grammar::{field_content, generic_field, quoted_string, separator, token};
use fastcgi_cli::header_map::HeaderMap;
use fastcgi_cli::headers::{header_name_of, latin1_to_string, parse_headers};

fn value_of<'a>(headers: &'a HeaderMap, name: &str) -> Option<&'a str> {
    headers.get(name).map(|value| value.as_str())
}

#[test]
fn splits_headers_from_body() {
    let (body, headers) = parse_headers(b"Content-Type: text/html\r\n\r\n<html/>").unwrap();
    assert_eq!(body, b"<html/>");
    assert_eq!(headers.len(), 1);
    assert_eq!(value_of(&headers, "content-type"), Some("text/html"));
}

#[test]
fn every_line_gives_one_entry() {
    let input = b"A: 1\r\nB: 2\r\nC: 3\r\n\r\nrest\r\n\r\nmore";
    let (body, headers) = parse_headers(input).unwrap();
    assert_eq!(body, b"rest\r\n\r\nmore");
    assert_eq!(headers.len(), 3);
    assert_eq!(value_of(&headers, "a"), Some("1"));
    assert_eq!(value_of(&headers, "b"), Some("2"));
    assert_eq!(value_of(&headers, "c"), Some("3"));
    assert_eq!(value_of(&headers, "d"), None);
}

#[test]
fn header_block_and_body_make_up_the_input() {
    let input: &[u8] = b"X-One: 1\nX-Two: 2\r\n\nbody bytes\x00\xff";
    let (body, _) = parse_headers(input).unwrap();
    let block = &input[..input.len() - body.len()];
    assert_eq!(block, b"X-One: 1\nX-Two: 2\r\n\n");
    assert_eq!([block, body].concat(), input);
}

#[test]
fn an_empty_body_is_a_body() {
    let (body, headers) = parse_headers(b"A: b\r\n\r\n").unwrap();
    assert_eq!(body, b"");
    assert_eq!(value_of(&headers, "a"), Some("b"));
}

#[test]
fn names_are_kept_in_lower_case() {
    let (_, headers) = parse_headers(b"X-Thing: 1\r\nx-thing: 2\r\nX-THING: 3\r\n\r\n").unwrap();
    assert_eq!(headers.len(), 1);
    assert_eq!(value_of(&headers, "x-thing"), Some("3"));
    assert_eq!(value_of(&headers, "X-Thing"), None);
}

#[test]
fn the_last_value_of_a_name_stays() {
    let (_, headers) = parse_headers(b"a: first\r\nb: other\r\na: second\r\n\r\n").unwrap();
    assert_eq!(headers.len(), 2);
    assert_eq!(value_of(&headers, "a"), Some("second"));
    assert_eq!(value_of(&headers, "b"), Some("other"));
}

#[test]
fn quoted_strings_are_kept_with_their_quotes() {
    let (_, headers) =
        parse_headers(b"Content-Disposition: attachment; filename=\"a b;c,d.txt\"\r\n\r\n").unwrap();
    assert_eq!(
        value_of(&headers, "content-disposition"),
        Some("attachment; filename=\"a b;c,d.txt\"")
    );
}

#[test]
fn a_quote_without_its_pair_is_kept_too() {
    let (_, headers) = parse_headers(b"X: say \"hi\r\n\r\n").unwrap();
    assert_eq!(value_of(&headers, "x"), Some("say \"hi"));
}

#[test]
fn blanks_before_a_value_are_dropped_and_those_after_it_kept() {
    let (_, headers) = parse_headers(b"A: \t  b c \t\r\nB:d\r\nC:\r\n\r\n").unwrap();
    assert_eq!(value_of(&headers, "a"), Some("b c \t"));
    assert_eq!(value_of(&headers, "b"), Some("d"));
    assert_eq!(value_of(&headers, "c"), Some(""));
}

#[test]
fn bytes_above_ascii_are_read_as_latin1() {
    let (_, headers) = parse_headers(b"N\xc9: caf\xe9\r\n\r\n").unwrap();
    assert_eq!(headers.len(), 1);
    assert_eq!(value_of(&headers, "n\u{c9}"), Some("caf\u{e9}"));
}

#[test]
fn a_line_feed_alone_ends_a_line() {
    let (body, headers) = parse_headers(b"A: 1\nB: 2\n\nrest").unwrap();
    assert_eq!(body, b"rest");
    assert_eq!(headers.len(), 2);
}

#[test]
fn a_body_that_looks_like_headers_is_left_alone() {
    let (body, headers) = parse_headers(b"A: 1\r\n\r\nB: 2\r\n\r\n").unwrap();
    assert_eq!(body, b"B: 2\r\n\r\n");
    assert_eq!(headers.len(), 1);
}

#[test]
fn refuses_a_block_without_headers() {
    assert_eq!(parse_headers(b"\r\nbody").err(), Some(Failure::MalformedHeaders));
    assert_eq!(parse_headers(b"\n").err(), Some(Failure::MalformedHeaders));
    assert_eq!(parse_headers(b"").err(), Some(Failure::MalformedHeaders));
}

#[test]
fn refuses_a_name_with_a_forbidden_byte() {
    assert_eq!(parse_headers(b"Bad Name: x\r\n\r\n").err(), Some(Failure::MalformedHeaders));
    assert_eq!(parse_headers(b"Bad(Name): x\r\n\r\n").err(), Some(Failure::MalformedHeaders));
    assert_eq!(parse_headers(b"Bad\x01: x\r\n\r\n").err(), Some(Failure::MalformedHeaders));
    assert_eq!(parse_headers(b"A: 1\r\nB\x7f: x\r\n\r\n").err(), Some(Failure::MalformedHeaders));
    assert_eq!(parse_headers(b": x\r\n\r\n").err(), Some(Failure::MalformedHeaders));
}

#[test]
fn refuses_a_block_without_the_blank_line() {
    assert_eq!(parse_headers(b"A: 1\r\n").err(), Some(Failure::MalformedHeaders));
    assert_eq!(parse_headers(b"A: 1\r\nB: 2\r\n").err(), Some(Failure::MalformedHeaders));
    assert_eq!(parse_headers(b"A: 1").err(), Some(Failure::MalformedHeaders));
    assert_eq!(parse_headers(b"A: 1\r\nbody").err(), Some(Failure::MalformedHeaders));
}

#[test]
fn refuses_control_bytes_in_a_value() {
    assert_eq!(parse_headers(b"A: 1\x002\r\n\r\n").err(), Some(Failure::MalformedHeaders));
    assert_eq!(parse_headers(b"A: 1\r2\r\n\r\n").err(), Some(Failure::MalformedHeaders));
    assert_eq!(parse_headers(b"A: 1\r\r\n\r\n").err(), Some(Failure::MalformedHeaders));
}

#[test]
fn decodes_every_byte_as_its_code_point() {
    assert_eq!(latin1_to_string(b"abc"), "abc");
    assert_eq!(latin1_to_string(&[0xe9, 0xff, 0x00, 0x80]), "\u{e9}\u{ff}\u{0}\u{80}");
    assert_eq!(latin1_to_string(b""), "");
    let all: Vec<u8> = (0..=255).collect();
    let text = latin1_to_string(&all);
    assert_eq!(text.chars().count(), 256);
    for (i, c) in text.chars().enumerate() {
        assert_eq!(c as usize, i);
    }
}

#[test]
fn lowers_only_ascii_capitals_in_names() {
    assert_eq!(header_name_of(b"Content-TYPE"), "content-type");
    assert_eq!(header_name_of(b"AZaz09@[`{"), "azaz09@[`{");
    assert_eq!(header_name_of(&[0xc9, 0xe9]), "\u{c9}\u{e9}");
}

#[test]
fn scans_tokens() {
    assert_eq!(token(b"abc: d", 0), Some(3));
    assert_eq!(token(b"abc", 1), Some(3));
    assert_eq!(token(b": d", 0), None);
    assert_eq!(token(b"", 0), None);
    assert_eq!(token(b"a\tb", 0), Some(1));
    assert_eq!(token(b"a\x7fb", 0), Some(1));
    assert_eq!(token(b"\xff\x80 ", 0), Some(2));
    assert_eq!(token(b"!#$%&'*+-.^_`|~", 0), Some(15));
}

#[test]
fn scans_separators() {
    for b in b"()<>@,;:\\\"/[]?={} \t" {
        assert_eq!(separator(&[*b, b'x'], 0), Some(1));
        assert_eq!(token(&[*b, b'x'], 0), None);
    }
    assert_eq!(separator(b"x", 0), None);
    assert_eq!(separator(b"\n", 0), None);
    assert_eq!(separator(b"", 0), None);
}

#[test]
fn scans_quoted_strings() {
    assert_eq!(quoted_string(b"\"a b\tc\" rest", 0), Some(7));
    assert_eq!(quoted_string(b"\"\"", 0), Some(2));
    assert_eq!(quoted_string(b"\"open", 0), None);
    assert_eq!(quoted_string(b"\"a\nb\"", 0), None);
    assert_eq!(quoted_string(b"plain", 0), None);
    assert_eq!(quoted_string(b"x\"y\"", 1), Some(4));
}

#[test]
fn scans_field_content() {
    assert_eq!(field_content(b"text/html; q=\"1\"\r\n", 0), 16);
    assert_eq!(field_content(b"\r\n", 0), 0);
    assert_eq!(field_content(b"a\x00b", 0), 1);
    assert_eq!(field_content(b"a b\tc", 0), 5);
}

#[test]
fn scans_one_header_line() {
    let field = generic_field(b"Name:  value \r\nnext", 0).unwrap();
    assert_eq!(field.start, 0);
    assert_eq!(field.name_end, 4);
    assert_eq!(field.value_start, 7);
    assert_eq!(field.value_end, 13);
    assert_eq!(field.next, 15);
    assert!(generic_field(b"Name value\r\n", 0).is_none());
    assert!(generic_field(b"Name: value", 0).is_none());
    assert!(generic_field(b"Name: value\r", 0).is_none());
}

#[test]
fn header_map_replaces_and_lists() {
    let mut headers = HeaderMap::new();
    assert!(headers.is_empty());
    headers.insert("a".to_string(), "1".to_string());
    headers.insert("b".to_string(), "2".to_string());
    headers.insert("a".to_string(), "3".to_string());
    assert!(!headers.is_empty());
    assert_eq!(headers.len(), 2);
    assert!(headers.contains_key("a"));
    assert!(!headers.contains_key("c"));
    assert_eq!(
        headers.to_vec(),
        vec![("a".to_string(), "3".to_string()), ("b".to_string(), "2".to_string())]
    );
}

#[test]
fn the_header_block_alone_gives_the_same_headers_and_no_body() {
    let input: &[u8] = b"A: 1\r\nb:  two words \nA: 3\r\n\r\nthe body\r\n\r\n";
    let (body, headers) = parse_headers(input).unwrap();
    let block = &input[..input.len() - body.len()];
    let (rest, again) = parse_headers(block).unwrap();
    assert_eq!(rest, b"");
    assert_eq!(again.to_vec(), headers.to_vec());
    assert_eq!(
        again.to_vec(),
        vec![("a".to_string(), "3".to_string()), ("b".to_string(), "two words ".to_string())]
    );
}
