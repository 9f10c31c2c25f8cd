use fastcgi_cli::failure::Failure;
use fastcgi_cli::header_map::HeaderMap;
use fastcgi_cli::headers::parse_headers;
use fastcgi_cli::status::{parse_status, status_code};

fn with_status(value: &str) -> HeaderMap {
    let mut headers = HeaderMap::new();
    headers.insert("status".to_string(), value.to_string());
    headers
}

#[test]
fn no_status_header_means_200() {
    assert_eq!(status_code(&HeaderMap::new()), Ok(200));
    let (_, headers) = parse_headers(b"Content-Type: text/plain\r\n\r\n").unwrap();
    assert_eq!(status_code(&headers), Ok(200));
}

#[test]
fn status_is_the_first_word_of_the_header() {
    assert_eq!(status_code(&with_status("404 Not Found")), Ok(404));
    let (_, headers) = parse_headers(b"Status: 404 Not Found\r\n\r\n").unwrap();
    assert_eq!(status_code(&headers), Ok(404));
}

#[test]
fn a_status_that_is_no_number_is_refused() {
    assert_eq!(status_code(&with_status("banana")), Err(Failure::InvalidStatusValue));
    let (_, headers) = parse_headers(b"status: banana\r\n\r\n").unwrap();
    assert_eq!(status_code(&headers), Err(Failure::InvalidStatusValue));
}

#[test]
fn a_missing_status_word_is_refused() {
    assert_eq!(status_code(&with_status("")), Err(Failure::InvalidStatusValue));
    assert_eq!(status_code(&with_status("   \t ")), Err(Failure::InvalidStatusValue));
}

#[test]
fn status_words_are_read_as_unsigned_16_bit_numbers() {
    assert_eq!(parse_status("200"), Some(200));
    assert_eq!(parse_status("0"), Some(0));
    assert_eq!(parse_status("65535"), Some(65535));
    assert_eq!(parse_status("65536"), None);
    assert_eq!(parse_status("99999999999999999999"), None);
    assert_eq!(parse_status("000000000000000000000404"), Some(404));
    assert_eq!(parse_status("+301"), Some(301));
    assert_eq!(parse_status("+"), None);
    assert_eq!(parse_status("++1"), None);
    assert_eq!(parse_status("-1"), None);
    assert_eq!(parse_status("40x"), None);
    assert_eq!(parse_status("4 04"), Some(4));
    assert_eq!(parse_status("\u{0663}"), None);
}

#[test]
fn whitespace_around_the_status_word_is_skipped() {
    assert_eq!(parse_status(" \t\r\n\x0c500 oops"), Some(500));
    assert_eq!(parse_status("500\tInternal"), Some(500));
    assert_eq!(parse_status("500\x0bInternal"), None);
    assert_eq!(parse_status("\u{a0}500"), None);
}

#[test]
fn status_words_agree_with_the_standard_parser() {
    for word in ["1", "+1", "-0", "+0", "00", "65535", "65536", "655350", "1e3", "", "+", "٣", "12a", "a12"] {
        assert_eq!(parse_status(word), word.parse::<u16>().ok(), "{:?}", word);
    }
}
