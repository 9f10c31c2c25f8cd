use fastcgi_cli::cli::Cli;
use fastcgi_cli::failure::Failure;
use fastcgi_cli::response::route_response;

fn options() -> Cli {
    Cli {
        address: "127.0.0.1:9000".to_string(),
        url: None,
        data: None,
        server_document_root: None,
        script_name: None,
        env_vars: Vec::new(),
        env_clear: false,
        env_full: false,
        response_headers_dump_file: None,
        response_headers_include: false,
        response_status_fail_on_gte_400: false,
        output_directory: None,
        output_file_name: None,
        output_file_remote_name: false,
        stderr_file_name: None,
        request_method: "GET".to_string(),
    }
}

#[test]
fn body_alone_is_written_when_headers_are_left_out() {
    let cli = options();
    let routing = route_response(&cli, b"Content-Type: text/html\r\n\r\n<html/>").unwrap();
    assert_eq!(routing.output, b"<html/>");
    assert_eq!(routing.header_dump, None);
}

#[test]
fn an_error_status_aborts_before_any_output() {
    let mut cli = options();
    cli.response_status_fail_on_gte_400 = true;
    let result = route_response(&cli, b"Status: 500 Error\r\n\r\nfail");
    assert_eq!(result.err(), Some(Failure::UpstreamError(500)));
}

#[test]
fn only_a_status_above_400_aborts() {
    let mut cli = options();
    cli.response_status_fail_on_gte_400 = true;
    assert_eq!(route_response(&cli, b"Status: 400 Bad\r\n\r\nx").unwrap().output, b"x");
    assert_eq!(
        route_response(&cli, b"Status: 401 No\r\n\r\nx").err(),
        Some(Failure::UpstreamError(401))
    );
    assert_eq!(route_response(&cli, b"Status: 200 OK\r\n\r\nx").unwrap().output, b"x");
    assert_eq!(route_response(&cli, b"X: y\r\n\r\nx").unwrap().output, b"x");
}

#[test]
fn a_bad_status_matters_only_when_failing_on_status() {
    let mut cli = options();
    let data = b"Status: banana\r\n\r\nbody";
    assert_eq!(route_response(&cli, data).unwrap().output, b"body");
    cli.response_status_fail_on_gte_400 = true;
    assert_eq!(route_response(&cli, data).err(), Some(Failure::InvalidStatusValue));
}

#[test]
fn a_response_is_passed_on_unparsed_when_headers_are_kept() {
    let mut cli = options();
    cli.response_headers_include = true;
    let data = b"this is no header block";
    let routing = route_response(&cli, data).unwrap();
    assert_eq!(routing.output, data);
    assert_eq!(routing.header_dump, None);
}

#[test]
fn malformed_headers_abort_when_they_have_to_be_parsed() {
    let mut cli = options();
    let data = b"this is no header block";
    assert_eq!(route_response(&cli, data).err(), Some(Failure::MalformedHeaders));
    cli.response_headers_include = true;
    cli.response_headers_dump_file = Some("headers.txt".to_string());
    assert_eq!(route_response(&cli, data).err(), Some(Failure::MalformedHeaders));
    cli.response_headers_dump_file = None;
    cli.response_status_fail_on_gte_400 = true;
    assert_eq!(route_response(&cli, data).err(), Some(Failure::MalformedHeaders));
}

#[test]
fn the_header_block_is_dumped_as_it_came() {
    let mut cli = options();
    cli.response_headers_dump_file = Some("headers.txt".to_string());
    let data = b"A: 1\r\nB: 2\r\n\r\nbody";
    let routing = route_response(&cli, data).unwrap();
    assert_eq!(routing.header_dump, Some(&b"A: 1\r\nB: 2\r\n\r\n"[..]));
    assert_eq!(routing.output, b"body");
    cli.response_headers_include = true;
    let routing = route_response(&cli, data).unwrap();
    assert_eq!(routing.header_dump, Some(&b"A: 1\r\nB: 2\r\n\r\n"[..]));
    assert_eq!(routing.output, data);
}
