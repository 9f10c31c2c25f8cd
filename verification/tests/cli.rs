use fastcgi_cli::cli::{join_path, last_path_segment, BodySource, Cli, RequestUrl, Transport};
use fastcgi_cli::failure::Failure;

fn options() -> Cli {
    Cli {
        address: "127.0.0.1:9000".to_string(),
        url: None,
        data: None,
        server_document_root: None,
        script_name: None,
        env_vars: Vec::new(),
        env_clear: false,
        env_full: false,
        response_headers_dump_file: None,
        response_headers_include: false,
        response_status_fail_on_gte_400: false,
        output_directory: None,
        output_file_name: None,
        output_file_remote_name: false,
        stderr_file_name: None,
        request_method: "GET".to_string(),
    }
}

fn url_with_path(path: &str) -> RequestUrl {
    RequestUrl {
        scheme: "http".to_string(),
        domain: Some("example.com".to_string()),
        path: path.to_string(),
        query: None,
    }
}

#[test]
fn cgi_variables_pass_by_default() {
    let cli = options();
    for name in [
        "AUTH_TYPE",
        "CONTENT_LENGTH",
        "CONTENT_TYPE",
        "GATEWAY_INTERFACE",
        "PATH_INFO",
        "PATH_TRANSLATED",
        "QUERY_STRING",
        "REMOTE_ADDR",
        "REMOTE_HOST",
        "REMOTE_IDENT",
        "REMOTE_USER",
        "REQUEST_METHOD",
        "SCRIPT_NAME",
        "SERVER_NAME",
        "SERVER_PORT",
        "SERVER_PROTOCOL",
        "SERVER_SOFTWARE",
        "HTTP_ACCEPT",
        "HTTP_",
    ] {
        assert!(cli.is_envvar_whitelisted(name), "{}", name);
    }
    for name in ["PATH", "HOME", "HTTP", "http_accept", "XHTTP_A", "SCRIPT_NAME ", "", "HTTPS"] {
        assert!(!cli.is_envvar_whitelisted(name), "{}", name);
    }
}

#[test]
fn clearing_the_environment_leaves_the_named_variables() {
    let mut cli = options();
    cli.env_clear = true;
    cli.env_vars = vec!["HOME".to_string(), "LANG".to_string()];
    assert!(cli.is_envvar_whitelisted("HOME"));
    assert!(cli.is_envvar_whitelisted("LANG"));
    assert!(!cli.is_envvar_whitelisted("HTTP_ACCEPT"));
    assert!(!cli.is_envvar_whitelisted("SCRIPT_NAME"));
    assert!(!cli.is_envvar_whitelisted("PATH"));
}

#[test]
fn the_full_environment_passes_everything() {
    let mut cli = options();
    cli.env_full = true;
    assert!(cli.is_envvar_whitelisted("PATH"));
    assert!(cli.is_envvar_whitelisted(""));
}

#[test]
fn named_variables_pass_besides_the_defaults() {
    let mut cli = options();
    cli.env_vars = vec!["HOME".to_string()];
    assert!(cli.is_envvar_whitelisted("HOME"));
    assert!(cli.is_envvar_whitelisted("HTTP_HOST"));
    assert!(!cli.is_envvar_whitelisted("PATH"));
}

#[test]
fn the_environment_is_filtered_in_order() {
    let mut cli = options();
    cli.env_vars = vec!["HOME".to_string()];
    let env = vec![
        ("PATH".to_string(), "/bin".to_string()),
        ("HOME".to_string(), "/root".to_string()),
        ("HTTP_ACCEPT".to_string(), "*/*".to_string()),
        ("SHELL".to_string(), "sh".to_string()),
        ("SCRIPT_NAME".to_string(), "/x".to_string()),
    ];
    assert_eq!(
        cli.whitelisted_env(env),
        vec![
            ("HOME".to_string(), "/root".to_string()),
            ("HTTP_ACCEPT".to_string(), "*/*".to_string()),
            ("SCRIPT_NAME".to_string(), "/x".to_string()),
        ]
    );
}

#[test]
fn headers_are_parsed_only_when_needed() {
    let mut cli = options();
    assert!(cli.need_parse_header());
    cli.response_headers_include = true;
    assert!(!cli.need_parse_header());
    cli.response_status_fail_on_gte_400 = true;
    assert!(cli.need_parse_header());
    cli.response_status_fail_on_gte_400 = false;
    cli.response_headers_dump_file = Some("h".to_string());
    assert!(cli.need_parse_header());
}

#[test]
fn output_goes_to_standard_output_by_default() {
    assert_eq!(options().real_output_file_name(), Ok(None));
}

#[test]
fn a_named_output_file_is_used() {
    let mut cli = options();
    cli.output_file_name = Some("out.html".to_string());
    assert_eq!(cli.real_output_file_name(), Ok(Some("out.html".to_string())));
    cli.output_file_remote_name = true;
    cli.url = Some(url_with_path("/a/b.txt"));
    assert_eq!(cli.real_output_file_name(), Ok(Some("out.html".to_string())));
}

#[test]
fn the_output_file_can_be_named_after_the_url() {
    let mut cli = options();
    cli.output_file_remote_name = true;
    cli.url = Some(url_with_path("/dir/page.html"));
    assert_eq!(cli.real_output_file_name(), Ok(Some("page.html".to_string())));
}

#[test]
fn a_url_without_a_segment_names_no_file() {
    let mut cli = options();
    cli.output_file_remote_name = true;
    cli.url = Some(url_with_path("/"));
    assert_eq!(cli.real_output_file_name(), Err(Failure::EmptyRemoteName));
    cli.url = None;
    assert_eq!(cli.real_output_file_name(), Err(Failure::EmptyRemoteName));
}

#[test]
fn finds_the_last_segment_that_is_not_empty() {
    assert_eq!(last_path_segment("/a/b/c"), Some("c".to_string()));
    assert_eq!(last_path_segment("/a/b/"), Some("b".to_string()));
    assert_eq!(last_path_segment("/a//"), Some("a".to_string()));
    assert_eq!(last_path_segment("/file"), Some("file".to_string()));
    assert_eq!(last_path_segment("/vi%E1%BB%87t%20nam"), Some("vi%E1%BB%87t%20nam".to_string()));
    assert_eq!(last_path_segment("/"), None);
    assert_eq!(last_path_segment("///"), None);
    assert_eq!(last_path_segment(""), None);
    assert_eq!(last_path_segment("text/plain,x"), None);
}

#[test]
fn the_body_comes_from_the_options_or_standard_input() {
    let mut cli = options();
    assert_eq!(cli.body_source(), BodySource::Empty);
    cli.request_method = "POST".to_string();
    assert_eq!(cli.body_source(), BodySource::StandardInput);
    cli.request_method = "get".to_string();
    assert_eq!(cli.body_source(), BodySource::StandardInput);
    cli.data = Some("a=b".to_string());
    assert_eq!(cli.body_source(), BodySource::Literal);
    cli.request_method = "GET".to_string();
    assert_eq!(cli.body_source(), BodySource::Literal);
}

#[test]
fn the_address_tells_the_kind_of_socket() {
    let mut cli = options();
    assert_eq!(cli.transport(), Transport::Tcp);
    cli.address = "/run/php.sock".to_string();
    assert_eq!(cli.transport(), Transport::Unix);
    cli.address = "/run/php:1.sock".to_string();
    assert_eq!(cli.transport(), Transport::Unix);
    cli.address = "socket".to_string();
    assert_eq!(cli.transport(), Transport::Unix);
    cli.address = "[::1]:9000".to_string();
    assert_eq!(cli.transport(), Transport::Tcp);
}

#[test]
fn output_files_are_relative_to_the_output_directory() {
    let mut cli = options();
    assert_eq!(cli.resolve_output_path("a.txt"), "a.txt");
    assert_eq!(cli.resolve_output_path("a/b"), "a/b");
    assert_eq!(cli.resolve_output_path(""), "");
    cli.output_directory = Some("out".to_string());
    assert_eq!(cli.resolve_output_path("a.txt"), "out/a.txt");
    assert_eq!(cli.resolve_output_path("sub/a.txt"), "out/sub/a.txt");
    assert_eq!(cli.resolve_output_path("/tmp/a.txt"), "/tmp/a.txt");
    cli.output_directory = Some("/var/out/".to_string());
    assert_eq!(cli.resolve_output_path("a.txt"), "/var/out/a.txt");
    cli.output_directory = Some(String::new());
    assert_eq!(cli.resolve_output_path("a.txt"), "a.txt");
}

#[test]
fn paths_are_joined_with_one_slash() {
    assert_eq!(join_path("out", "a.txt"), "out/a.txt");
    assert_eq!(join_path("out/", "a.txt"), "out/a.txt");
    assert_eq!(join_path("out//", "a.txt"), "out//a.txt");
    assert_eq!(join_path("/", "a.txt"), "/a.txt");
    assert_eq!(join_path("", "a.txt"), "a.txt");
    assert_eq!(join_path("out", "/abs/a.txt"), "/abs/a.txt");
    assert_eq!(join_path("out", "/"), "/");
    assert_eq!(join_path("out", ""), "out/");
    assert_eq!(join_path("", ""), "");
    assert_eq!(join_path("d\u{e9}j\u{e0}", "vu"), "d\u{e9}j\u{e0}/vu");
}

#[test]
fn paths_are_joined_as_the_standard_library_joins_them_with_slashes() {
    if std::path::MAIN_SEPARATOR != '/' {
        return;
    }
    let parts = ["", "/", "a", "a/", "/a", "/a/", "a/b", "//", "a//", ".", "..", "./a", "\u{e9}"];
    for directory in parts {
        for path in parts {
            let expected = std::path::Path::new(directory).join(path);
            assert_eq!(
                std::path::PathBuf::from(join_path(directory, path)),
                expected,
                "{:?} {:?}",
                directory,
                path
            );
            assert_eq!(
                Some(join_path(directory, path).as_str()),
                expected.to_str(),
                "{:?} {:?}",
                directory,
                path
            );
        }
    }
}

#[test]
fn the_last_segment_is_what_the_url_library_gives_last() {
    for text in ["http://h/a/b.txt", "http://h/x", "http://h/a%20b/c%2Fd", "http://h/dir/file?q=/x/y#/z"] {
        let url = url::Url::parse(text).unwrap();
        let last = url.path_segments().unwrap().last().unwrap().to_string();
        assert_eq!(last_path_segment(url.path()), Some(last), "{}", text);
    }
    for text in ["http://h", "http://h/", "data:text/plain,x"] {
        let url = url::Url::parse(text).unwrap();
        assert_eq!(last_path_segment(url.path()), None, "{}", text);
    }
}
