use smnview::request::{parse_header_line, parse_request_line, HeaderLine, Request, RequestError};

#[test]
fn parses_request_line() {
    let request = Request::from_bytes(b"GET /index.html HTTP/1.1\nHost: x\n\n").unwrap();
    assert_eq!(request.method, "GET");
    assert_eq!(request.path, "/index.html");
    assert_eq!(request.get_header_value("host").unwrap(), "x");
    assert!(request.body.is_empty());
}

#[test]
fn version_token_is_optional_and_ignored() {
    let request = Request::from_bytes(b"POST /submit").unwrap();
    assert_eq!(request.method, "POST");
    assert_eq!(request.path, "/submit");
    let request = Request::from_bytes(b"  POST \t /submit   anything else here").unwrap();
    assert_eq!(request.method, "POST");
    assert_eq!(request.path, "/submit");
}

#[test]
fn empty_input_is_an_empty_request() {
    assert!(matches!(Request::from_bytes(b""), Err(RequestError::EmptyRequest)));
}

#[test]
fn blank_first_line_misses_the_method() {
    assert!(matches!(Request::from_bytes(b"\n"), Err(RequestError::MissingMethod)));
    assert!(matches!(Request::from_bytes(b"   \t "), Err(RequestError::MissingMethod)));
    assert!(matches!(Request::from_bytes(b"\r\nGET / HTTP/1.1"), Err(RequestError::MissingMethod)));
}

#[test]
fn single_token_misses_the_path() {
    assert!(matches!(Request::from_bytes(b"GET"), Err(RequestError::MissingPath)));
    assert!(matches!(Request::from_bytes(b"GET  \nHost: x\n"), Err(RequestError::MissingPath)));
}

#[test]
fn header_line_without_colon_is_malformed() {
    match Request::from_bytes(b"GET / HTTP/1.1\nHost x\n\n") {
        Err(RequestError::MalformedHeaderLine(line)) => assert_eq!(line, "Host x"),
        other => panic!("unexpected: {:?}", other),
    }
}

#[test]
fn malformed_line_behind_the_empty_line_is_not_read() {
    let request = Request::from_bytes(b"GET / HTTP/1.1\nHost: x\n\nno colon here").unwrap();
    assert_eq!(request.header_fields.len(), 1);
}

#[test]
fn header_names_are_lower_cased_and_trimmed() {
    let request = Request::from_bytes(b"GET / HTTP/1.1\n  X-Custom-Header \t:  some value  \n\n");
    // the line is indented, so it continues a field that is not there, and is dropped
    assert_eq!(request.unwrap().header_fields.len(), 0);
    let request = Request::from_bytes(b"GET / HTTP/1.1\nX-Custom-Header \t:  some value  \n\n").unwrap();
    assert_eq!(request.header_fields.get("x-custom-header"), Some("some value"));
    assert_eq!(request.header_fields.get("X-Custom-Header"), None);
}

#[test]
fn header_value_keeps_its_colons() {
    let request = Request::from_bytes(b"GET / HTTP/1.1\nHost: localhost:3030\n\n").unwrap();
    assert_eq!(request.get_header_value("Host").unwrap(), "localhost:3030");
}

#[test]
fn header_names_beyond_ascii_are_lower_cased_too() {
    let request = Request::from_bytes("GET / HTTP/1.1\n\u{c9}TAT: on\n\n".as_bytes()).unwrap();
    assert_eq!(request.header_fields.get("\u{e9}tat"), Some("on"));
    assert_eq!(request.get_header_value("\u{c9}tat").unwrap(), "on");
}

#[test]
fn duplicate_header_keeps_the_last_value() {
    let request = Request::from_bytes(b"GET / HTTP/1.1\nAccept: a\nACCEPT: b\n\n").unwrap();
    assert_eq!(request.header_fields.len(), 1);
    assert_eq!(request.get_header_value("accept").unwrap(), "b");
}

#[test]
fn folded_header_is_joined_with_a_space() {
    let request =
        Request::from_bytes(b"GET / HTTP/1.1\nX-Long:  first part  \n\t  second part \n\n").unwrap();
    assert_eq!(request.header_fields.len(), 1);
    assert_eq!(request.get_header_value("x-long").unwrap(), "first part second part");
    let request =
        Request::from_bytes(b"GET / HTTP/1.1\r\nX-Long: first part\r\n second part\r\n\r\n").unwrap();
    assert_eq!(request.header_fields.len(), 1);
    assert_eq!(request.get_header_value("x-long").unwrap(), "first part second part");
}

#[test]
fn folded_header_may_be_folded_again() {
    let request = Request::from_bytes(b"GET / HTTP/1.1\nA: 1\n 2\n 3\nB: 4\n 5\n\n").unwrap();
    assert_eq!(request.get_header_value("a").unwrap(), "1 2 3");
    assert_eq!(request.get_header_value("b").unwrap(), "4 5");
}

#[test]
fn continuation_of_blanks_adds_a_space() {
    let request = Request::from_bytes(b"GET / HTTP/1.1\nA: 1\n   \n\n").unwrap();
    assert_eq!(request.get_header_value("a").unwrap(), "1 ");
}

#[test]
fn continuation_before_any_header_is_dropped() {
    let request = Request::from_bytes(b"GET / HTTP/1.1\n orphan\nHost: x\n\n").unwrap();
    assert_eq!(request.header_fields.len(), 1);
    assert_eq!(request.get_header_value("host").unwrap(), "x");
}

#[test]
fn content_length_zero_without_body_parses_to_empty_body() {
    let request = Request::from_bytes(b"GET / HTTP/1.1\ncontent-length: 0\n\n").unwrap();
    assert_eq!(request.get_header_value("Content-Length").unwrap(), "0");
    assert_eq!(request.get_body(), b"");
    let request = Request::from_bytes(b"GET / HTTP/1.1\r\ncontent-length: 0\r\n\r\n").unwrap();
    assert_eq!(request.get_header_value("Content-Length").unwrap(), "0");
    assert_eq!(request.get_body(), b"");
}

#[test]
fn non_numeric_content_length_is_rejected() {
    let parsed = Request::from_bytes(b"POST / HTTP/1.1\r\nContent-Length: abc\r\n\r\nbody");
    assert!(matches!(parsed, Err(RequestError::InvalidContentLength)));
    let parsed = Request::from_bytes(b"POST / HTTP/1.1\nContent-Length: abc\n\n");
    assert!(matches!(parsed, Err(RequestError::InvalidContentLength)));
    let parsed = Request::from_bytes(b"POST / HTTP/1.1\nContent-Length: \n\n");
    assert!(matches!(parsed, Err(RequestError::InvalidContentLength)));
    let parsed = Request::from_bytes(b"POST / HTTP/1.1\nContent-Length: -1\n\n");
    assert!(matches!(parsed, Err(RequestError::InvalidContentLength)));
    let parsed = Request::from_bytes(b"POST / HTTP/1.1\nContent-Length: 4 2\n\n");
    assert!(matches!(parsed, Err(RequestError::InvalidContentLength)));
    let parsed =
        Request::from_bytes(b"POST / HTTP/1.1\nContent-Length: 99999999999999999999999999\n\n");
    assert!(matches!(parsed, Err(RequestError::InvalidContentLength)));
}

#[test]
fn content_length_may_carry_a_plus() {
    let request = Request::from_bytes(b"POST / HTTP/1.1\r\nContent-Length: +4\r\n\r\nbody").unwrap();
    assert_eq!(request.get_body(), b"body");
}

#[test]
fn body_is_what_follows_the_blank_line() {
    let request = Request::from_bytes(
        b"POST /data HTTP/1.1\r\nHost: x\r\nContent-Length: 12\r\n\r\nhello\r\nworld",
    )
    .unwrap();
    assert_eq!(request.header_fields.len(), 2);
    assert_eq!(request.body, b"hello\r\nworld");
    assert_eq!(request.get_body_as_str().unwrap(), "hello\r\nworld");
    // the head may end its lines as it likes: the body stands behind `\r\n\r\n`
    let request =
        Request::from_bytes(b"POST /data HTTP/1.1\nContent-Length: 5\n\nignored\r\n\r\nhello").unwrap();
    assert_eq!(request.body, b"hello");
}

#[test]
fn body_is_not_cut_to_the_declared_length() {
    let request = Request::from_bytes(b"POST / HTTP/1.1\r\nContent-Length: 2\r\n\r\nhello").unwrap();
    assert_eq!(request.body, b"hello");
    let request = Request::from_bytes(b"POST / HTTP/1.1\r\nContent-Length: 50\r\n\r\nhello").unwrap();
    assert_eq!(request.body, b"hello");
}

#[test]
fn body_is_empty_without_the_blank_line_separator() {
    let request = Request::from_bytes(b"POST / HTTP/1.1\nContent-Length: 5\n\nhello").unwrap();
    assert!(request.body.is_empty());
}

#[test]
fn body_is_empty_without_content_length() {
    let request = Request::from_bytes(b"POST / HTTP/1.1\r\nHost: x\r\n\r\nhello").unwrap();
    assert_eq!(request.header_fields.len(), 1);
    assert!(request.body.is_empty());
}

#[test]
fn body_starts_behind_the_first_separator() {
    let request =
        Request::from_bytes(b"POST / HTTP/1.1\r\nContent-Length: 9\r\n\r\nab\r\n\r\ncd!").unwrap();
    assert_eq!(request.body, b"ab\r\n\r\ncd!");
}

#[test]
fn lines_end_in_either_style() {
    for end in ["\r\n", "\n", "\r"] {
        let text = format!("GET / HTTP/1.1{0}Host: x{0}Accept: y{0} z{0}{0}", end);
        let request = Request::from_bytes(text.as_bytes()).unwrap();
        assert_eq!(request.method, "GET");
        assert_eq!(request.path, "/");
        assert_eq!(request.header_fields.len(), 2);
        assert_eq!(request.get_header_value("host").unwrap(), "x");
        assert_eq!(request.get_header_value("accept").unwrap(), "y z");
    }
    let request = Request::from_bytes(b"GET / HTTP/1.1\nHost: x\r\nAccept: y\rVary: z\n\r\n").unwrap();
    assert_eq!(request.header_fields.len(), 3);
}

#[test]
fn line_feed_before_carriage_return_is_two_line_ends() {
    let request = Request::from_bytes(b"GET / HTTP/1.1\n\rHost: x\n\n").unwrap();
    assert_eq!(request.header_fields.len(), 0);
    let request = Request::from_bytes(b"GET / HTTP/1.1\r\rHost: x\n\n").unwrap();
    assert_eq!(request.header_fields.len(), 0);
    let request = Request::from_bytes(b"GET / HTTP/1.1\r\n\nHost: x\n\n").unwrap();
    assert_eq!(request.header_fields.len(), 0);
}

#[test]
fn invalid_utf8_is_replaced_not_refused() {
    let request = Request::from_bytes(b"GET /caf\xff HTTP/1.1\nX-Raw: a\xc3\n\n").unwrap();
    assert_eq!(request.path, "/caf\u{fffd}");
    assert_eq!(request.get_header_value("x-raw").unwrap(), "a\u{fffd}");
}

#[test]
fn unicode_white_space_separates_and_is_trimmed() {
    let request =
        Request::from_bytes("GET\u{a0}/p\u{2003}HTTP/1.1\nA:\u{3000}v\u{a0}\n\n".as_bytes()).unwrap();
    assert_eq!(request.method, "GET");
    assert_eq!(request.path, "/p");
    assert_eq!(request.get_header_value("a").unwrap(), "v");
}

#[test]
fn from_string_parses_the_utf8_form() {
    let request = Request::from_string("PUT /r\u{e9}sum\u{e9} HTTP/1.1\nHost: x\n\n").unwrap();
    assert_eq!(request.method, "PUT");
    assert_eq!(request.path, "/r\u{e9}sum\u{e9}");
    assert!(matches!(Request::from_string(""), Err(RequestError::EmptyRequest)));
}

#[test]
fn header_lookup_ignores_case() {
    let request = Request::from_bytes(b"GET / HTTP/1.1\nContent-Type: text/html\n\n").unwrap();
    assert_eq!(request.get_header_value("content-type").unwrap(), "text/html");
    assert_eq!(request.get_header_value("CONTENT-TYPE").unwrap(), "text/html");
    assert_eq!(request.get_header_value("Content-Type").unwrap(), "text/html");
}

#[test]
fn missing_header_is_reported_by_the_name_asked_for() {
    let request = Request::from_bytes(b"GET / HTTP/1.1\nHost: x\n\n").unwrap();
    match request.get_header_value("X-Missing") {
        Err(RequestError::HeaderNotFound(name)) => assert_eq!(name, "X-Missing"),
        other => panic!("unexpected: {:?}", other),
    }
}

#[test]
fn header_value_or_default() {
    let request = Request::from_bytes(b"GET / HTTP/1.1\nHost: x\n\n").unwrap();
    assert_eq!(request.get_header_value_or_default("HOST", "none"), "x");
    assert_eq!(request.get_header_value_or_default("Accept", "none"), "none");
}

#[test]
fn body_as_str_refuses_invalid_utf8() {
    let request = Request::from_bytes(b"POST / HTTP/1.1\r\nContent-Length: 2\r\n\r\n\xff\xfe").unwrap();
    assert_eq!(request.get_body(), b"\xff\xfe");
    assert!(request.get_body_as_str().is_err());
}

#[test]
fn default_request_is_empty() {
    let request = Request::default();
    assert_eq!(request.method, "");
    assert_eq!(request.path, "");
    assert_eq!(request.header_fields.len(), 0);
    assert!(request.body.is_empty());
}

#[test]
fn errors_in_words() {
    assert_eq!(
        RequestError::HeaderNotFound("Host".to_string()).to_string(),
        "Header 'Host' not found"
    );
    assert_eq!(RequestError::EmptyRequest.to_string(), "Invalid request: Empty request");
    assert_eq!(RequestError::MissingMethod.to_string(), "Invalid request: Missing HTTP method");
    assert_eq!(RequestError::MissingPath.to_string(), "Invalid request: Missing request path");
    assert_eq!(
        RequestError::MalformedHeaderLine("Host x".to_string()).to_string(),
        "Invalid request: Invalid header line: Host x"
    );
    assert_eq!(
        RequestError::InvalidContentLength.to_string(),
        "Invalid request: Invalid Content-Length value"
    );
}

#[test]
fn request_line_on_its_own() {
    let (method, path) = parse_request_line("GET / HTTP/1.1").unwrap();
    assert_eq!((method.as_str(), path.as_str()), ("GET", "/"));
    let (method, path) = parse_request_line("\u{2003}d\u{e9}j\u{e0}\u{a0}/v\u{fc}\u{3000}x").unwrap();
    assert_eq!((method.as_str(), path.as_str()), ("d\u{e9}j\u{e0}", "/v\u{fc}"));
    assert!(matches!(parse_request_line(""), Err(RequestError::MissingMethod)));
    assert!(matches!(parse_request_line(" GET "), Err(RequestError::MissingPath)));
}

#[test]
fn header_line_on_its_own() {
    match parse_header_line(" Name : value : more ") {
        HeaderLine::Continuation(text) => assert_eq!(text, "Name : value : more"),
        other => panic!("unexpected: {:?}", other),
    }
    match parse_header_line("Name : value : more ") {
        HeaderLine::Field(name, value) => {
            assert_eq!(name, "Name");
            assert_eq!(value, "value : more");
        }
        other => panic!("unexpected: {:?}", other),
    }
    match parse_header_line(":") {
        HeaderLine::Field(name, value) => {
            assert_eq!(name, "");
            assert_eq!(value, "");
        }
        other => panic!("unexpected: {:?}", other),
    }
    assert!(matches!(parse_header_line("no colon"), HeaderLine::Malformed));
    assert!(matches!(parse_header_line("\tindented"), HeaderLine::Continuation(_)));
}

fn written(method: &str, path: &str, fields: &[(&str, &str)], body: &[u8]) -> Vec<u8> {
    let mut head = format!("{} {} HTTP/1.1\r\n", method, path);
    for (name, value) in fields {
        head.push_str(&format!("{}: {}\r\n", name, value));
    }
    head.push_str("\r\n");
    let mut bytes = head.into_bytes();
    bytes.extend_from_slice(body);
    bytes
}

#[test]
fn written_request_parses_back() {
    let body = b"{\"a\": [1, 2, 3]}\r\n\r\n\x00\xff tail";
    let length = body.len().to_string();
    let fields = [
        ("Host", "localhost:3030"),
        ("Content-Type", "application/json"),
        ("Content-Length", length.as_str()),
        ("X-Empty", ""),
        ("Accept", "text/html, */*"),
    ];
    let bytes = written("POST", "/api/items?id=7", &fields, body);
    let request = Request::from_bytes(&bytes).unwrap();
    assert_eq!(request.method, "POST");
    assert_eq!(request.path, "/api/items?id=7");
    assert_eq!(request.header_fields.len(), fields.len());
    for (name, value) in fields {
        assert_eq!(request.get_header_value(name).unwrap(), value);
        assert_eq!(request.header_fields.get(&name.to_lowercase()), Some(value));
    }
    assert_eq!(request.body, body);
}

#[test]
fn written_request_with_repeated_name_keeps_the_later_value() {
    let fields = [("Content-Length", "1"), ("X-A", "1"), ("x-a", "2"), ("content-length", "0")];
    let bytes = written("GET", "/", &fields, b"");
    let request = Request::from_bytes(&bytes).unwrap();
    assert_eq!(request.header_fields.len(), 2);
    assert_eq!(request.get_header_value("X-A").unwrap(), "2");
    assert_eq!(request.get_header_value("Content-Length").unwrap(), "0");
    assert!(request.body.is_empty());
}

#[test]
fn written_request_beyond_ascii_parses_back() {
    let body = "\u{4f53}\r\n\r\n\u{ff}".as_bytes();
    let length = body.len().to_string();
    let fields = [
        ("H\u{f4}te", "caf\u{e9}\u{a0}au\tlait"),
        ("\u{c9}TAT", "\u{2603}"),
        ("Content-Length", length.as_str()),
        ("\u{3a3}", ""),
    ];
    let bytes = written("OBT\u{c9}NIR", "/r\u{e9}sum\u{e9}?q=\u{4e2d}#\u{6587}", &fields, body);
    let request = Request::from_bytes(&bytes).unwrap();
    assert_eq!(request.method, "OBT\u{c9}NIR");
    assert_eq!(request.path, "/r\u{e9}sum\u{e9}?q=\u{4e2d}#\u{6587}");
    assert_eq!(request.header_fields.len(), fields.len());
    for (name, value) in fields {
        assert_eq!(request.get_header_value(name).unwrap(), value);
        assert_eq!(request.header_fields.get(&name.to_lowercase()), Some(value));
    }
    assert_eq!(request.body, body);
}
