use smnview::mime::Mime;
use smnview::response::{Response, ResponseError};
use smnview::status::StatusCode;

#[test]
fn new_response_has_no_headers_and_no_body() {
    let response = Response::new(204, "No Content");
    assert_eq!(response.status_code, 204);
    assert_eq!(response.status_message, "No Content");
    assert_eq!(response.header_fields.len(), 0);
    assert!(response.body.is_empty());
    assert_eq!(response.to_bytes(), b"HTTP/1.1 204 No Content\r\n\r\n");
}

#[test]
fn default_response() {
    let response = Response::default();
    assert_eq!(response.status_code, 0);
    assert_eq!(response.status_message, "");
    assert_eq!(response.to_bytes(), b"HTTP/1.1 0 \r\n\r\n");
}

#[test]
fn status_code_is_written_in_decimal() {
    assert_eq!(Response::new(7, "x").to_bytes(), b"HTTP/1.1 7 x\r\n\r\n");
    assert_eq!(Response::new(10, "x").to_bytes(), b"HTTP/1.1 10 x\r\n\r\n");
    assert_eq!(Response::new(65535, "x").to_bytes(), b"HTTP/1.1 65535 x\r\n\r\n");
}

#[test]
fn serialization_order() {
    let mut response = Response::new(200, "OK");
    response.set_header("Content-Type", "text/html");
    response.set_header("X-Second", "2");
    response.set_body(b"<p>hi</p>".to_vec());
    assert_eq!(
        response.to_bytes(),
        b"HTTP/1.1 200 OK\r\nContent-Type: text/html\r\nX-Second: 2\r\n\r\n<p>hi</p>"
    );
}

#[test]
fn body_is_sent_as_it_stands() {
    let mut response = Response::new(200, "OK");
    response.set_body(vec![0, 255, 13, 10, 13, 10, 128]);
    let bytes = response.to_bytes();
    assert_eq!(&bytes[..19], b"HTTP/1.1 200 OK\r\n\r\n");
    assert_eq!(&bytes[19..], &[0, 255, 13, 10, 13, 10, 128]);
}

#[test]
fn head_ends_with_a_blank_line_with_and_without_body() {
    let mut response = Response::new(500, "Internal Server Error");
    assert!(response.to_bytes().ends_with(b"\r\n\r\n"));
    response.set_header("A", "b");
    assert!(response.to_bytes().ends_with(b"A: b\r\n\r\n"));
    response.set_body_from_str("x");
    assert!(response.to_bytes().ends_with(b"A: b\r\n\r\nx"));
}

#[test]
fn set_header_overwrites_and_keeps_the_place() {
    let mut response = Response::new(200, "OK");
    response.set_header("A", "1");
    response.set_header("B", "2");
    response.set_header("A", "3");
    assert_eq!(response.header_fields.len(), 2);
    assert_eq!(response.header_fields.get("A"), Some("3"));
    assert_eq!(response.to_bytes(), b"HTTP/1.1 200 OK\r\nA: 3\r\nB: 2\r\n\r\n");
}

#[test]
fn set_header_keeps_the_case_of_the_name() {
    let mut response = Response::new(200, "OK");
    response.set_header("X-Name", "1");
    response.set_header("x-name", "2");
    assert_eq!(response.header_fields.len(), 2);
    assert_eq!(response.header_fields.get("X-Name"), Some("1"));
    assert_eq!(response.header_fields.get("x-name"), Some("2"));
}

#[test]
fn add_header_joins_repeated_names_with_comma_and_space() {
    let mut response = Response::new(200, "OK");
    response.add_header("Vary", "Accept");
    assert_eq!(response.header_fields.get("vary"), Some("Accept"));
    response.add_header("VARY", "Origin");
    response.add_header("vary", "Cookie");
    assert_eq!(response.header_fields.len(), 1);
    assert_eq!(response.header_fields.get("vary"), Some("Accept, Origin, Cookie"));
    assert_eq!(response.to_bytes(), b"HTTP/1.1 200 OK\r\nvary: Accept, Origin, Cookie\r\n\r\n");
}

#[test]
fn add_header_lower_cases_beyond_ascii() {
    let mut response = Response::new(200, "OK");
    response.add_header("\u{c9}TAT", "on");
    assert_eq!(response.header_fields.get("\u{e9}tat"), Some("on"));
}

#[test]
fn add_header_after_set_header_is_one_field() {
    let mut response = Response::new(200, "OK");
    response.set_header("Content-Type", "text/html");
    response.add_header("Content-Type", "charset=utf-8");
    assert_eq!(response.header_fields.len(), 1);
    assert_eq!(response.header_fields.name_at(0), "Content-Type");
    assert_eq!(response.header_fields.value_at(0), "text/html, charset=utf-8");
    assert_eq!(response.find_header("content-type"), 0);
    assert_eq!(
        response.to_bytes(),
        b"HTTP/1.1 200 OK\r\nContent-Type: text/html, charset=utf-8\r\n\r\n"
    );
}

#[test]
fn add_header_finds_the_name_in_any_case() {
    let mut response = Response::response_ok(Vec::new(), Mime::TextPlain);
    response.set_header("X-Second", "2");
    response.add_header("CONTENT-type", "charset=utf-8");
    response.add_header("x-SECOND", "3");
    response.add_header("X-Third", "4");
    assert_eq!(response.header_fields.len(), 3);
    assert_eq!(
        response.to_bytes(),
        "HTTP/1.1 200 OK\r\nContent-Type: text/plain, charset=utf-8\r\nX-Second: 2, 3\r\nx-third: 4\r\n\r\n"
            .as_bytes()
    );
    let response = Response::response_error("gone".to_string(), StatusCode::NotFound);
    assert_eq!(response.find_header("CONTENT-TYPE"), 0);
    assert_eq!(response.find_header("Content-Length"), 1);
}

#[test]
fn add_header_adds_to_the_first_of_two_names_that_differ_in_case() {
    let mut response = Response::new(200, "OK");
    response.set_header("x-name", "lower");
    response.set_header("X-Name", "upper");
    response.add_header("X-NAME", "more");
    assert_eq!(response.header_fields.len(), 2);
    assert_eq!(response.header_fields.get("x-name"), Some("lower, more"));
    assert_eq!(response.header_fields.get("X-Name"), Some("upper"));
    assert_eq!(response.find_header("X-Name"), 0);
}

#[test]
fn add_header_beyond_ascii_finds_the_name_in_any_case() {
    let mut response = Response::new(200, "OK");
    response.set_header("\u{c9}TAT", "on");
    response.add_header("\u{e9}tat", "off");
    assert_eq!(response.header_fields.len(), 1);
    assert_eq!(response.header_fields.get("\u{c9}TAT"), Some("on, off"));
}

#[test]
fn set_body_from_str_takes_the_utf8_form() {
    let mut response = Response::new(200, "OK");
    response.set_body_from_str("h\u{e9}");
    assert_eq!(response.body, vec![b'h', 0xc3, 0xa9]);
}

#[test]
fn ok_response_declares_the_media_type() {
    let response = Response::response_ok(b"{}".to_vec(), Mime::ApplicationJson);
    assert_eq!(response.status_code, 200);
    assert_eq!(response.status_message, "OK");
    assert_eq!(response.header_fields.len(), 1);
    assert_eq!(response.header_fields.get("Content-Type"), Some("application/json"));
    assert_eq!(response.body, b"{}");
    assert_eq!(
        response.to_bytes(),
        b"HTTP/1.1 200 OK\r\nContent-Type: application/json\r\n\r\n{}"
    );
}

#[test]
fn error_response_is_plain_text_with_the_message_as_body() {
    let response = Response::response_error("No Content".to_string(), StatusCode::NotFound);
    assert_eq!(response.status_code, 404);
    assert_eq!(response.status_message, "Not Found");
    assert_eq!(response.header_fields.get("Content-Type"), Some("text/plain"));
    assert_eq!(response.body, b"No Content");
    let response = Response::response_error("d\u{e9}sol\u{e9}".to_string(), StatusCode::InternalServerError);
    assert_eq!(
        response.to_bytes(),
        "HTTP/1.1 500 Internal Server Error\r\nContent-Type: text/plain\r\n\r\nd\u{e9}sol\u{e9}".as_bytes()
    );
}

#[test]
fn response_errors_in_words() {
    assert_eq!(ResponseError::InvalidStatusCode(99).to_string(), "Invalid status code: 99");
    assert_eq!(ResponseError::InvalidStatusCode(0).to_string(), "Invalid status code: 0");
    assert_eq!(
        ResponseError::InvalidHeader("a\nb".to_string()).to_string(),
        "Invalid header: a\nb"
    );
}

#[test]
fn status_codes_and_reason_phrases() {
    assert_eq!((StatusCode::OK.to_code(), StatusCode::OK.to_msg()), (200, "OK"));
    assert_eq!(
        (StatusCode::BadRequest.to_code(), StatusCode::BadRequest.to_msg()),
        (400, "Bad Request")
    );
    assert_eq!((StatusCode::NotFound.to_code(), StatusCode::NotFound.to_msg()), (404, "Not Found"));
    assert_eq!(
        (StatusCode::InternalServerError.to_code(), StatusCode::InternalServerError.to_msg()),
        (500, "Internal Server Error")
    );
}

#[test]
fn media_type_names() {
    let all = [
        (Mime::TextPlain, "text/plain", "txt"),
        (Mime::TextHtml, "text/html", "html"),
        (Mime::ApplicationJson, "application/json", "json"),
        (Mime::CSS, "text/css", "css"),
        (Mime::JavaScript, "application/javascript", "js"),
    ];
    for (mime, name, extension) in all {
        assert_eq!(mime.to_string(), name);
        assert_eq!(Mime::from_string(name), mime);
        assert_eq!(Mime::from_extension(extension), mime);
        assert_eq!(Mime::from_string(mime.to_string()), mime);
    }
}

#[test]
fn unknown_media_types_are_plain_text() {
    assert_eq!(Mime::from_string("image/png"), Mime::TextPlain);
    assert_eq!(Mime::from_string("TEXT/HTML"), Mime::TextPlain);
    assert_eq!(Mime::from_string(""), Mime::TextPlain);
    assert_eq!(Mime::from_extension("png"), Mime::TextPlain);
    assert_eq!(Mime::from_extension(".html"), Mime::TextPlain);
    assert_eq!(Mime::from_extension("HTML"), Mime::TextPlain);
    assert_eq!(Mime::from_extension(""), Mime::TextPlain);
}
