use http_server::response::{status_of, AcceptEncoding, ContentType, Response};
use http_server::statuscode::StatusCode;

fn plain(status: StatusCode, content_type: ContentType, body: &[u8]) -> Response {
    Response::new(status, None, content_type, body, None, false)
}

#[test]
fn status_codes_have_their_numbers() {
    assert_eq!(StatusCode::Okay.code(), 200);
    assert_eq!(StatusCode::Created.code(), 201);
    assert_eq!(StatusCode::NotFound.code(), 404);
    assert_eq!(StatusCode::InternalServerError.code(), 500);
}

#[test]
fn status_codes_have_their_reason_phrases() {
    assert_eq!(StatusCode::Okay.reason_phrase(), "OK");
    assert_eq!(StatusCode::Created.reason_phrase(), "Created");
    assert_eq!(StatusCode::NotFound.reason_phrase(), "Not Found");
    assert_eq!(StatusCode::InternalServerError.reason_phrase(), "Internal Server Error");
}

#[test]
fn status_codes_are_found_by_number() {
    assert_eq!(StatusCode::from_code(200), Some(StatusCode::Okay));
    assert_eq!(StatusCode::from_code(201), Some(StatusCode::Created));
    assert_eq!(StatusCode::from_code(404), Some(StatusCode::NotFound));
    assert_eq!(StatusCode::from_code(500), Some(StatusCode::InternalServerError));
    assert_eq!(StatusCode::from_code(0), None);
    assert_eq!(StatusCode::from_code(400), None);
    assert_eq!(StatusCode::from_code(65736), None);
}

#[test]
fn content_types_have_their_names() {
    assert_eq!(ContentType::TextPlain.str(), "text/plain");
    assert_eq!(ContentType::TextHtml.str(), "text/html");
    assert_eq!(ContentType::ApplicationOctetStream.str(), "application/octet-stream");
}

#[test]
fn content_types_are_found_by_name() {
    assert_eq!(ContentType::from_name(b"text/plain"), Some(ContentType::TextPlain));
    assert_eq!(ContentType::from_name(b"text/html"), Some(ContentType::TextHtml));
    assert_eq!(
        ContentType::from_name(b"application/octet-stream"),
        Some(ContentType::ApplicationOctetStream)
    );
    assert_eq!(ContentType::from_name(b"text/css"), None);
    assert_eq!(ContentType::from_name(b"Text/Plain"), None);
    assert_eq!(ContentType::from_name(b""), None);
}

#[test]
fn gzip_has_its_name() {
    assert_eq!(AcceptEncoding::Gzip.str(), "gzip");
}

#[test]
fn negotiate_looks_for_gzip_in_the_list() {
    assert_eq!(AcceptEncoding::negotiate(b"gzip"), Some(AcceptEncoding::Gzip));
    assert_eq!(AcceptEncoding::negotiate(b"br, gzip"), Some(AcceptEncoding::Gzip));
    assert_eq!(AcceptEncoding::negotiate(b"gzip, br"), Some(AcceptEncoding::Gzip));
    assert_eq!(AcceptEncoding::negotiate(b""), None);
    assert_eq!(AcceptEncoding::negotiate(b"br"), None);
    assert_eq!(AcceptEncoding::negotiate(b"gzip,br"), None);
    assert_eq!(AcceptEncoding::negotiate(b" gzip"), None);
    assert_eq!(AcceptEncoding::negotiate(b"Gzip"), None);
}

#[test]
fn new_keeps_the_body_where_no_coding_is_accepted() {
    let r = Response::new(StatusCode::Okay, None, ContentType::TextPlain, b"abc", None, false);
    assert_eq!(r.status(), StatusCode::Okay);
    assert_eq!(r.content_type(), ContentType::TextPlain);
    assert_eq!(r.content_encoding(), None);
    assert_eq!(r.body(), &b"abc".to_vec());
    assert!(!r.connection_close());
}

#[test]
fn new_takes_the_coded_body_where_the_coding_is_accepted() {
    let r = Response::new(
        StatusCode::Okay,
        Some(AcceptEncoding::Gzip),
        ContentType::TextPlain,
        b"abc",
        Some(vec![1, 2, 3, 4, 5]),
        true,
    );
    assert_eq!(r.content_encoding(), Some(AcceptEncoding::Gzip));
    assert_eq!(r.body(), &vec![1, 2, 3, 4, 5]);
    assert!(r.connection_close());
}

#[test]
fn new_names_no_coding_where_the_compression_failed() {
    let r = Response::new(
        StatusCode::Okay,
        Some(AcceptEncoding::Gzip),
        ContentType::TextPlain,
        b"abc",
        None,
        false,
    );
    assert_eq!(r.content_encoding(), None);
    assert_eq!(r.body(), &b"abc".to_vec());
    assert_eq!(
        r.format_bytes(),
        b"HTTP/1.1 200 OK\r\nContent-Type: text/plain\r\nContent-Length: 3\r\n\r\nabc".to_vec()
    );
}

#[test]
fn new_does_not_take_a_coded_body_that_was_not_asked_for() {
    let r = Response::new(
        StatusCode::Okay,
        None,
        ContentType::TextPlain,
        b"abc",
        Some(vec![9, 9]),
        false,
    );
    assert_eq!(r.content_encoding(), None);
    assert_eq!(r.body(), &b"abc".to_vec());
}

#[test]
fn format_bytes_of_a_text() {
    assert_eq!(
        plain(StatusCode::Okay, ContentType::TextPlain, b"abc").format_bytes(),
        b"HTTP/1.1 200 OK\r\nContent-Type: text/plain\r\nContent-Length: 3\r\n\r\nabc".to_vec()
    );
}

#[test]
fn format_bytes_of_each_status() {
    assert_eq!(
        plain(StatusCode::Created, ContentType::TextPlain, b"").format_bytes(),
        b"HTTP/1.1 201 Created\r\nContent-Type: text/plain\r\nContent-Length: 0\r\n\r\n".to_vec()
    );
    assert_eq!(
        plain(StatusCode::NotFound, ContentType::TextPlain, b"").format_bytes(),
        b"HTTP/1.1 404 Not Found\r\nContent-Type: text/plain\r\nContent-Length: 0\r\n\r\n".to_vec()
    );
    assert_eq!(
        plain(StatusCode::InternalServerError, ContentType::TextPlain, b"").format_bytes(),
        b"HTTP/1.1 500 Internal Server Error\r\nContent-Type: text/plain\r\nContent-Length: 0\r\n\r\n"
            .to_vec()
    );
}

#[test]
fn format_bytes_of_each_content_type() {
    assert_eq!(
        plain(StatusCode::Okay, ContentType::TextHtml, b"<p>").format_bytes(),
        b"HTTP/1.1 200 OK\r\nContent-Type: text/html\r\nContent-Length: 3\r\n\r\n<p>".to_vec()
    );
    assert_eq!(
        plain(StatusCode::Okay, ContentType::ApplicationOctetStream, &[0, 255]).format_bytes(),
        b"HTTP/1.1 200 OK\r\nContent-Type: application/octet-stream\r\nContent-Length: 2\r\n\r\n\x00\xff"
            .to_vec()
    );
}

#[test]
fn format_bytes_puts_the_headers_in_their_order() {
    let r = Response::new(
        StatusCode::Okay,
        Some(AcceptEncoding::Gzip),
        ContentType::TextPlain,
        b"abc",
        Some(vec![31, 139, 8, 0]),
        true,
    );
    assert_eq!(
        r.format_bytes(),
        b"HTTP/1.1 200 OK\r\nContent-Encoding: gzip\r\nContent-Type: text/plain\r\nContent-Length: 4\r\nConnection: Close\r\n\r\n\x1f\x8b\x08\x00"
            .to_vec()
    );
}

#[test]
fn format_bytes_says_when_the_connection_is_closed() {
    let r = Response::new(StatusCode::Okay, None, ContentType::TextPlain, b"", None, true);
    assert_eq!(
        r.format_bytes(),
        b"HTTP/1.1 200 OK\r\nContent-Type: text/plain\r\nContent-Length: 0\r\nConnection: Close\r\n\r\n"
            .to_vec()
    );
}

#[test]
fn format_bytes_adds_nothing_behind_the_body() {
    let body = b"line one\nline two\r\n\r\n";
    let bytes = plain(StatusCode::Okay, ContentType::TextPlain, body).format_bytes();
    assert!(bytes.ends_with(b"Content-Length: 21\r\n\r\nline one\nline two\r\n\r\n"));
}

#[test]
fn content_length_is_the_length_of_the_body_as_sent() {
    let body = vec![7u8; 1234];
    let r = Response::new(
        StatusCode::Okay,
        Some(AcceptEncoding::Gzip),
        ContentType::TextPlain,
        &body,
        Some(vec![1u8; 17]),
        false,
    );
    let bytes = r.format_bytes();
    let head = String::from_utf8_lossy(&bytes[..bytes.len() - 17]).to_string();
    assert!(head.contains("\r\nContent-Length: 17\r\n"));
    let r = plain(StatusCode::Okay, ContentType::TextPlain, &body);
    let bytes = r.format_bytes();
    let head = String::from_utf8_lossy(&bytes[..bytes.len() - 1234]).to_string();
    assert!(head.contains("\r\nContent-Length: 1234\r\n"));
}

#[test]
fn status_of_reads_a_status_line() {
    assert_eq!(status_of(b"HTTP/1.1 200 OK"), Some(StatusCode::Okay));
    assert_eq!(status_of(b"HTTP/1.1 404 Not Found"), Some(StatusCode::NotFound));
    assert_eq!(status_of(b"HTTP/1.1 500"), Some(StatusCode::InternalServerError));
    assert_eq!(status_of(b"HTTP/1.1 201 whatever"), Some(StatusCode::Created));
}

#[test]
fn status_of_refuses_other_lines() {
    assert_eq!(status_of(b"HTTP/1.0 200 OK"), None);
    assert_eq!(status_of(b"HTTP/1.1 400 Bad Request"), None);
    assert_eq!(status_of(b"HTTP/1.1  200 OK"), None);
    assert_eq!(status_of(b"HTTP/1.1"), None);
    assert_eq!(status_of(b"200 OK"), None);
    assert_eq!(status_of(b""), None);
}

#[test]
fn parse_reads_back_what_format_bytes_wrote() {
    let statuses = [
        StatusCode::Okay,
        StatusCode::Created,
        StatusCode::NotFound,
        StatusCode::InternalServerError,
    ];
    let types =
        [ContentType::TextPlain, ContentType::TextHtml, ContentType::ApplicationOctetStream];
    let bodies: [&[u8]; 4] = [b"", b"abc", b"a\r\n\r\nb", &[0, 13, 10, 255]];
    for status in statuses {
        for content_type in types {
            for body in bodies {
                for close in [false, true] {
                    for coded in [None, Some(vec![31u8, 139, 13, 10, 13, 10])] {
                        let accepted = coded.as_ref().map(|_| AcceptEncoding::Gzip);
                        let r = Response::new(status, accepted, content_type, body, coded, close);
                        assert_eq!(Response::parse(&r.format_bytes()), Some(r));
                    }
                }
            }
        }
    }
}

#[test]
fn parse_gives_status_headers_and_body() {
    let r = Response::parse(
        b"HTTP/1.1 200 OK\r\nContent-Encoding: gzip\r\nContent-Type: text/html\r\nContent-Length: 2\r\nConnection: Close\r\n\r\nhi",
    );
    let r = match r {
        Some(r) => r,
        None => panic!("no response"),
    };
    assert_eq!(r.status(), StatusCode::Okay);
    assert_eq!(r.content_type(), ContentType::TextHtml);
    assert_eq!(r.content_encoding(), Some(AcceptEncoding::Gzip));
    assert_eq!(r.body(), &b"hi".to_vec());
    assert!(r.connection_close());
}

#[test]
fn parse_refuses_a_wrong_length() {
    assert_eq!(
        Response::parse(b"HTTP/1.1 200 OK\r\nContent-Type: text/plain\r\nContent-Length: 3\r\n\r\nab"),
        None
    );
    assert_eq!(
        Response::parse(b"HTTP/1.1 200 OK\r\nContent-Type: text/plain\r\nContent-Length: 1\r\n\r\nab"),
        None
    );
    assert_eq!(Response::parse(b"HTTP/1.1 200 OK\r\nContent-Type: text/plain\r\n\r\n"), None);
}

#[test]
fn parse_refuses_a_head_without_its_empty_line() {
    assert_eq!(
        Response::parse(b"HTTP/1.1 200 OK\r\nContent-Type: text/plain\r\nContent-Length: 0\r\n"),
        None
    );
    assert_eq!(Response::parse(b""), None);
}

#[test]
fn parse_refuses_what_is_not_sent() {
    assert_eq!(
        Response::parse(b"HTTP/1.1 302 Found\r\nContent-Type: text/plain\r\nContent-Length: 0\r\n\r\n"),
        None
    );
    assert_eq!(
        Response::parse(b"HTTP/1.1 200 OK\r\nContent-Type: text/css\r\nContent-Length: 0\r\n\r\n"),
        None
    );
    assert_eq!(Response::parse(b"HTTP/1.1 200 OK\r\nContent-Length: 0\r\n\r\n"), None);
    assert_eq!(
        Response::parse(
            b"HTTP/1.1 200 OK\r\nContent-Encoding: br\r\nContent-Type: text/plain\r\nContent-Length: 0\r\n\r\n"
        ),
        None
    );
}
