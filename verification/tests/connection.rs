use flate2::read::GzDecoder;
use flate2::write::GzEncoder;
use flate2::Compression;
use http_server::connection::{Action, ConnectionHandler, Event, READ_BUFFER_SIZE, State};
use http_server::response::{AcceptEncoding, ContentType, Response};
use http_server::router::Answer;
use http_server::statuscode::StatusCode;
use std::collections::HashMap;
use std::io::{Read, Write};

/// A file system in memory, and a gzip that can be made to fail.
struct World {
    files: HashMap<Vec<u8>, Vec<u8>>,
    gzip_works: bool,
}

fn world() -> World {
    World { files: HashMap::new(), gzip_works: true }
}

fn gzip(body: &[u8]) -> Vec<u8> {
    let mut encoder = GzEncoder::new(Vec::new(), Compression::default());
    encoder.write_all(body).unwrap();
    encoder.finish().unwrap()
}

fn gunzip(bytes: &[u8]) -> Vec<u8> {
    let mut out = Vec::new();
    GzDecoder::new(bytes).read_to_end(&mut out).unwrap();
    out
}

/// Hands one read to the handler and does what it asks for until the
/// response was sent: gives the bytes sent and the state and action after.
fn exchange(
    handler: &ConnectionHandler,
    world: &mut World,
    request: &[u8],
) -> (Option<Vec<u8>>, State, Action) {
    let mut sent = None;
    let (mut state, mut action) = handler.step(State::Reading, Event::Read(Some(request.to_vec())));
    loop {
        let event = match action {
            Action::ReadFile { path } => Event::FileRead(world.files.get(&path).cloned()),
            Action::WriteFile { path, contents } => {
                if path.ends_with(b"/forbidden") {
                    Event::FileWritten(false)
                } else {
                    world.files.insert(path, contents);
                    Event::FileWritten(true)
                }
            }
            Action::Compress { body } => {
                Event::Compressed(if world.gzip_works { Some(gzip(&body)) } else { None })
            }
            Action::Send { bytes } => {
                sent = Some(bytes);
                Event::Sent(true)
            }
            Action::Read { .. } | Action::Close => return (sent, state, action),
        };
        let next = handler.step(state, event);
        state = next.0;
        action = next.1;
    }
}

fn sent(handler: &ConnectionHandler, world: &mut World, request: &[u8]) -> Vec<u8> {
    match exchange(handler, world, request) {
        (Some(bytes), _, _) => bytes,
        (None, state, _) => panic!("nothing was sent; the state is {:?}", state),
    }
}

fn response(handler: &ConnectionHandler, world: &mut World, request: &[u8]) -> Response {
    match Response::parse(&sent(handler, world, request)) {
        Some(r) => r,
        None => panic!("what was sent is no response"),
    }
}

fn handler() -> ConnectionHandler {
    ConnectionHandler::new(Some(b"/srv".to_vec()))
}

#[test]
fn a_connection_starts_with_a_read() {
    assert_eq!(handler().start(), (State::Reading, Action::Read { limit: 256 }));
}

#[test]
fn the_read_buffer_holds_256_bytes() {
    assert_eq!(READ_BUFFER_SIZE, 256);
}

#[test]
fn echo_sends_the_text_back() {
    let bytes = sent(&handler(), &mut world(), b"GET /echo/abc HTTP/1.1\r\n\r\n");
    assert_eq!(
        bytes,
        b"HTTP/1.1 200 OK\r\nContent-Type: text/plain\r\nContent-Length: 3\r\n\r\nabc".to_vec()
    );
}

#[test]
fn echo_sends_every_text_back() {
    let long = "x".repeat(READ_BUFFER_SIZE - 23);
    let texts = ["a", "hello-world", "%20", "a\rb", "a\nb", "a:b", "caf\u{e9}", "", long.as_str()];
    for text in texts {
        let request = format!("GET /echo/{} HTTP/1.1\r\n\r\n", text);
        let r = response(&handler(), &mut world(), request.as_bytes());
        assert_eq!(r.status(), StatusCode::Okay);
        assert_eq!(r.content_type(), ContentType::TextPlain);
        assert_eq!(r.content_encoding(), None);
        assert_eq!(r.body(), &text.as_bytes().to_vec());
        let bytes = sent(&handler(), &mut world(), request.as_bytes());
        let expected = format!(
            "HTTP/1.1 200 OK\r\nContent-Type: text/plain\r\nContent-Length: {}\r\n\r\n{}",
            text.len(),
            text
        );
        assert_eq!(bytes, expected.into_bytes());
    }
}

#[test]
fn echo_of_a_text_with_a_space_or_a_slash_sends_its_start() {
    let r = response(&handler(), &mut world(), b"GET /echo/a b HTTP/1.1\r\n\r\n");
    assert_eq!(r.body(), &b"a".to_vec());
    let r = response(&handler(), &mut world(), b"GET /echo/a/b HTTP/1.1\r\n\r\n");
    assert_eq!(r.body(), &b"a".to_vec());
    let r = response(&handler(), &mut world(), b"GET /echo/a\r\nb HTTP/1.1\r\n\r\n");
    assert_eq!(r.body(), &b"a".to_vec());
}

#[test]
fn the_root_is_answered_200_with_no_body() {
    assert_eq!(
        sent(&handler(), &mut world(), b"GET / HTTP/1.1\r\nHost: localhost:4221\r\n\r\n"),
        b"HTTP/1.1 200 OK\r\nContent-Type: text/plain\r\nContent-Length: 0\r\n\r\n".to_vec()
    );
}

#[test]
fn user_agent_is_sent_back() {
    assert_eq!(
        sent(
            &handler(),
            &mut world(),
            b"GET /user-agent HTTP/1.1\r\nHost: localhost:4221\r\nUser-Agent: foobar/1.2.3\r\n\r\n"
        ),
        b"HTTP/1.1 200 OK\r\nContent-Type: text/plain\r\nContent-Length: 12\r\n\r\nfoobar/1.2.3"
            .to_vec()
    );
}

#[test]
fn an_unmatched_path_is_answered_404() {
    assert_eq!(
        sent(&handler(), &mut world(), b"GET /nope HTTP/1.1\r\n\r\n"),
        b"HTTP/1.1 404 Not Found\r\nContent-Type: text/plain\r\nContent-Length: 0\r\n\r\n".to_vec()
    );
    let r = response(&handler(), &mut world(), b"GET /nope HTTP/1.1\r\n\r\n");
    assert_eq!(r.status(), StatusCode::NotFound);
    assert_eq!(r.content_type(), ContentType::TextPlain);
    assert_eq!(r.body(), &Vec::<u8>::new());
}

#[test]
fn a_file_that_was_posted_is_sent_on_get() {
    let h = handler();
    let mut w = world();
    let posted = sent(
        &h,
        &mut w,
        b"POST /files/report.txt HTTP/1.1\r\nContent-Type: application/octet-stream\r\nContent-Length: 5\r\n\r\nhello",
    );
    assert_eq!(
        posted,
        b"HTTP/1.1 201 Created\r\nContent-Type: text/plain\r\nContent-Length: 0\r\n\r\n".to_vec()
    );
    assert_eq!(w.files.get(&b"/srv/report.txt".to_vec()), Some(&b"hello".to_vec()));
    let got = sent(&h, &mut w, b"GET /files/report.txt HTTP/1.1\r\n\r\n");
    assert_eq!(
        got,
        b"HTTP/1.1 200 OK\r\nContent-Type: application/octet-stream\r\nContent-Length: 5\r\n\r\nhello"
            .to_vec()
    );
}

#[test]
fn a_file_is_sent_without_one_trailing_line_feed() {
    let h = handler();
    let mut w = world();
    w.files.insert(b"/srv/a".to_vec(), b"hello\n".to_vec());
    w.files.insert(b"/srv/b".to_vec(), b"hello\n\n".to_vec());
    w.files.insert(b"/srv/c".to_vec(), b"hello \r\n".to_vec());
    assert_eq!(response(&h, &mut w, b"GET /files/a HTTP/1.1\r\n\r\n").body(), &b"hello".to_vec());
    assert_eq!(response(&h, &mut w, b"GET /files/b HTTP/1.1\r\n\r\n").body(), &b"hello\n".to_vec());
    assert_eq!(
        response(&h, &mut w, b"GET /files/c HTTP/1.1\r\n\r\n").body(),
        &b"hello \r".to_vec()
    );
}

#[test]
fn a_posted_file_replaces_the_one_before() {
    let h = handler();
    let mut w = world();
    sent(&h, &mut w, b"POST /files/a HTTP/1.1\r\nContent-Length: 5\r\n\r\nfirst");
    sent(&h, &mut w, b"POST /files/a HTTP/1.1\r\nContent-Length: 2\r\n\r\nxy");
    assert_eq!(response(&h, &mut w, b"GET /files/a HTTP/1.1\r\n\r\n").body(), &b"xy".to_vec());
}

#[test]
fn an_html_file_is_sent_as_html() {
    let h = handler();
    let mut w = world();
    w.files.insert(b"/srv/index.html".to_vec(), b"<h1>hi</h1>".to_vec());
    assert_eq!(
        sent(&h, &mut w, b"GET /files/index.html HTTP/1.1\r\n\r\n"),
        b"HTTP/1.1 200 OK\r\nContent-Type: text/html\r\nContent-Length: 11\r\n\r\n<h1>hi</h1>".to_vec()
    );
}

#[test]
fn a_missing_file_is_answered_404() {
    assert_eq!(
        sent(&handler(), &mut world(), b"GET /files/missing.txt HTTP/1.1\r\n\r\n"),
        b"HTTP/1.1 404 Not Found\r\nContent-Type: text/plain\r\nContent-Length: 0\r\n\r\n".to_vec()
    );
}

#[test]
fn a_file_that_cannot_be_stored_is_answered_500() {
    assert_eq!(
        sent(
            &handler(),
            &mut world(),
            b"POST /files/forbidden HTTP/1.1\r\nContent-Length: 1\r\n\r\nx"
        ),
        b"HTTP/1.1 500 Internal Server Error\r\nContent-Type: text/plain\r\nContent-Length: 0\r\n\r\n"
            .to_vec()
    );
}

#[test]
fn files_are_asked_for_under_the_root() {
    let h = ConnectionHandler::new(Some(b"/tmp/data".to_vec()));
    let (state, action) =
        h.step(State::Reading, Event::Read(Some(b"GET /files/a.html HTTP/1.1\r\n\r\n".to_vec())));
    assert_eq!(action, Action::ReadFile { path: b"/tmp/data/a.html".to_vec() });
    assert_eq!(
        state,
        State::ReadingFile { content_type: ContentType::TextHtml, encoding: None, close: false }
    );
    let (state, action) = h.step(
        State::Reading,
        Event::Read(Some(b"POST /files/a HTTP/1.1\r\nContent-Length: 2\r\n\r\nhi".to_vec())),
    );
    assert_eq!(
        action,
        Action::WriteFile { path: b"/tmp/data/a".to_vec(), contents: b"hi".to_vec() }
    );
    assert_eq!(state, State::WritingFile { encoding: None, close: false });
}

#[test]
fn files_are_asked_for_under_the_working_directory_without_a_root() {
    let h = ConnectionHandler::new(None);
    let (_, action) =
        h.step(State::Reading, Event::Read(Some(b"GET /files/a HTTP/1.1\r\n\r\n".to_vec())));
    assert_eq!(action, Action::ReadFile { path: b"./a".to_vec() });
}

#[test]
fn gzip_is_applied_where_the_client_accepts_it() {
    let r = response(
        &handler(),
        &mut world(),
        b"GET /echo/abc HTTP/1.1\r\nAccept-Encoding: gzip\r\n\r\n",
    );
    assert_eq!(r.status(), StatusCode::Okay);
    assert_eq!(r.content_encoding(), Some(AcceptEncoding::Gzip));
    assert_ne!(r.body(), &b"abc".to_vec());
    assert_eq!(gunzip(r.body()), b"abc".to_vec());
    let bytes =
        sent(&handler(), &mut world(), b"GET /echo/abc HTTP/1.1\r\nAccept-Encoding: gzip\r\n\r\n");
    let head = format!(
        "HTTP/1.1 200 OK\r\nContent-Encoding: gzip\r\nContent-Type: text/plain\r\nContent-Length: {}\r\n\r\n",
        gzip(b"abc").len()
    );
    assert!(bytes.starts_with(head.as_bytes()));
    assert_eq!(gunzip(&bytes[head.len()..]), b"abc".to_vec());
}

#[test]
fn gzip_is_not_applied_where_the_client_does_not_ask() {
    let bytes = sent(&handler(), &mut world(), b"GET /echo/abc HTTP/1.1\r\n\r\n");
    assert_eq!(
        bytes,
        b"HTTP/1.1 200 OK\r\nContent-Type: text/plain\r\nContent-Length: 3\r\n\r\nabc".to_vec()
    );
    assert!(!String::from_utf8_lossy(&bytes).contains("Content-Encoding"));
    let bytes = sent(
        &handler(),
        &mut world(),
        b"GET /echo/abc HTTP/1.1\r\nAccept-Encoding: deflate, br\r\n\r\n",
    );
    assert!(!String::from_utf8_lossy(&bytes).contains("Content-Encoding"));
}

#[test]
fn gzip_is_applied_to_files_and_to_empty_bodies() {
    let h = handler();
    let mut w = world();
    w.files.insert(b"/srv/a".to_vec(), b"hello hello hello hello\n".to_vec());
    let r = response(&h, &mut w, b"GET /files/a HTTP/1.1\r\nAccept-Encoding: br, gzip\r\n\r\n");
    assert_eq!(r.content_type(), ContentType::ApplicationOctetStream);
    assert_eq!(r.content_encoding(), Some(AcceptEncoding::Gzip));
    assert_eq!(gunzip(r.body()), b"hello hello hello hello".to_vec());
    let r = response(&h, &mut w, b"GET /nope HTTP/1.1\r\nAccept-Encoding: gzip\r\n\r\n");
    assert_eq!(r.status(), StatusCode::NotFound);
    assert_eq!(r.content_encoding(), Some(AcceptEncoding::Gzip));
    assert_eq!(gunzip(r.body()), Vec::<u8>::new());
}

#[test]
fn the_body_is_handed_out_to_be_compressed() {
    let (state, action) = handler().step(
        State::Reading,
        Event::Read(Some(
            b"GET /echo/abc HTTP/1.1\r\nAccept-Encoding: gzip\r\nConnection: close\r\n\r\n".to_vec(),
        )),
    );
    assert_eq!(action, Action::Compress { body: b"abc".to_vec() });
    assert_eq!(
        state,
        State::Compressing {
            answer: Answer::text(b"abc".to_vec()),
            coding: AcceptEncoding::Gzip,
            close: true
        }
    );
}

#[test]
fn a_failed_compression_sends_the_body_as_it_was() {
    let mut w = world();
    w.gzip_works = false;
    let bytes =
        sent(&handler(), &mut w, b"GET /echo/abc HTTP/1.1\r\nAccept-Encoding: gzip\r\n\r\n");
    assert_eq!(
        bytes,
        b"HTTP/1.1 200 OK\r\nContent-Type: text/plain\r\nContent-Length: 3\r\n\r\nabc".to_vec()
    );
}

#[test]
fn the_connection_stays_open_after_a_response() {
    let (_, state, action) = exchange(&handler(), &mut world(), b"GET / HTTP/1.1\r\n\r\n");
    assert_eq!((state, action), (State::Reading, Action::Read { limit: READ_BUFFER_SIZE }));
}

#[test]
fn several_requests_are_served_on_one_connection() {
    let h = handler();
    let mut w = world();
    for text in ["one", "two", "three"] {
        let request = format!("GET /echo/{} HTTP/1.1\r\n\r\n", text);
        let (bytes, state, action) = exchange(&h, &mut w, request.as_bytes());
        assert_eq!(Response::parse(&bytes.unwrap()).unwrap().body(), &text.as_bytes().to_vec());
        assert_eq!((state, action), (State::Reading, Action::Read { limit: READ_BUFFER_SIZE }));
    }
}

#[test]
fn connection_close_ends_the_connection_after_the_response() {
    let (bytes, state, action) = exchange(
        &handler(),
        &mut world(),
        b"GET /echo/abc HTTP/1.1\r\nConnection: close\r\n\r\n",
    );
    assert_eq!(
        bytes,
        Some(
            b"HTTP/1.1 200 OK\r\nContent-Type: text/plain\r\nContent-Length: 3\r\nConnection: Close\r\n\r\nabc"
                .to_vec()
        )
    );
    assert_eq!((state, action), (State::Closed, Action::Close));
}

#[test]
fn connection_close_is_kept_through_files_and_compression() {
    let h = handler();
    let mut w = world();
    w.files.insert(b"/srv/a".to_vec(), b"data".to_vec());
    let (bytes, state, action) = exchange(
        &h,
        &mut w,
        b"GET /files/a HTTP/1.1\r\nAccept-Encoding: gzip\r\nCONNECTION: CLOSE\r\n\r\n",
    );
    let r = Response::parse(&bytes.unwrap()).unwrap();
    assert!(r.connection_close());
    assert_eq!(gunzip(r.body()), b"data".to_vec());
    assert_eq!((state, action), (State::Closed, Action::Close));
    let (bytes, state, action) = exchange(
        &h,
        &mut w,
        b"POST /files/b HTTP/1.1\r\nConnection: close\r\nContent-Length: 1\r\n\r\nx",
    );
    assert!(Response::parse(&bytes.unwrap()).unwrap().connection_close());
    assert_eq!((state, action), (State::Closed, Action::Close));
}

#[test]
fn the_response_is_sent_before_the_connection_is_closed() {
    let h = handler();
    let (state, action) = h.step(
        State::Reading,
        Event::Read(Some(b"GET / HTTP/1.1\r\nConnection: close\r\n\r\n".to_vec())),
    );
    assert_eq!(state, State::Sending { close: true });
    assert!(matches!(action, Action::Send { .. }));
    assert_eq!(h.step(state, Event::Sent(true)), (State::Closed, Action::Close));
}

#[test]
fn a_closed_connection_stays_closed() {
    let h = handler();
    let events = [
        Event::Read(Some(b"GET / HTTP/1.1\r\n\r\n".to_vec())),
        Event::Read(None),
        Event::FileRead(Some(vec![1])),
        Event::FileWritten(true),
        Event::Compressed(Some(vec![1])),
        Event::Sent(true),
    ];
    for event in events {
        assert_eq!(h.step(State::Closed, event), (State::Closed, Action::Close));
    }
}

#[test]
fn a_read_of_nothing_ends_the_connection() {
    let h = handler();
    assert_eq!(h.step(State::Reading, Event::Read(Some(Vec::new()))), (State::Closed, Action::Close));
}

#[test]
fn a_failed_read_ends_the_connection() {
    let h = handler();
    assert_eq!(h.step(State::Reading, Event::Read(None)), (State::Closed, Action::Close));
}

#[test]
fn a_failed_write_ends_the_connection() {
    let h = handler();
    assert_eq!(
        h.step(State::Sending { close: false }, Event::Sent(false)),
        (State::Closed, Action::Close)
    );
    assert_eq!(
        h.step(State::Sending { close: true }, Event::Sent(false)),
        (State::Closed, Action::Close)
    );
}

#[test]
fn bytes_that_are_no_request_end_the_connection() {
    let h = handler();
    for bytes in [&b"GET\r\n\r\n"[..], b"garbage", b"POST /files/a HTTP/1.1\r\nContent-Length: x\r\n\r\n"] {
        assert_eq!(
            h.step(State::Reading, Event::Read(Some(bytes.to_vec()))),
            (State::Closed, Action::Close)
        );
    }
}

#[test]
fn an_event_that_answers_nothing_ends_the_connection() {
    let h = handler();
    assert_eq!(h.step(State::Reading, Event::Sent(true)), (State::Closed, Action::Close));
    assert_eq!(
        h.step(State::Sending { close: false }, Event::Read(Some(b"GET / HTTP/1.1\r\n\r\n".to_vec()))),
        (State::Closed, Action::Close)
    );
    assert_eq!(
        h.step(State::WritingFile { encoding: None, close: false }, Event::FileRead(None)),
        (State::Closed, Action::Close)
    );
}

#[test]
fn a_request_that_does_not_fit_the_read_buffer_is_served_cut_off() {
    let name = "a".repeat(300);
    let whole = format!("GET /echo/{} HTTP/1.1\r\nUser-Agent: x\r\n\r\n", name);
    let read = &whole.as_bytes()[..READ_BUFFER_SIZE];
    let r = response(&handler(), &mut world(), read);
    assert_eq!(r.status(), StatusCode::Okay);
    assert_eq!(r.body(), &name.as_bytes()[..READ_BUFFER_SIZE - 10].to_vec());
}

#[test]
fn a_head_cut_off_in_a_header_loses_that_header() {
    let agent = "b".repeat(300);
    let whole = format!("GET /user-agent HTTP/1.1\r\nUser-Agent: {}\r\n\r\n", agent);
    let read = &whole.as_bytes()[..READ_BUFFER_SIZE];
    let r = response(&handler(), &mut world(), read);
    assert_eq!(r.body(), &agent.as_bytes()[..READ_BUFFER_SIZE - 38].to_vec());
}

#[test]
fn what_is_left_of_a_cut_off_request_is_served_as_the_next_request() {
    let name = "a".repeat(300);
    let whole = format!("GET /echo/{} HTTP/1.1\r\n\r\n", name);
    let left = &whole.as_bytes()[READ_BUFFER_SIZE..];
    let h = handler();
    let (state, action) = h.step(State::Reading, Event::Read(Some(left.to_vec())));
    assert!(matches!(action, Action::Send { .. }));
    assert_eq!(state, State::Sending { close: false });
    let r = response(&h, &mut world(), left);
    assert_eq!(r.status(), StatusCode::NotFound);
}

#[test]
fn other_headers_do_not_change_the_response() {
    let bare = sent(&handler(), &mut world(), b"GET /user-agent HTTP/1.1\r\nUser-Agent: x\r\n\r\n");
    let more = sent(
        &handler(),
        &mut world(),
        b"GET /user-agent HTTP/1.1\r\nHost: a\r\nAccept: */*\r\nUser-Agent: x\r\nX-Other: y\r\nContent-Type: text/css\r\n\r\n",
    );
    assert_eq!(bare, more);
    assert_eq!(
        bare,
        b"HTTP/1.1 200 OK\r\nContent-Type: text/plain\r\nContent-Length: 1\r\n\r\nx".to_vec()
    );
}

#[test]
fn the_name_of_a_file_holds_no_slash() {
    let h = handler();
    for target in ["/files/a/b", "/files/../../etc/passwd", "/files/a/", "/files//a"] {
        let request = format!("GET {} HTTP/1.1\r\n\r\n", target);
        let (_, action) = h.step(State::Reading, Event::Read(Some(request.into_bytes())));
        match action {
            Action::ReadFile { path } => {
                assert!(path.starts_with(b"/srv/"));
                assert!(!path[5..].contains(&b'/'));
            }
            other => panic!("no file was asked for: {:?}", other),
        }
    }
}

#[test]
fn a_name_that_leads_out_of_the_root_is_asked_for_as_it_is() {
    let h = handler();
    let (_, action) =
        h.step(State::Reading, Event::Read(Some(b"GET /files/.. HTTP/1.1\r\n\r\n".to_vec())));
    assert_eq!(action, Action::ReadFile { path: b"/srv/..".to_vec() });
}

#[test]
fn more_bytes_than_were_asked_for_end_the_connection() {
    let h = handler();
    let text = "x".repeat(READ_BUFFER_SIZE - 22);
    let request = format!("GET /echo/{} HTTP/1.1\r\n\r\n", text);
    assert_eq!(request.len(), READ_BUFFER_SIZE + 1);
    assert_eq!(
        h.step(State::Reading, Event::Read(Some(request.into_bytes()))),
        (State::Closed, Action::Close)
    );
}

#[test]
fn a_request_that_fills_the_read_buffer_is_served() {
    let text = "x".repeat(READ_BUFFER_SIZE - 23);
    let request = format!("GET /echo/{} HTTP/1.1\r\n\r\n", text);
    assert_eq!(request.len(), READ_BUFFER_SIZE);
    let r = response(&handler(), &mut world(), request.as_bytes());
    assert_eq!(r.body(), &text.into_bytes());
}
