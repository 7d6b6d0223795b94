//! What holds of the handler as a whole: requests that are echoed, paths
//! that no handler serves, files, and connections that are to be closed.

use crate::connection::{
    spec_close, spec_deliver, spec_read, spec_response, spec_serve, spec_step, ActionView,
    EventView, StateView, READ_BUFFER_SIZE,
};
use crate::files::{
    spec_content_type_for, spec_file_path, spec_read_answer, spec_strip_newline, spec_write_answer,
};
use crate::message::{blank_line, colon_space, crlf, header_line, space};
use crate::request::{
    lemma_no_headers, lemma_parse_request_line, spec_parse, spec_strip_slash, ParseError,
    RequestView,
};
use crate::response::{lemma_wire_plain, AcceptEncoding, ContentType, ResponseView};
use crate::router::{
    lemma_route_echo, lemma_route_files, spec_answer, spec_route, spec_segments, AnswerView,
    RouteView,
};
use crate::statuscode::StatusCode;
use crate::text::{
    ascii, contains, free_of, lemma_contains_between, lemma_free_of_concat, spec_decimal,
};
use vstd::prelude::*;

verus! {

/// The bytes of the request `GET /` with `path` behind the slash and no
/// headers.
pub open spec fn spec_get(path: Seq<u8>) -> Seq<u8> {
    ascii("GET /"@) + path + ascii(" HTTP/1.1\r\n\r\n"@)
}

/// The request that `GET /<path>` is read as, where the path holds no space
/// and no line end: method `GET`, the path, no headers and no body.
pub proof fn lemma_parse_get(path: Seq<u8>)
    requires
        free_of(path, 32),
        !contains(path, crlf()),
    ensures
        spec_get(path).len() > 0,
        spec_parse(spec_get(path)) == Ok::<RequestView, ParseError>(
            RequestView {
                method: ascii("GET"@),
                path,
                headers: Map::empty(),
                body: Seq::empty(),
            },
        ),
{
    let method = ascii("GET"@);
    let target = ascii("/"@) + path;
    let version = ascii("HTTP/1.1"@);
    let bytes = spec_get(path);
    assert(bytes =~= method + space() + target + space() + version + blank_line()
        && bytes.len() > 0 && free_of(method, 32) && free_of(ascii("/"@), 32) && free_of(
        ascii("GET /"@),
        13,
    ) && free_of(ascii(" HTTP/1.1"@), 10) && method + space() + target + space() + version
        =~= ascii("GET /"@) + path + ascii(" HTTP/1.1"@) && spec_strip_slash(target) =~= path)
        by {
        reveal_strlit("GET /");
        reveal_strlit(" HTTP/1.1\r\n\r\n");
        reveal_strlit("GET");
        reveal_strlit("/");
        reveal_strlit("HTTP/1.1");
        reveal_strlit(" HTTP/1.1");
    }
    lemma_free_of_concat(ascii("/"@), path, 32);
    assert(seq![13u8, 10u8] =~= crlf());
    lemma_contains_between(ascii("GET /"@), path, ascii(" HTTP/1.1"@), 13, 10);
    lemma_parse_request_line(method, target, version);
}

/// The response that carries `body` as plain text with this status, names
/// no coding and leaves the connection open.
pub open spec fn spec_plain_response(status: StatusCode, body: Seq<u8>) -> ResponseView {
    ResponseView {
        status,
        content_type: ContentType::TextPlain,
        content_encoding: None,
        body,
        connection_close: false,
    }
}

/// A request for `/echo/` with a text behind it is answered with that text.
///
/// For every text that holds no space, no slash and no line end, the
/// request `GET /echo/<text>` without headers, where it fits one read, is
/// answered 200 as plain text, with the length of the text as
/// `Content-Length` and the text as the body, and the connection stays open.
pub proof fn lemma_echo(root: Seq<u8>, text: Seq<u8>)
    requires
        free_of(text, 32),
        free_of(text, 47),
        !contains(text, crlf()),
        spec_get(ascii("echo/"@) + text).len() <= READ_BUFFER_SIZE,
    ensures
        spec_step(
            root,
            StateView::Reading,
            EventView::Read(Some(spec_get(ascii("echo/"@) + text))),
        ) == (
            StateView::Sending { close: false },
            ActionView::Send { bytes: spec_plain_response(StatusCode::Okay, text).wire() },
        ),
        spec_plain_response(StatusCode::Okay, text).wire() == ascii(
            "HTTP/1.1 200 OK\r\nContent-Type: text/plain\r\nContent-Length: "@,
        ) + spec_decimal(text.len()) + ascii("\r\n\r\n"@) + text,
{
    let path = ascii("echo/"@) + text;
    assert(free_of(ascii("echo/"@), 32) && free_of(ascii("echo/"@), 13)) by {
        reveal_strlit("echo/");
    }
    lemma_free_of_concat(ascii("echo/"@), text, 32);
    assert(seq![13u8, 10u8] =~= crlf());
    lemma_contains_between(ascii("echo/"@), text, Seq::empty(), 13, 10);
    assert(path =~= ascii("echo/"@) + text + Seq::<u8>::empty());
    lemma_parse_get(path);
    let request = spec_parse(spec_get(path))->Ok_0;
    lemma_no_headers(request, ascii("user-agent"@));
    lemma_route_echo(request.method, text);
    lemma_echo_wire(text);
}

/// A request whose path is `echo/` with a text behind it that holds no
/// slash is answered 200 with that text as plain text, whatever its method
/// and its headers.
pub proof fn lemma_echo_served(root: Seq<u8>, request: RequestView, text: Seq<u8>)
    requires
        request.path == ascii("echo/"@) + text,
        free_of(text, 47),
    ensures
        spec_serve(root, request) == spec_deliver(
            AnswerView::text(text),
            request.accept_encoding(),
            request.wants_close(),
        ),
{
    lemma_route_echo(request.method, text);
}

/// The bytes of the response that echoes `text`.
proof fn lemma_echo_wire(text: Seq<u8>)
    ensures
        spec_plain_response(StatusCode::Okay, text).wire() == ascii(
            "HTTP/1.1 200 OK\r\nContent-Type: text/plain\r\nContent-Length: "@,
        ) + spec_decimal(text.len()) + ascii("\r\n\r\n"@) + text,
{
    let r = spec_plain_response(StatusCode::Okay, text);
    lemma_wire_plain(r);
    let head = ascii("HTTP/1.1 200 OK\r\nContent-Type: text/plain\r\nContent-Length: "@);
    assert(head =~= r.status_line() + crlf() + header_line(
        ascii("Content-Type"@),
        ascii("text/plain"@),
    ) + crlf() + ascii("Content-Length"@) + colon_space()) by {
        reveal_strlit("HTTP/1.1 200 OK\r\nContent-Type: text/plain\r\nContent-Length: ");
        reveal_strlit("HTTP/1.1");
        reveal_strlit("OK");
        reveal_strlit("Content-Type");
        reveal_strlit("text/plain");
        reveal_strlit("Content-Length");
        reveal_with_fuel(spec_decimal, 3);
    }
    assert(ascii("\r\n\r\n"@) =~= crlf() + crlf()) by {
        reveal_strlit("\r\n\r\n");
    }
    assert(r.wire() =~= head + spec_decimal(text.len()) + ascii("\r\n\r\n"@) + text);
}

/// Whether no handler serves a path: its first segment is none of `echo`,
/// `user-agent` and `files`, and is not empty.
pub open spec fn unmatched(path: Seq<u8>) -> bool {
    let first = spec_segments(path)[0];
    first != ascii("echo"@) && first.len() != 0 && first != ascii("user-agent"@) && first
        != ascii("files"@)
}

/// A request for a path that no handler serves is answered 404, as plain
/// text with no body, whatever its method and its headers. Where the client
/// accepts no coding, that response is sent at once.
pub proof fn lemma_unmatched_served(root: Seq<u8>, request: RequestView)
    requires
        unmatched(request.path),
    ensures
        spec_route(request.method, request.path) == RouteView::NotFound,
        spec_serve(root, request) == spec_deliver(
            AnswerView::empty(StatusCode::NotFound),
            request.accept_encoding(),
            request.wants_close(),
        ),
        request.accept_encoding() is None ==> spec_serve(root, request) == (
            StateView::Sending { close: request.wants_close() },
            ActionView::Send {
                bytes: ResponseView {
                    status: StatusCode::NotFound,
                    content_type: ContentType::TextPlain,
                    content_encoding: None,
                    body: Seq::empty(),
                    connection_close: request.wants_close(),
                }.wire(),
            },
        ),
{
    let first = spec_segments(request.path)[0];
    assert(first != Seq::<u8>::empty());
}

/// The request `GET /<path>` without headers, where it fits one read, for
/// a path that holds no space and no line end and that no handler serves,
/// is answered 404 as plain text with no body and the length 0.
pub proof fn lemma_unmatched_get(root: Seq<u8>, path: Seq<u8>)
    requires
        free_of(path, 32),
        !contains(path, crlf()),
        unmatched(path),
        spec_get(path).len() <= READ_BUFFER_SIZE,
    ensures
        spec_step(root, StateView::Reading, EventView::Read(Some(spec_get(path)))) == (
            StateView::Sending { close: false },
            ActionView::Send {
                bytes: spec_plain_response(StatusCode::NotFound, Seq::empty()).wire(),
            },
        ),
        spec_plain_response(StatusCode::NotFound, Seq::empty()).wire() == ascii(
            "HTTP/1.1 404 Not Found\r\nContent-Type: text/plain\r\nContent-Length: 0\r\n\r\n"@,
        ),
{
    lemma_parse_get(path);
    let request = spec_parse(spec_get(path))->Ok_0;
    lemma_no_headers(request, ascii("user-agent"@));
    lemma_unmatched_served(root, request);
    let r = spec_plain_response(StatusCode::NotFound, Seq::empty());
    lemma_wire_plain(r);
    assert(r.wire() =~= ascii(
        "HTTP/1.1 404 Not Found\r\nContent-Type: text/plain\r\nContent-Length: 0\r\n\r\n"@,
    )) by {
        reveal_strlit(
            "HTTP/1.1 404 Not Found\r\nContent-Type: text/plain\r\nContent-Length: 0\r\n\r\n",
        );
        reveal_strlit("HTTP/1.1");
        reveal_strlit("Not Found");
        reveal_strlit("Content-Type");
        reveal_strlit("text/plain");
        reveal_strlit("Content-Length");
        reveal_with_fuel(spec_decimal, 3);
    }
}

/// A request whose path is `files/` with a name behind it that holds no
/// slash has the file of that name under the root written, with the body
/// of the request, where its method is `POST`, and read otherwise.
pub proof fn lemma_files_served(root: Seq<u8>, request: RequestView, name: Seq<u8>)
    requires
        request.path == ascii("files/"@) + name,
        free_of(name, 47),
    ensures
        spec_serve(root, request) == if request.method == ascii("POST"@) {
            (
                StateView::WritingFile {
                    encoding: request.accept_encoding(),
                    close: request.wants_close(),
                },
                ActionView::WriteFile {
                    path: spec_file_path(root, name),
                    contents: request.body,
                },
            )
        } else {
            (
                StateView::ReadingFile {
                    content_type: spec_content_type_for(name),
                    encoding: request.accept_encoding(),
                    close: request.wants_close(),
                },
                ActionView::ReadFile { path: spec_file_path(root, name) },
            )
        },
{
    lemma_route_files(request.method, name);
}

/// A file that was read is sent as it is, but for one trailing line feed:
/// where the client accepts no coding, the response is 200, of the content
/// type that the name of the file calls for, and its body is the contents
/// of the file without their last byte where that is a line feed. A file
/// that could not be read is answered 404 with no body.
pub proof fn lemma_file_sent(
    root: Seq<u8>,
    content_type: ContentType,
    contents: Option<Seq<u8>>,
    close: bool,
)
    ensures
        spec_step(
            root,
            StateView::ReadingFile { content_type, encoding: None, close },
            EventView::FileRead(contents),
        ) == (
            StateView::Sending { close },
            ActionView::Send {
                bytes: (match contents {
                    Some(bytes) => ResponseView {
                        status: StatusCode::Okay,
                        content_type,
                        content_encoding: None,
                        body: spec_strip_newline(bytes),
                        connection_close: close,
                    },
                    None => ResponseView {
                        status: StatusCode::NotFound,
                        content_type: ContentType::TextPlain,
                        content_encoding: None,
                        body: Seq::empty(),
                        connection_close: close,
                    },
                }).wire(),
            },
        ),
{
}

/// A response names a coding only where the compression gave the coded
/// body, and then that body is what it carries: where the compression
/// failed, the body is sent as it was and no coding is named.
pub proof fn lemma_coding_applied(
    root: Seq<u8>,
    answer: AnswerView,
    coding: AcceptEncoding,
    close: bool,
    coded: Option<Seq<u8>>,
)
    ensures
        spec_step(
            root,
            StateView::Compressing { answer, coding, close },
            EventView::Compressed(coded),
        ) == (
            StateView::Sending { close },
            ActionView::Send {
                bytes: ResponseView {
                    status: answer.status,
                    content_type: answer.content_type,
                    content_encoding: match coded {
                        Some(_) => Some(coding),
                        None => None,
                    },
                    body: match coded {
                        Some(bytes) => bytes,
                        None => answer.body,
                    },
                    connection_close: close,
                }.wire(),
            },
        ),
{
}

impl StateView {
    /// Whether the connection is over, or will be once the response under
    /// way is written: the request that is being served asked for that.
    pub open spec fn closing(self) -> bool {
        match self {
            StateView::Reading => false,
            StateView::ReadingFile { close, .. } => close,
            StateView::WritingFile { close, .. } => close,
            StateView::Compressing { close, .. } => close,
            StateView::Sending { close } => close,
            StateView::Closed => true,
        }
    }
}

/// The state that the handler is in after these events, one after another.
pub open spec fn spec_run(root: Seq<u8>, state: StateView, events: Seq<EventView>) -> StateView
    decreases events.len(),
{
    if events.len() == 0 {
        state
    } else {
        spec_run(root, spec_step(root, state, events[0]).0, events.drop_first())
    }
}

/// A request that asks for the connection to be closed puts the handler in
/// a closing state.
pub proof fn lemma_close_asked(root: Seq<u8>, request: RequestView)
    requires
        request.wants_close(),
    ensures
        spec_serve(root, request).0.closing(),
{
}

/// From a closing state the handler steps to a closing state and never
/// asks for a read: no further request is served. A response that it sends
/// on the way says that the connection is closed, and once that response is
/// written the socket is closed.
pub proof fn lemma_closing_step(root: Seq<u8>, state: StateView, event: EventView)
    requires
        state.closing(),
    ensures
        spec_step(root, state, event).0.closing(),
        !(spec_step(root, state, event).1 is Read),
        spec_step(root, state, event).1 matches ActionView::Send { bytes } ==> exists|
            r: ResponseView,
        |
            r.connection_close && bytes == #[trigger] r.wire(),
        state == (StateView::Sending { close: true }) && event == EventView::Sent(true)
            ==> spec_step(root, state, event) == spec_close(),
{
    match (state, event) {
        (
            StateView::ReadingFile { content_type, encoding, close },
            EventView::FileRead(contents),
        ) => {
            let r = spec_response(spec_read_answer(content_type, contents), None, None, close);
            assert(r.connection_close);
            assert(encoding is None ==> spec_step(root, state, event).1 == ActionView::Send {
                bytes: r.wire(),
            });
        },
        (StateView::WritingFile { encoding, close }, EventView::FileWritten(stored)) => {
            let r = spec_response(spec_write_answer(stored), None, None, close);
            assert(r.connection_close);
            assert(encoding is None ==> spec_step(root, state, event).1 == ActionView::Send {
                bytes: r.wire(),
            });
        },
        (StateView::Compressing { answer, coding, close }, EventView::Compressed(coded)) => {
            let r = spec_response(answer, Some(coding), coded, close);
            assert(r.connection_close);
            assert(spec_step(root, state, event).1 == ActionView::Send { bytes: r.wire() });
        },
        _ => {},
    }
}

/// Once the handler is in a closing state it stays in one, whatever
/// happens: it never reads a request again.
pub proof fn lemma_closing_run(root: Seq<u8>, state: StateView, events: Seq<EventView>)
    requires
        state.closing(),
    ensures
        spec_run(root, state, events).closing(),
        spec_run(root, state, events) != StateView::Reading,
    decreases events.len(),
{
    if events.len() > 0 {
        lemma_closing_step(root, state, events[0]);
        lemma_closing_run(root, spec_step(root, state, events[0]).0, events.drop_first());
    }
}

/// Of the headers of a request only `User-Agent`, `Accept-Encoding` and
/// `Connection` bear on how it is served: two requests that agree on
/// these, on the method, the path and the body are served alike.
pub proof fn lemma_other_headers_ignored(root: Seq<u8>, a: RequestView, b: RequestView)
    requires
        a.method == b.method,
        a.path == b.path,
        a.body == b.body,
        a.header(ascii("user-agent"@)) == b.header(ascii("user-agent"@)),
        a.header(ascii("accept-encoding"@)) == b.header(ascii("accept-encoding"@)),
        a.header(ascii("connection"@)) == b.header(ascii("connection"@)),
    ensures
        spec_serve(root, a) == spec_serve(root, b),
{
}

/// A request that does not ask for the connection to be closed leaves it
/// open: the handler is in no closing state, and once the response is
/// written it reads the next request from the same socket.
pub proof fn lemma_keep_alive(root: Seq<u8>, request: RequestView)
    requires
        !request.wants_close(),
    ensures
        !spec_serve(root, request).0.closing(),
        spec_step(root, StateView::Sending { close: false }, EventView::Sent(true))
            == spec_read(),
{
}

/// One request is served at a time: the handler asks for a read only once
/// the response to the request before was written in full, on a connection
/// that stays open.
pub proof fn lemma_read_follows_send(root: Seq<u8>, state: StateView, event: EventView)
    requires
        spec_step(root, state, event).1 is Read,
    ensures
        state == (StateView::Sending { close: false }),
        event == EventView::Sent(true),
        spec_step(root, state, event) == spec_read(),
{
}

/// The handler sends bytes only as the last step of serving a request, and
/// what it sends is a response on the wire.
pub proof fn lemma_sends_responses(root: Seq<u8>, state: StateView, event: EventView)
    requires
        spec_step(root, state, event).1 is Send,
    ensures
        spec_step(root, state, event).0 is Sending,
        exists|r: ResponseView| spec_step(root, state, event).1 == (ActionView::Send {
            bytes: #[trigger] r.wire(),
        }),
{
    match (state, event) {
        (StateView::Reading, EventView::Read(Some(bytes))) => {
            let request = spec_parse(bytes)->Ok_0;
            let route = spec_route(request.method, request.path);
            let answer = spec_answer(route, request)->0;
            let r = spec_response(answer, None, None, request.wants_close());
            assert(spec_step(root, state, event).1 == ActionView::Send { bytes: r.wire() });
        },
        (
            StateView::ReadingFile { content_type, encoding, close },
            EventView::FileRead(contents),
        ) => {
            let r = spec_response(spec_read_answer(content_type, contents), None, None, close);
            assert(spec_step(root, state, event).1 == ActionView::Send { bytes: r.wire() });
        },
        (StateView::WritingFile { encoding, close }, EventView::FileWritten(stored)) => {
            let r = spec_response(spec_write_answer(stored), None, None, close);
            assert(spec_step(root, state, event).1 == ActionView::Send { bytes: r.wire() });
        },
        (StateView::Compressing { answer, coding, close }, EventView::Compressed(coded)) => {
            let r = spec_response(answer, Some(coding), coded, close);
            assert(spec_step(root, state, event).1 == ActionView::Send { bytes: r.wire() });
        },
        _ => {},
    }
}

} // verus!
