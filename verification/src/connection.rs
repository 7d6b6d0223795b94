//! The handler of one connection, as a state machine.
//!
//! The handler does no I/O. It is told what happened (an [`Event`]) and says
//! what is to be done next (an [`Action`]); whoever owns the socket performs
//! the action and comes back with the event that tells how it went. A
//! connection starts in [`State::Reading`] with [`Action::Read`].

use crate::files::{
    content_type_for, default_root, file_path, read_answer, spec_content_type_for,
    spec_default_root, spec_file_path, spec_read_answer, spec_write_answer, write_answer,
};
use crate::request::{spec_parse, Request, RequestView};
use crate::response::{AcceptEncoding, ContentType, Response, ResponseView};
use crate::router::{answer, route, spec_answer, spec_route, Answer, AnswerView, Route, RouteView};
use crate::text::option_view;
use vstd::prelude::*;

verus! {

/// The most bytes that one read takes from the socket. A request that does
/// not fit arrives cut off, and is served as what the cut-off bytes say; what
/// is left of it is read as the next request.
pub const READ_BUFFER_SIZE: usize = 256;

/// Where the handling of a connection stands.
#[derive(Debug, PartialEq, Eq)]
pub enum State {
    /// A read from the socket is under way.
    Reading,
    /// A file is being read for a response of this content type.
    ReadingFile { content_type: ContentType, encoding: Option<AcceptEncoding>, close: bool },
    /// A file is being written.
    WritingFile { encoding: Option<AcceptEncoding>, close: bool },
    /// The body of this answer is being compressed.
    Compressing { answer: Answer, coding: AcceptEncoding, close: bool },
    /// A response is being written to the socket.
    Sending { close: bool },
    /// The connection is over.
    Closed,
}

/// What a state is: the model that the contracts speak of.
pub enum StateView {
    Reading,
    ReadingFile { content_type: ContentType, encoding: Option<AcceptEncoding>, close: bool },
    WritingFile { encoding: Option<AcceptEncoding>, close: bool },
    Compressing { answer: AnswerView, coding: AcceptEncoding, close: bool },
    Sending { close: bool },
    Closed,
}

impl View for State {
    type V = StateView;

    open spec fn view(&self) -> StateView {
        match self {
            State::Reading => StateView::Reading,
            State::ReadingFile { content_type, encoding, close } => StateView::ReadingFile {
                content_type: *content_type,
                encoding: *encoding,
                close: *close,
            },
            State::WritingFile { encoding, close } => StateView::WritingFile {
                encoding: *encoding,
                close: *close,
            },
            State::Compressing { answer, coding, close } => StateView::Compressing {
                answer: answer@,
                coding: *coding,
                close: *close,
            },
            State::Sending { close } => StateView::Sending { close: *close },
            State::Closed => StateView::Closed,
        }
    }
}

/// How the action that the handler asked for went.
#[derive(Debug, PartialEq, Eq)]
pub enum Event {
    /// The read returned these bytes, none where the peer has closed; or it
    /// failed (`None`).
    Read(Option<Vec<u8>>),
    /// The file holds these bytes; or it could not be read (`None`).
    FileRead(Option<Vec<u8>>),
    /// Whether the file was written.
    FileWritten(bool),
    /// The compressed body; or the compression failed (`None`).
    Compressed(Option<Vec<u8>>),
    /// Whether the response was written to the socket in full.
    Sent(bool),
}

/// What an event is: the model that the contracts speak of.
pub enum EventView {
    Read(Option<Seq<u8>>),
    FileRead(Option<Seq<u8>>),
    FileWritten(bool),
    Compressed(Option<Seq<u8>>),
    Sent(bool),
}

impl View for Event {
    type V = EventView;

    open spec fn view(&self) -> EventView {
        match self {
            Event::Read(bytes) => EventView::Read(option_view(*bytes)),
            Event::FileRead(bytes) => EventView::FileRead(option_view(*bytes)),
            Event::FileWritten(stored) => EventView::FileWritten(*stored),
            Event::Compressed(bytes) => EventView::Compressed(option_view(*bytes)),
            Event::Sent(sent) => EventView::Sent(*sent),
        }
    }
}

/// What is to be done next for the connection.
#[derive(Debug, PartialEq, Eq)]
pub enum Action {
    /// Read from the socket once, at most `limit` bytes.
    Read { limit: usize },
    /// Read the file at `path`.
    ReadFile { path: Vec<u8> },
    /// Create the file at `path`, or replace it, with `contents`.
    WriteFile { path: Vec<u8>, contents: Vec<u8> },
    /// Compress `body` as gzip.
    Compress { body: Vec<u8> },
    /// Write `bytes` to the socket.
    Send { bytes: Vec<u8> },
    /// Close the socket; nothing more is to be done.
    Close,
}

/// What an action is: the model that the contracts speak of.
pub enum ActionView {
    Read { limit: usize },
    ReadFile { path: Seq<u8> },
    WriteFile { path: Seq<u8>, contents: Seq<u8> },
    Compress { body: Seq<u8> },
    Send { bytes: Seq<u8> },
    Close,
}

impl View for Action {
    type V = ActionView;

    open spec fn view(&self) -> ActionView {
        match self {
            Action::Read { limit } => ActionView::Read { limit: *limit },
            Action::ReadFile { path } => ActionView::ReadFile { path: path@ },
            Action::WriteFile { path, contents } => ActionView::WriteFile {
                path: path@,
                contents: contents@,
            },
            Action::Compress { body } => ActionView::Compress { body: body@ },
            Action::Send { bytes } => ActionView::Send { bytes: bytes@ },
            Action::Close => ActionView::Close,
        }
    }
}

/// The end of a connection: the state `Closed`, and the socket to be closed.
pub open spec fn spec_close() -> (StateView, ActionView) {
    (StateView::Closed, ActionView::Close)
}

/// The wait for a request: the state `Reading`, and a read of at most
/// `READ_BUFFER_SIZE` bytes to be made.
pub open spec fn spec_read() -> (StateView, ActionView) {
    (StateView::Reading, ActionView::Read { limit: READ_BUFFER_SIZE })
}

/// The response that is sent for `answer`, given the coding that the client
/// accepts, what the compression made of the body, and whether the
/// connection is to be closed.
pub open spec fn spec_response(
    answer: AnswerView,
    encoding: Option<AcceptEncoding>,
    compressed: Option<Seq<u8>>,
    close: bool,
) -> ResponseView {
    ResponseView::spec_new(
        answer.status,
        encoding,
        answer.content_type,
        answer.body,
        compressed,
        close,
    )
}

/// What follows once the answer to a request is there: where the client
/// accepts a coding, the body is first handed out to be compressed;
/// otherwise the response is sent as it is.
pub open spec fn spec_deliver(
    answer: AnswerView,
    encoding: Option<AcceptEncoding>,
    close: bool,
) -> (StateView, ActionView) {
    match encoding {
        Some(coding) => (
            StateView::Compressing { answer, coding, close },
            ActionView::Compress { body: answer.body },
        ),
        None => (
            StateView::Sending { close },
            ActionView::Send { bytes: spec_response(answer, None, None, close).wire() },
        ),
    }
}

/// What follows once a request was read: a file is asked for or handed out
/// to be stored, under the root, where the route needs one; otherwise the
/// answer of the route is delivered.
pub open spec fn spec_serve(root: Seq<u8>, request: RequestView) -> (StateView, ActionView) {
    let encoding = request.accept_encoding();
    let close = request.wants_close();
    match spec_route(request.method, request.path) {
        RouteView::ReadFile(name) => (
            StateView::ReadingFile { content_type: spec_content_type_for(name), encoding, close },
            ActionView::ReadFile { path: spec_file_path(root, name) },
        ),
        RouteView::WriteFile(name) => (
            StateView::WritingFile { encoding, close },
            ActionView::WriteFile { path: spec_file_path(root, name), contents: request.body },
        ),
        route => spec_deliver(spec_answer(route, request)->0, encoding, close),
    }
}

/// The step of the handler: the state that follows `state` on `event`, and
/// the action to perform.
///
/// - Reading: a read that failed or returned nothing ends the connection,
///   and so do bytes that are no request and more bytes than were asked
///   for; a request is served.
/// - ReadingFile, WritingFile: the answer that the outcome calls for is
///   delivered.
/// - Compressing: the response is sent, with the coded body where the
///   compression gave one, else with the body as it was and no coding named.
/// - Sending: once the response is written, the connection ends where the
///   request asked for that, and the next request is read otherwise; a
///   failed write ends it.
/// - An event that does not answer the action of the state ends the
///   connection, and `Closed` stays `Closed`.
pub open spec fn spec_step(root: Seq<u8>, state: StateView, event: EventView) -> (
    StateView,
    ActionView,
) {
    match (state, event) {
        (StateView::Reading, EventView::Read(Some(bytes))) => {
            if bytes.len() == 0 || bytes.len() > READ_BUFFER_SIZE {
                spec_close()
            } else {
                match spec_parse(bytes) {
                    Ok(request) => spec_serve(root, request),
                    Err(_) => spec_close(),
                }
            }
        },
        (
            StateView::ReadingFile { content_type, encoding, close },
            EventView::FileRead(contents),
        ) => spec_deliver(spec_read_answer(content_type, contents), encoding, close),
        (StateView::WritingFile { encoding, close }, EventView::FileWritten(stored)) => {
            spec_deliver(spec_write_answer(stored), encoding, close)
        },
        (StateView::Compressing { answer, coding, close }, EventView::Compressed(coded)) => (
            StateView::Sending { close },
            ActionView::Send { bytes: spec_response(answer, Some(coding), coded, close).wire() },
        ),
        (StateView::Sending { close }, EventView::Sent(true)) => {
            if close {
                spec_close()
            } else {
                spec_read()
            }
        },
        _ => spec_close(),
    }
}

/// The handler of connections: it knows the root that files are served from.
#[derive(Debug, PartialEq, Eq)]
pub struct ConnectionHandler {
    root: Vec<u8>,
}

impl ConnectionHandler {
    /// The root that files are served from.
    pub closed spec fn root(&self) -> Seq<u8> {
        self.root@
    }

    /// A handler that serves files from `root`, or from the working
    /// directory where none is given.
    pub fn new(root: Option<Vec<u8>>) -> (handler: ConnectionHandler)
        ensures
            handler.root() == match root {
                Some(r) => r@,
                None => spec_default_root(),
            },
    {
        match root {
            Some(r) => ConnectionHandler { root: r },
            None => ConnectionHandler { root: default_root() },
        }
    }

    /// The state and the action that a connection starts with.
    pub fn start(&self) -> (r: (State, Action))
        ensures
            (r.0@, r.1@) == spec_read(),
    {
        (State::Reading, Action::Read { limit: READ_BUFFER_SIZE })
    }

    /// What follows once the answer to a request is there.
    fn deliver(answer: Answer, encoding: Option<AcceptEncoding>, close: bool) -> (r: (
        State,
        Action,
    ))
        ensures
            (r.0@, r.1@) == spec_deliver(answer@, encoding, close),
    {
        match encoding {
            Some(coding) => {
                let body = answer.body.clone();
                (State::Compressing { answer, coding, close }, Action::Compress { body })
            },
            None => {
                let response = Response::new(
                    answer.status,
                    None,
                    answer.content_type,
                    answer.body.as_slice(),
                    None,
                    close,
                );
                (State::Sending { close }, Action::Send { bytes: response.format_bytes() })
            },
        }
    }

    /// What follows once a request was read.
    fn serve(&self, request: &Request) -> (r: (State, Action))
        ensures
            (r.0@, r.1@) == spec_serve(self.root(), request@),
    {
        let encoding = request.accept_encoding();
        let close = request.wants_close();
        let route = route(request);
        match route {
            Route::ReadFile(name) => (
                State::ReadingFile {
                    content_type: content_type_for(name.as_slice()),
                    encoding,
                    close,
                },
                Action::ReadFile { path: file_path(self.root.as_slice(), name.as_slice()) },
            ),
            Route::WriteFile(name) => (
                State::WritingFile { encoding, close },
                Action::WriteFile {
                    path: file_path(self.root.as_slice(), name.as_slice()),
                    contents: request.body().clone(),
                },
            ),
            _ => {
                match answer(&route, request) {
                    Some(given) => Self::deliver(given, encoding, close),
                    None => (State::Closed, Action::Close),
                }
            },
        }
    }

    /// The step of the handler: the state that follows `state` on `event`,
    /// and the action to perform.
    pub fn step(&self, state: State, event: Event) -> (r: (State, Action))
        ensures
            (r.0@, r.1@) == spec_step(self.root(), state@, event@),
    {
        match (state, event) {
            (State::Reading, Event::Read(Some(bytes))) => {
                if bytes.len() == 0 || bytes.len() > READ_BUFFER_SIZE {
                    (State::Closed, Action::Close)
                } else {
                    match Request::parse(bytes.as_slice()) {
                        Ok(request) => self.serve(&request),
                        Err(_) => (State::Closed, Action::Close),
                    }
                }
            },
            (State::ReadingFile { content_type, encoding, close }, Event::FileRead(contents)) => {
                Self::deliver(read_answer(content_type, contents), encoding, close)
            },
            (State::WritingFile { encoding, close }, Event::FileWritten(stored)) => {
                Self::deliver(write_answer(stored), encoding, close)
            },
            (State::Compressing { answer, coding, close }, Event::Compressed(coded)) => {
                let response = Response::new(
                    answer.status,
                    Some(coding),
                    answer.content_type,
                    answer.body.as_slice(),
                    coded,
                    close,
                );
                (State::Sending { close }, Action::Send { bytes: response.format_bytes() })
            },
            (State::Sending { close }, Event::Sent(true)) => {
                if close {
                    (State::Closed, Action::Close)
                } else {
                    (State::Reading, Action::Read { limit: READ_BUFFER_SIZE })
                }
            },
            _ => (State::Closed, Action::Close),
        }
    }
}

} // verus!
