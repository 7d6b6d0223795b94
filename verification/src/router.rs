//! The router: from the method and the path of a request to the handler
//! that serves it, and the answers of the handlers that need no file.

use crate::request::{Request, RequestView};
use crate::response::ContentType;
use crate::statuscode::StatusCode;
use crate::text::{
    ascii, ascii_bytes, equal, free_of, lemma_free_of_contains, lemma_split_after, lemma_split_free,
    lemma_split_whole, spec_split, split, views,
};
use vstd::prelude::*;

verus! {

/// The handler that serves a request, with what the path hands to it.
#[derive(Debug, PartialEq, Eq)]
pub enum Route {
    /// The root: the path is empty.
    Root,
    /// Send back the text that follows `echo/`.
    Echo(Vec<u8>),
    /// Send back the `User-Agent` header of the request.
    UserAgent,
    /// Send the file of this name.
    ReadFile(Vec<u8>),
    /// Store the body of the request in the file of this name.
    WriteFile(Vec<u8>),
    /// No handler serves the path.
    NotFound,
}

/// What a route is: the model that the contracts speak of.
pub enum RouteView {
    Root,
    Echo(Seq<u8>),
    UserAgent,
    ReadFile(Seq<u8>),
    WriteFile(Seq<u8>),
    NotFound,
}

impl View for Route {
    type V = RouteView;

    open spec fn view(&self) -> RouteView {
        match self {
            Route::Root => RouteView::Root,
            Route::Echo(text) => RouteView::Echo(text@),
            Route::UserAgent => RouteView::UserAgent,
            Route::ReadFile(name) => RouteView::ReadFile(name@),
            Route::WriteFile(name) => RouteView::WriteFile(name@),
            Route::NotFound => RouteView::NotFound,
        }
    }
}

/// A slash, which separates the segments of a path.
pub open spec fn slash() -> Seq<u8> {
    seq![47u8]
}

/// The segments of a path: its pieces between the slashes.
pub open spec fn spec_segments(path: Seq<u8>) -> Seq<Seq<u8>> {
    spec_split(path, slash())
}

/// The route of a request with this method and this path, the path without
/// its leading slash. The first segment of the path picks the handler, the
/// second is handed to it, and further segments are not looked at. Only
/// `POST` is told apart from the other methods, and only under `files`.
pub open spec fn spec_route(method: Seq<u8>, path: Seq<u8>) -> RouteView {
    let segments = spec_segments(path);
    let first = segments[0];
    if first == ascii("echo"@) {
        if segments.len() > 1 {
            RouteView::Echo(segments[1])
        } else {
            RouteView::NotFound
        }
    } else if first == Seq::<u8>::empty() {
        RouteView::Root
    } else if first == ascii("user-agent"@) {
        RouteView::UserAgent
    } else if first == ascii("files"@) {
        if segments.len() < 2 {
            RouteView::NotFound
        } else if method == ascii("POST"@) {
            RouteView::WriteFile(segments[1])
        } else {
            RouteView::ReadFile(segments[1])
        }
    } else {
        RouteView::NotFound
    }
}

/// The route of `request`.
pub fn route(request: &Request) -> (r: Route)
    ensures
        r@ == spec_route(request@.method, request@.path),
{
    proof {
        reveal_strlit("echo");
        reveal_strlit("user-agent");
        reveal_strlit("files");
        reveal_strlit("POST");
    }
    let sep: [u8; 1] = [47];
    assert(sep@ =~= slash());
    let segments = split(request.path().as_slice(), sep.as_slice());
    assert(views(segments@).len() == segments@.len());
    assert(views(segments@)[0] == segments@[0]@);
    let first = segments[0].as_slice();
    if equal(first, ascii_bytes("echo")) {
        if segments.len() > 1 {
            assert(views(segments@)[1] == segments@[1]@);
            Route::Echo(segments[1].clone())
        } else {
            Route::NotFound
        }
    } else if first.len() == 0 {
        assert(first@ =~= Seq::<u8>::empty());
        Route::Root
    } else if equal(first, ascii_bytes("user-agent")) {
        Route::UserAgent
    } else if equal(first, ascii_bytes("files")) {
        if segments.len() < 2 {
            Route::NotFound
        } else {
            assert(views(segments@)[1] == segments@[1]@);
            if equal(request.method().as_slice(), ascii_bytes("POST")) {
                Route::WriteFile(segments[1].clone())
            } else {
                Route::ReadFile(segments[1].clone())
            }
        }
    } else {
        Route::NotFound
    }
}

/// What a handler answers: a response before content negotiation and the
/// connection directive are applied to it.
#[derive(Debug, PartialEq, Eq)]
pub struct Answer {
    pub status: StatusCode,
    pub content_type: ContentType,
    pub body: Vec<u8>,
}

/// What an answer is: the model that the contracts speak of.
pub struct AnswerView {
    pub status: StatusCode,
    pub content_type: ContentType,
    pub body: Seq<u8>,
}

impl View for Answer {
    type V = AnswerView;

    open spec fn view(&self) -> AnswerView {
        AnswerView { status: self.status, content_type: self.content_type, body: self.body@ }
    }
}

impl AnswerView {
    /// The answer with this status, no body and the content type of plain text.
    pub open spec fn empty(status: StatusCode) -> AnswerView {
        AnswerView { status, content_type: ContentType::TextPlain, body: Seq::empty() }
    }

    /// The answer that carries `body` as plain text, with status 200.
    pub open spec fn text(body: Seq<u8>) -> AnswerView {
        AnswerView { status: StatusCode::Okay, content_type: ContentType::TextPlain, body }
    }
}

impl Answer {
    /// The answer with this status, no body and the content type of plain text.
    pub fn empty(status: StatusCode) -> (a: Answer)
        ensures
            a@ == AnswerView::empty(status),
    {
        Answer { status, content_type: ContentType::TextPlain, body: Vec::new() }
    }

    /// The answer that carries `body` as plain text, with status 200.
    pub fn text(body: Vec<u8>) -> (a: Answer)
        ensures
            a@ == AnswerView::text(body@),
    {
        Answer { status: StatusCode::Okay, content_type: ContentType::TextPlain, body }
    }
}

/// The answer to `request` on `route`, for the routes that are served
/// without a file: the root answers 200 with no body, `echo` with its text,
/// `user-agent` with the `User-Agent` header of the request, and a path that
/// no handler serves is answered 404 with no body.
pub open spec fn spec_answer(route: RouteView, request: RequestView) -> Option<AnswerView> {
    match route {
        RouteView::Root => Some(AnswerView::text(Seq::empty())),
        RouteView::Echo(text) => Some(AnswerView::text(text)),
        RouteView::UserAgent => Some(AnswerView::text(request.header(ascii("user-agent"@)))),
        RouteView::NotFound => Some(AnswerView::empty(StatusCode::NotFound)),
        RouteView::ReadFile(_) => None,
        RouteView::WriteFile(_) => None,
    }
}

/// The answer to `request` on `route`, for the routes that are served
/// without a file.
pub fn answer(route: &Route, request: &Request) -> (r: Option<Answer>)
    ensures
        match spec_answer(route@, request@) {
            Some(a) => r matches Some(given) && given@ == a,
            None => r is None,
        },
{
    proof {
        reveal_strlit("user-agent");
    }
    match route {
        Route::Root => Some(Answer::text(Vec::new())),
        Route::Echo(text) => Some(Answer::text(text.clone())),
        Route::UserAgent => Some(Answer::text(request.header(ascii_bytes("user-agent")))),
        Route::NotFound => Some(Answer::empty(StatusCode::NotFound)),
        Route::ReadFile(_) => None,
        Route::WriteFile(_) => None,
    }
}

/// The path `echo/` with a text behind it that holds no slash is routed
/// to `echo` with that text, whatever the method.
pub proof fn lemma_route_echo(method: Seq<u8>, text: Seq<u8>)
    requires
        free_of(text, 47),
    ensures
        spec_route(method, ascii("echo/"@) + text) == RouteView::Echo(text),
{
    reveal_strlit("echo/");
    reveal_strlit("echo");
    let path = ascii("echo/"@) + text;
    assert(path =~= ascii("echo"@) + slash() + text);
    lemma_split_after(ascii("echo"@), slash(), text);
    lemma_free_of_contains(text, slash());
    lemma_split_whole(text, slash());
}

/// The path `files/` with a name behind it that holds no slash is routed
/// to the file of that name: to be written where the method is `POST`, to
/// be read otherwise.
pub proof fn lemma_route_files(method: Seq<u8>, name: Seq<u8>)
    requires
        free_of(name, 47),
    ensures
        spec_route(method, ascii("files/"@) + name) == if method == ascii("POST"@) {
            RouteView::WriteFile(name)
        } else {
            RouteView::ReadFile(name)
        },
{
    reveal_strlit("files/");
    reveal_strlit("files");
    reveal_strlit("echo");
    reveal_strlit("user-agent");
    let path = ascii("files/"@) + name;
    assert(path =~= ascii("files"@) + slash() + name);
    lemma_split_after(ascii("files"@), slash(), name);
    lemma_free_of_contains(name, slash());
    lemma_split_whole(name, slash());
    assert(ascii("files"@).len() == 5);
    assert(ascii("echo"@).len() == 4);
    assert(ascii("user-agent"@).len() == 10);
}

/// What a route hands to its handler holds no slash: the file service is
/// asked for names that are one segment of a path.
pub proof fn lemma_route_free_of_slash(method: Seq<u8>, path: Seq<u8>)
    ensures
        match spec_route(method, path) {
            RouteView::Echo(text) => free_of(text, 47),
            RouteView::ReadFile(name) => free_of(name, 47),
            RouteView::WriteFile(name) => free_of(name, 47),
            _ => true,
        },
{
    if spec_segments(path).len() > 1 {
        lemma_split_free(path, 47, 1);
    }
}

} // verus!
