//! The static file service, without the file system: where a file stands,
//! and what is answered once it was read or written.

use crate::response::ContentType;
use crate::router::{Answer, AnswerView};
use crate::statuscode::StatusCode;
use crate::text::{ascii, ascii_bytes, ends_with, option_view, spec_ends_with};
use vstd::prelude::*;

verus! {

/// The root that files are served from where none is configured: the
/// working directory.
pub open spec fn spec_default_root() -> Seq<u8> {
    ascii("."@)
}

/// The root that files are served from where none is configured.
pub fn default_root() -> (root: Vec<u8>)
    ensures
        root@ == spec_default_root(),
{
    proof {
        reveal_strlit(".");
    }
    vstd::slice::slice_to_vec(ascii_bytes("."))
}

/// The path of the file `name` under `root`: the two with a slash between
/// them. The name is taken as it is.
pub open spec fn spec_file_path(root: Seq<u8>, name: Seq<u8>) -> Seq<u8> {
    root + seq![47u8] + name
}

/// The path of the file `name` under `root`.
pub fn file_path(root: &[u8], name: &[u8]) -> (path: Vec<u8>)
    ensures
        path@ == spec_file_path(root@, name@),
{
    let mut path: Vec<u8> = Vec::new();
    path.extend_from_slice(root);
    path.push(47);
    path.extend_from_slice(name);
    assert(path@ =~= spec_file_path(root@, name@));
    path
}

/// The content type that a file of this name is sent with: HTML where the
/// name ends in `.html`, else plain bytes.
pub open spec fn spec_content_type_for(name: Seq<u8>) -> ContentType {
    if spec_ends_with(name, ascii(".html"@)) {
        ContentType::TextHtml
    } else {
        ContentType::ApplicationOctetStream
    }
}

/// The content type that a file of this name is sent with.
pub fn content_type_for(name: &[u8]) -> (t: ContentType)
    ensures
        t == spec_content_type_for(name@),
{
    proof {
        reveal_strlit(".html");
    }
    if ends_with(name, ascii_bytes(".html")) {
        ContentType::TextHtml
    } else {
        ContentType::ApplicationOctetStream
    }
}

/// `contents` without its last byte where that is a line feed: one line
/// feed at most is taken off.
pub open spec fn spec_strip_newline(contents: Seq<u8>) -> Seq<u8> {
    if contents.len() > 0 && contents.last() == 10 {
        contents.drop_last()
    } else {
        contents
    }
}

/// `contents` without its last byte where that is a line feed.
pub fn strip_newline(contents: Vec<u8>) -> (body: Vec<u8>)
    ensures
        body@ == spec_strip_newline(contents@),
{
    let mut body = contents;
    let n = body.len();
    if n > 0 && body[n - 1] == 10 {
        body.pop();
    }
    body
}

/// The answer once a file was asked for: with its contents, 200 and the
/// body without one trailing line feed, under `content_type`; where it
/// could not be read (`None`), 404 with no body.
pub open spec fn spec_read_answer(content_type: ContentType, contents: Option<Seq<u8>>)
    -> AnswerView {
    match contents {
        Some(bytes) => AnswerView {
            status: StatusCode::Okay,
            content_type,
            body: spec_strip_newline(bytes),
        },
        None => AnswerView::empty(StatusCode::NotFound),
    }
}

/// The answer once a file was asked for.
pub fn read_answer(content_type: ContentType, contents: Option<Vec<u8>>) -> (a: Answer)
    ensures
        a@ == spec_read_answer(content_type, option_view(contents)),
{
    match contents {
        Some(bytes) => Answer {
            status: StatusCode::Okay,
            content_type,
            body: strip_newline(bytes),
        },
        None => Answer::empty(StatusCode::NotFound),
    }
}

/// The answer once a file was to be stored: 201 where it was, 500 where it
/// could not be; no body either way.
pub open spec fn spec_write_answer(stored: bool) -> AnswerView {
    if stored {
        AnswerView::empty(StatusCode::Created)
    } else {
        AnswerView::empty(StatusCode::InternalServerError)
    }
}

/// The answer once a file was to be stored.
pub fn write_answer(stored: bool) -> (a: Answer)
    ensures
        a@ == spec_write_answer(stored),
{
    if stored {
        Answer::empty(StatusCode::Created)
    } else {
        Answer::empty(StatusCode::InternalServerError)
    }
}

} // verus!
