//! Requests, and how one is read from the bytes that a read returned.

use crate::message::{
    blank_line, crlf, header_lines, header_of, lemma_frame, read_message, space, spec_header,
    spec_header_of, spec_headers_of, spec_lines, spec_message, spec_rest, terminated, Headers,
};
use crate::response::{comma_space, AcceptEncoding};
use crate::text::{
    ascii, ascii_bytes, contains, copy_range, equal, free_of, lemma_split_after, lemma_split_first,
    lemma_split_whole, lower, parse_decimal, spec_lower, spec_occurs_at, spec_parse_decimal,
    spec_split, split, views,
};
use vstd::prelude::*;

verus! {

/// Why the bytes of a read are no request.
#[derive(Clone, Copy, Debug, PartialEq, Eq, Structural)]
pub enum ParseError {
    /// The first line has no second word: it names no path.
    MalformedRequestLine,
    /// A `Content-Length` header does not hold a number.
    InvalidContentLength,
}

/// What a request is: the model that the contracts speak of.
pub struct RequestView {
    /// The first word of the request line.
    pub method: Seq<u8>,
    /// The second word of the request line, without its leading slash.
    pub path: Seq<u8>,
    /// The headers by name, the names in lower case.
    pub headers: Map<Seq<u8>, Seq<u8>>,
    pub body: Seq<u8>,
}

impl RequestView {
    /// The value of the header `name`, whatever the case of its letters;
    /// empty where the request has no such header.
    pub open spec fn header(self, name: Seq<u8>) -> Seq<u8> {
        spec_header(self.headers, name)
    }

    /// Whether the request asks that the connection be closed after the
    /// response: its `Connection` header is `close`, in any case of letters.
    pub open spec fn wants_close(self) -> bool {
        spec_lower(self.header(ascii("connection"@))) == ascii("close"@)
    }

    /// The coding that the client accepts for the body of the response.
    pub open spec fn accept_encoding(self) -> Option<AcceptEncoding> {
        AcceptEncoding::spec_negotiate(self.header(ascii("accept-encoding"@)))
    }
}

/// `target` without its leading slash, if it has one.
pub open spec fn spec_strip_slash(target: Seq<u8>) -> Seq<u8> {
    if target.len() > 0 && target[0] == 47 {
        target.skip(1)
    } else {
        target
    }
}

/// Whether the line is a `Content-Length` header whose value is no number.
pub open spec fn is_bad_content_length(line: Seq<u8>) -> bool {
    match spec_header_of(line) {
        Some((name, value)) => name == spec_lower(ascii("content-length"@)) && spec_parse_decimal(
            value,
        ) is None,
        None => false,
    }
}

/// Whether one of the lines is a `Content-Length` header whose value is no
/// number.
pub open spec fn has_bad_content_length(lines: Seq<Seq<u8>>) -> bool {
    exists|k: int| 0 <= k < lines.len() && is_bad_content_length(#[trigger] lines[k])
}

/// The length that the headers announce for the body: the number in
/// `Content-Length`, and zero where there is no such header or no number
/// in it.
pub open spec fn spec_announced_length(headers: Map<Seq<u8>, Seq<u8>>) -> nat {
    match spec_parse_decimal(spec_header(headers, ascii("content-length"@))) {
        Some(n) => n as nat,
        None => 0,
    }
}

/// The first `announced` bytes of `rest`, or all of it where it is shorter.
pub open spec fn spec_body(rest: Seq<u8>, announced: nat) -> Seq<u8> {
    if announced < rest.len() {
        rest.take(announced as int)
    } else {
        rest
    }
}

/// The request that the bytes of a read hold.
///
/// The head ends at the first empty line. Its first line is the request
/// line: the method, a space, the path; what follows a second space is not
/// looked at. The other lines of the head give the headers. The body is what
/// follows the empty line, cut to the announced length.
pub open spec fn spec_parse(buf: Seq<u8>) -> Result<RequestView, ParseError> {
    let lines = spec_lines(buf);
    let words = spec_split(lines[0], space());
    let headers = spec_headers_of(lines.skip(1));
    if words.len() < 2 {
        Err(ParseError::MalformedRequestLine)
    } else if has_bad_content_length(lines.skip(1)) {
        Err(ParseError::InvalidContentLength)
    } else {
        Ok(
            RequestView {
                method: words[0],
                path: spec_strip_slash(words[1]),
                headers,
                body: spec_body(spec_rest(buf), spec_announced_length(headers)),
            },
        )
    }
}

/// A request.
#[derive(Debug)]
pub struct Request {
    method: Vec<u8>,
    path: Vec<u8>,
    headers: Headers,
    body: Vec<u8>,
}

impl View for Request {
    type V = RequestView;

    closed spec fn view(&self) -> RequestView {
        RequestView {
            method: self.method@,
            path: self.path@,
            headers: self.headers@,
            body: self.body@,
        }
    }
}

/// Whether none of the lines after the first is a `Content-Length` header
/// whose value is no number.
fn content_lengths_valid(lines: &Vec<Vec<u8>>) -> (ok: bool)
    requires
        lines.len() >= 1,
    ensures
        ok == !has_bad_content_length(views(lines@).skip(1)),
{
    proof {
        reveal_strlit("content-length");
    }
    let name = lower(ascii_bytes("content-length"));
    let ghost rest = views(lines@).skip(1);
    let mut i: usize = 1;
    while i < lines.len()
        invariant
            1 <= i <= lines.len(),
            name@ == spec_lower(ascii("content-length"@)),
            rest == views(lines@).skip(1),
            forall|k: int| 0 <= k < i - 1 ==> !is_bad_content_length(#[trigger] rest[k]),
        decreases lines.len() - i,
    {
        assert(rest[i - 1] == lines@[i as int]@);
        match header_of(lines[i].as_slice()) {
            Some(pair) => {
                if equal(pair.0.as_slice(), name.as_slice()) && parse_decimal(
                    pair.1.as_slice(),
                ).is_none() {
                    assert(is_bad_content_length(rest[i - 1]));
                    return false;
                }
            },
            None => {},
        }
        i += 1;
    }
    true
}

impl Request {
    /// The request that the bytes of a read hold, or why they hold none.
    pub fn parse(buf: &[u8]) -> (r: Result<Request, ParseError>)
        ensures
            match spec_parse(buf@) {
                Ok(request) => r matches Ok(parsed) && parsed@ == request,
                Err(e) => r matches Err(error) && error == e,
            },
    {
        proof {
            reveal_strlit("content-length");
        }
        let (lines, rest, _) = read_message(buf);
        let sp: [u8; 1] = [32];
        assert(sp@ =~= space());
        assert(views(lines@)[0] == lines@[0]@);
        let words = split(lines[0].as_slice(), sp.as_slice());
        assert(views(words@).len() == words@.len());
        if words.len() < 2 {
            return Err(ParseError::MalformedRequestLine);
        }
        if !content_lengths_valid(&lines) {
            return Err(ParseError::InvalidContentLength);
        }
        let headers = Headers::parse(header_lines(&lines));
        let announced: u64 = match parse_decimal(
            headers.value(ascii_bytes("content-length")).as_slice(),
        ) {
            Some(n) => n,
            None => 0,
        };
        let body = if announced < rest.len() as u64 {
            copy_range(rest.as_slice(), 0, announced as usize)
        } else {
            rest
        };
        assert(views(words@)[0] == words@[0]@);
        assert(views(words@)[1] == words@[1]@);
        let target = words[1].as_slice();
        let path = if target.len() > 0 && target[0] == 47 {
            copy_range(target, 1, target.len())
        } else {
            copy_range(target, 0, target.len())
        };
        assert(path@ =~= spec_strip_slash(target@));
        Ok(Request { method: words[0].clone(), path, headers, body })
    }

    /// The method of the request.
    pub fn method(&self) -> (r: &Vec<u8>)
        ensures
            r@ == self@.method,
    {
        &self.method
    }

    /// The path of the request, without its leading slash.
    pub fn path(&self) -> (r: &Vec<u8>)
        ensures
            r@ == self@.path,
    {
        &self.path
    }

    /// The body of the request.
    pub fn body(&self) -> (r: &Vec<u8>)
        ensures
            r@ == self@.body,
    {
        &self.body
    }

    /// The value of the header `name`, whatever the case of its letters;
    /// empty where the request has no such header.
    pub fn header(&self, name: &[u8]) -> (r: Vec<u8>)
        ensures
            r@ == self@.header(name@),
    {
        self.headers.value(name)
    }

    /// Whether the request asks that the connection be closed after the
    /// response.
    pub fn wants_close(&self) -> (r: bool)
        ensures
            r == self@.wants_close(),
    {
        proof {
            reveal_strlit("connection");
            reveal_strlit("close");
        }
        let value = lower(self.headers.value(ascii_bytes("connection")).as_slice());
        equal(value.as_slice(), ascii_bytes("close"))
    }

    /// The coding that the client accepts for the body of the response.
    pub fn accept_encoding(&self) -> (r: Option<AcceptEncoding>)
        ensures
            r == self@.accept_encoding(),
    {
        proof {
            reveal_strlit("accept-encoding");
        }
        AcceptEncoding::negotiate(self.headers.value(ascii_bytes("accept-encoding")).as_slice())
    }
}

/// A request without headers accepts no coding, does not ask for the
/// connection to be closed, and gives the empty value for every header.
pub proof fn lemma_no_headers(request: RequestView, name: Seq<u8>)
    requires
        request.headers == Map::<Seq<u8>, Seq<u8>>::empty(),
    ensures
        request.header(name) == Seq::<u8>::empty(),
        request.accept_encoding() is None,
        !request.wants_close(),
{
    reveal_strlit("gzip");
    reveal_strlit("close");
    let none = Seq::<u8>::empty();
    assert(!contains(none, comma_space())) by {
        assert forall|i: int| !spec_occurs_at(none, comma_space(), i) by {}
    }
    lemma_split_whole(none, comma_space());
    assert(ascii("gzip"@).len() == 4);
    assert(!seq![none].contains(ascii("gzip"@)));
    assert(spec_lower(none).len() == 0);
    assert(ascii("close"@).len() == 5);
}

/// The request that a request line alone makes: the line, with a method
/// and a target that hold no space, and an empty line behind it.
pub proof fn lemma_parse_request_line(method: Seq<u8>, target: Seq<u8>, version: Seq<u8>)
    requires
        free_of(method, 32),
        free_of(target, 32),
        !contains(method + space() + target + space() + version, crlf()),
    ensures
        spec_parse(method + space() + target + space() + version + blank_line()) == Ok::<
            RequestView,
            ParseError,
        >(
            RequestView {
                method,
                path: spec_strip_slash(target),
                headers: Map::empty(),
                body: Seq::empty(),
            },
        ),
{
    let line = method + space() + target + space() + version;
    let bytes = line + blank_line();
    let none = Seq::<u8>::empty();
    assert(terminated(seq![line].drop_first()) =~= none);
    assert(spec_message(seq![line], none) =~= bytes);
    lemma_frame(seq![line], none);
    assert(line =~= method + space() + (target + space() + version));
    lemma_split_after(method, space(), target + space() + version);
    lemma_split_after(target, space(), version);
    lemma_split_first(version, space());
    let lines = spec_lines(bytes);
    assert(lines.skip(1) =~= Seq::<Seq<u8>>::empty());
    let headers = spec_headers_of(lines.skip(1));
    assert(headers == Map::<Seq<u8>, Seq<u8>>::empty());
    assert(!has_bad_content_length(lines.skip(1)));
    assert(spec_header(headers, ascii("content-length"@)) == none);
    assert(spec_parse_decimal(none) is None);
}

} // verus!
