//! Responses and their form on the wire.

use crate::message::{
    blank_line, colon_space, crlf, framable, header_line, header_lines, lemma_frame,
    lemma_header_of_line, lemma_headers_concat, lemma_headers_one, lemma_terminated_push,
    read_message, space, spec_header, spec_headers_of, spec_lines, spec_message, spec_rest,
    terminated, Headers,
};
use crate::statuscode::StatusCode;
use crate::text::{
    ascii, ascii_bytes, contains, decimal, equal, free_of, lemma_decimal_value,
    lemma_digits_free_of, lemma_free_of_concat, lemma_free_of_contains, lemma_parse_decimal,
    lemma_split_after, lemma_split_first, lower, option_view, parse_decimal, spec_decimal,
    spec_find, spec_lower, spec_parse_decimal, spec_split, split, views,
};
use vstd::prelude::*;
use vstd::slice::slice_to_vec;
use vstd::utf8::is_ascii_chars;

verus! {

/// The media type of a response body.
#[derive(Clone, Copy, Debug, PartialEq, Eq, Structural)]
pub enum ContentType {
    TextPlain,
    TextHtml,
    ApplicationOctetStream,
}

impl ContentType {
    /// The name of the media type.
    pub open spec fn spec_str(&self) -> Seq<char> {
        match self {
            ContentType::TextPlain => "text/plain"@,
            ContentType::TextHtml => "text/html"@,
            ContentType::ApplicationOctetStream => "application/octet-stream"@,
        }
    }

    /// The media type of this name, if it is one of those that are sent.
    pub open spec fn spec_from_name(name: Seq<u8>) -> Option<ContentType> {
        if name == ascii("text/plain"@) {
            Some(ContentType::TextPlain)
        } else if name == ascii("text/html"@) {
            Some(ContentType::TextHtml)
        } else if name == ascii("application/octet-stream"@) {
            Some(ContentType::ApplicationOctetStream)
        } else {
            None
        }
    }

    /// The name of the media type.
    pub fn str(&self) -> (s: &'static str)
        ensures
            s@ == self.spec_str(),
            is_ascii_chars(s@),
    {
        proof {
            reveal_strlit("text/plain");
            reveal_strlit("text/html");
            reveal_strlit("application/octet-stream");
        }
        match self {
            ContentType::TextPlain => "text/plain",
            ContentType::TextHtml => "text/html",
            ContentType::ApplicationOctetStream => "application/octet-stream",
        }
    }

    /// The media type of this name, if it is one of those that are sent.
    pub fn from_name(name: &[u8]) -> (r: Option<ContentType>)
        ensures
            r == Self::spec_from_name(name@),
    {
        proof {
            reveal_strlit("text/plain");
            reveal_strlit("text/html");
            reveal_strlit("application/octet-stream");
        }
        if equal(name, ascii_bytes("text/plain")) {
            Some(ContentType::TextPlain)
        } else if equal(name, ascii_bytes("text/html")) {
            Some(ContentType::TextHtml)
        } else if equal(name, ascii_bytes("application/octet-stream")) {
            Some(ContentType::ApplicationOctetStream)
        } else {
            None
        }
    }
}

/// A content coding that a client may accept and a response may carry.
#[derive(Clone, Copy, Debug, PartialEq, Eq, Structural)]
pub enum AcceptEncoding {
    Gzip,
}

impl AcceptEncoding {
    /// The name of the coding.
    pub open spec fn spec_str(&self) -> Seq<char> {
        match self {
            AcceptEncoding::Gzip => "gzip"@,
        }
    }

    /// The coding to apply for a client whose `Accept-Encoding` header has
    /// the value `accepted`: gzip where one of the names in that list, which
    /// a comma and a space separate, is exactly `gzip`.
    pub open spec fn spec_negotiate(accepted: Seq<u8>) -> Option<AcceptEncoding> {
        if spec_split(accepted, comma_space()).contains(ascii("gzip"@)) {
            Some(AcceptEncoding::Gzip)
        } else {
            None
        }
    }

    /// The name of the coding.
    pub fn str(&self) -> (s: &'static str)
        ensures
            s@ == self.spec_str(),
            is_ascii_chars(s@),
    {
        proof {
            reveal_strlit("gzip");
        }
        match self {
            AcceptEncoding::Gzip => "gzip",
        }
    }

    /// The coding to apply for a client whose `Accept-Encoding` header has
    /// the value `accepted`.
    pub fn negotiate(accepted: &[u8]) -> (r: Option<AcceptEncoding>)
        ensures
            r == Self::spec_negotiate(accepted@),
    {
        proof {
            reveal_strlit("gzip");
        }
        let sep: [u8; 2] = [44, 32];
        assert(sep@ =~= comma_space());
        let names = split(accepted, sep.as_slice());
        let gzip = ascii_bytes("gzip");
        let mut i: usize = 0;
        while i < names.len()
            invariant
                i <= names.len(),
                gzip@ == ascii("gzip"@),
                views(names@) == spec_split(accepted@, comma_space()),
                forall|k: int| 0 <= k < i ==> views(names@)[k] != gzip@,
            decreases names.len() - i,
        {
            if equal(names[i].as_slice(), gzip) {
                assert(views(names@)[i as int] == gzip@);
                return Some(AcceptEncoding::Gzip);
            }
            i += 1;
        }
        None
    }
}

/// What separates the names in a list of codings: a comma and a space.
pub open spec fn comma_space() -> Seq<u8> {
    seq![44u8, 32u8]
}

/// The status that a status line gives: its first word must be `HTTP/1.1`,
/// its second the number of a status.
pub open spec fn spec_status_of(line: Seq<u8>) -> Option<StatusCode> {
    let words = spec_split(line, space());
    if words.len() >= 2 && words[0] == ascii("HTTP/1.1"@) {
        match spec_parse_decimal(words[1]) {
            Some(code) => StatusCode::spec_from_code(code),
            None => None,
        }
    } else {
        None
    }
}

/// The status that a status line gives.
pub fn status_of(line: &[u8]) -> (r: Option<StatusCode>)
    ensures
        r == spec_status_of(line@),
{
    proof {
        reveal_strlit("HTTP/1.1");
    }
    let sp: [u8; 1] = [32];
    assert(sp@ =~= space());
    let words = split(line, sp.as_slice());
    assert(views(words@).len() == words@.len());
    if words.len() < 2 {
        return None;
    }
    assert(views(words@)[0] == words@[0]@);
    assert(views(words@)[1] == words@[1]@);
    if !equal(words[0].as_slice(), ascii_bytes("HTTP/1.1")) {
        return None;
    }
    match parse_decimal(words[1].as_slice()) {
        Some(code) => StatusCode::from_code(code),
        None => None,
    }
}

/// What a response is: the model that the contracts speak of.
pub struct ResponseView {
    pub status: StatusCode,
    pub content_type: ContentType,
    /// The coding that was applied to the body, if any.
    pub content_encoding: Option<AcceptEncoding>,
    /// The body as it is sent: the coded bytes where a coding was applied.
    pub body: Seq<u8>,
    pub connection_close: bool,
}

impl ResponseView {
    /// The response with the given status, content type and connection
    /// directive, for a client that accepts `accept_encoding`, where
    /// `compressed` is what the compression backend made of `body`: `None`
    /// where it was not run or failed. The response carries the coded bytes
    /// and names the coding only where the client accepts one and the coded
    /// bytes are there; otherwise it carries `body` as it is and names none.
    pub open spec fn spec_new(
        status: StatusCode,
        accept_encoding: Option<AcceptEncoding>,
        content_type: ContentType,
        body: Seq<u8>,
        compressed: Option<Seq<u8>>,
        connection_close: bool,
    ) -> ResponseView {
        match (accept_encoding, compressed) {
            (Some(encoding), Some(coded)) => ResponseView {
                status,
                content_type,
                content_encoding: Some(encoding),
                body: coded,
                connection_close,
            },
            _ => ResponseView {
                status,
                content_type,
                content_encoding: None,
                body,
                connection_close,
            },
        }
    }

    /// The status line: `HTTP/1.1`, the number of the status and its reason
    /// phrase, with a space between them.
    pub open spec fn status_line(self) -> Seq<u8> {
        ascii("HTTP/1.1"@) + space() + spec_decimal(self.status.spec_code() as nat) + space()
            + ascii(self.status.spec_reason_phrase())
    }

    /// The status line and the header lines, in the order in which they are
    /// sent: `Content-Encoding` where a coding was applied, `Content-Type`,
    /// `Content-Length` with the length of the body as it is sent, and
    /// `Connection: Close` where the connection is to be closed.
    pub open spec fn head_lines(self) -> Seq<Seq<u8>> {
        seq![self.status_line()] + (match self.content_encoding {
            Some(coding) => seq![header_line(ascii("Content-Encoding"@), ascii(coding.spec_str()))],
            None => seq![],
        }) + seq![
            header_line(ascii("Content-Type"@), ascii(self.content_type.spec_str())),
            header_line(ascii("Content-Length"@), spec_decimal(self.body.len())),
        ] + (if self.connection_close {
            seq![header_line(ascii("Connection"@), ascii("Close"@))]
        } else {
            seq![]
        })
    }

    /// The bytes of the response on the wire: each line of the head with its
    /// line end, an empty line, and the body as it is.
    pub open spec fn wire(self) -> Seq<u8> {
        spec_message(self.head_lines(), self.body)
    }

    /// The response that the bytes hold, if they hold one.
    ///
    /// The head must end in an empty line, and the body is all that follows
    /// it. The first line gives the status: `HTTP/1.1`, a space, and the
    /// number of a status; what follows a second space is not looked at. The
    /// head must name a content type that is sent, name no coding or gzip,
    /// and give the length of the body as `Content-Length`. The connection
    /// is to be closed where `Connection` is `close`, in any case of letters.
    pub open spec fn spec_parse(bytes: Seq<u8>) -> Option<ResponseView> {
        let lines = spec_lines(bytes);
        let headers = spec_headers_of(lines.skip(1));
        let body = spec_rest(bytes);
        let status = spec_status_of(lines[0]);
        let content_type = ContentType::spec_from_name(
            spec_header(headers, ascii("content-type"@)),
        );
        let coding = spec_header(headers, ascii("content-encoding"@));
        let length = spec_parse_decimal(spec_header(headers, ascii("content-length"@)));
        let known_coding = coding.len() == 0 || coding == ascii("gzip"@);
        let right_length = body.len() <= u64::MAX && length == Some(body.len() as u64);
        if spec_find(bytes, blank_line()) is Some && status is Some && content_type is Some
            && known_coding && right_length {
            Some(
                ResponseView {
                    status: status->0,
                    content_type: content_type->0,
                    content_encoding: if coding.len() == 0 {
                        None
                    } else {
                        Some(AcceptEncoding::Gzip)
                    },
                    body,
                    connection_close: spec_lower(spec_header(headers, ascii("connection"@)))
                        == ascii("close"@),
                },
            )
        } else {
            None
        }
    }
}

/// A response: what `format_bytes` turns into bytes.
#[derive(Debug, PartialEq, Eq)]
pub struct Response {
    status: StatusCode,
    content_type: ContentType,
    accept_encoding: Option<AcceptEncoding>,
    body: Vec<u8>,
    connection_close: bool,
}

impl View for Response {
    type V = ResponseView;

    closed spec fn view(&self) -> ResponseView {
        ResponseView {
            status: self.status,
            content_type: self.content_type,
            content_encoding: self.accept_encoding,
            body: self.body@,
            connection_close: self.connection_close,
        }
    }
}

/// Appends the bytes of `s`.
fn push_text(out: &mut Vec<u8>, s: &str)
    requires
        is_ascii_chars(s@),
    ensures
        final(out)@ == old(out)@ + ascii(s@),
{
    push_bytes(out, ascii_bytes(s));
}

/// Appends `b`.
fn push_bytes(out: &mut Vec<u8>, b: &[u8])
    ensures
        final(out)@ == old(out)@ + b@,
{
    out.extend_from_slice(b);
    assert(out@ =~= old(out)@ + b@);
}

/// Appends the line of the header `name` with the value `value`, and its
/// line end. `lines` are the lines that `out` holds.
fn push_header(out: &mut Vec<u8>, name: &str, value: &[u8], Ghost(lines): Ghost<Seq<Seq<u8>>>)
    requires
        is_ascii_chars(name@),
        old(out)@ == terminated(lines),
    ensures
        final(out)@ == terminated(lines.push(header_line(ascii(name@), value@))),
{
    push_text(out, name);
    out.push(58);
    out.push(32);
    push_bytes(out, value);
    out.push(13);
    out.push(10);
    proof {
        lemma_terminated_push(lines, header_line(ascii(name@), value@));
        assert(out@ =~= terminated(lines) + header_line(ascii(name@), value@) + crlf());
    }
}

impl Response {
    /// The response with the given status, content type and connection
    /// directive, for a client that accepts `accept_encoding`, where
    /// `compressed` is what the compression backend made of `body`: `None`
    /// where it was not run or failed.
    pub fn new(
        status: StatusCode,
        accept_encoding: Option<AcceptEncoding>,
        content_type: ContentType,
        body: &[u8],
        compressed: Option<Vec<u8>>,
        connection_close: bool,
    ) -> (r: Response)
        ensures
            r@ == ResponseView::spec_new(
                status,
                accept_encoding,
                content_type,
                body@,
                option_view(compressed),
                connection_close,
            ),
    {
        match (accept_encoding, compressed) {
            (Some(encoding), Some(coded)) => Response {
                status,
                content_type,
                accept_encoding: Some(encoding),
                body: coded,
                connection_close,
            },
            _ => Response {
                status,
                content_type,
                accept_encoding: None,
                body: slice_to_vec(body),
                connection_close,
            },
        }
    }

    /// The response that the bytes hold, if they hold one.
    pub fn parse(bytes: &[u8]) -> (r: Option<Response>)
        ensures
            match ResponseView::spec_parse(bytes@) {
                Some(response) => r matches Some(parsed) && parsed@ == response,
                None => r is None,
            },
    {
        proof {
            reveal_strlit("content-type");
            reveal_strlit("content-encoding");
            reveal_strlit("content-length");
            reveal_strlit("connection");
            reveal_strlit("close");
            reveal_strlit("gzip");
        }
        let (lines, rest, complete) = read_message(bytes);
        if !complete {
            return None;
        }
        assert(views(lines@)[0] == lines@[0]@);
        let status = match status_of(lines[0].as_slice()) {
            Some(status) => status,
            None => {
                return None;
            },
        };
        let headers = Headers::parse(header_lines(&lines));
        let content_type = match ContentType::from_name(
            headers.value(ascii_bytes("content-type")).as_slice(),
        ) {
            Some(content_type) => content_type,
            None => {
                return None;
            },
        };
        let coding = headers.value(ascii_bytes("content-encoding"));
        let accept_encoding = if coding.len() == 0 {
            None
        } else if equal(coding.as_slice(), ascii_bytes("gzip")) {
            Some(AcceptEncoding::Gzip)
        } else {
            return None;
        };
        match parse_decimal(headers.value(ascii_bytes("content-length")).as_slice()) {
            Some(length) => {
                if length != rest.len() as u64 {
                    return None;
                }
            },
            None => {
                return None;
            },
        }
        let connection = lower(headers.value(ascii_bytes("connection")).as_slice());
        let connection_close = equal(connection.as_slice(), ascii_bytes("close"));
        Some(Response { status, content_type, accept_encoding, body: rest, connection_close })
    }

    /// The status of the response.
    pub fn status(&self) -> (r: StatusCode)
        ensures
            r == self@.status,
    {
        self.status
    }

    /// The content type of the response.
    pub fn content_type(&self) -> (r: ContentType)
        ensures
            r == self@.content_type,
    {
        self.content_type
    }

    /// The coding that was applied to the body, if any.
    pub fn content_encoding(&self) -> (r: Option<AcceptEncoding>)
        ensures
            r == self@.content_encoding,
    {
        self.accept_encoding
    }

    /// The body of the response, as it is sent.
    pub fn body(&self) -> (r: &Vec<u8>)
        ensures
            r@ == self@.body,
    {
        &self.body
    }

    /// Whether the connection is to be closed after the response.
    pub fn connection_close(&self) -> (r: bool)
        ensures
            r == self@.connection_close,
    {
        self.connection_close
    }

    /// The bytes of the response on the wire.
    pub fn format_bytes(&self) -> (out: Vec<u8>)
        ensures
            out@ == self@.wire(),
    {
        proof {
            reveal_strlit("HTTP/1.1");
            reveal_strlit("Content-Encoding");
            reveal_strlit("Content-Type");
            reveal_strlit("Content-Length");
            reveal_strlit("Connection");
            reveal_strlit("Close");
        }
        let ghost v = self@;
        let mut out: Vec<u8> = Vec::new();
        let ghost mut lines: Seq<Seq<u8>> = seq![];

        push_text(&mut out, "HTTP/1.1");
        out.push(32);
        push_bytes(&mut out, decimal(self.status.code() as u64).as_slice());
        out.push(32);
        push_text(&mut out, self.status.reason_phrase());
        out.push(13);
        out.push(10);
        proof {
            lemma_terminated_push(lines, v.status_line());
            lines = lines.push(v.status_line());
            assert(out@ =~= terminated(lines));
        }

        if let Some(coding) = self.accept_encoding {
            push_header(&mut out, "Content-Encoding", ascii_bytes(coding.str()), Ghost(lines));
            proof {
                lines = lines.push(
                    header_line(ascii("Content-Encoding"@), ascii(coding.spec_str())),
                );
            }
        }
        push_header(&mut out, "Content-Type", ascii_bytes(self.content_type.str()), Ghost(lines));
        proof {
            lines = lines.push(
                header_line(ascii("Content-Type"@), ascii(v.content_type.spec_str())),
            );
        }
        push_header(
            &mut out,
            "Content-Length",
            decimal(self.body.len() as u64).as_slice(),
            Ghost(lines),
        );
        proof {
            lines = lines.push(header_line(ascii("Content-Length"@), spec_decimal(v.body.len())));
        }
        if self.connection_close {
            push_header(&mut out, "Connection", ascii_bytes("Close"), Ghost(lines));
            proof {
                lines = lines.push(header_line(ascii("Connection"@), ascii("Close"@)));
            }
        }
        assert(lines =~= v.head_lines());
        out.push(13);
        out.push(10);
        push_bytes(&mut out, self.body.as_slice());
        assert(out@ =~= v.wire());
        out
    }
}

proof fn lemma_name_content_encoding()
    ensures
        free_of(ascii("Content-Encoding"@), 58),
        free_of(ascii("Content-Encoding"@), 13),
        spec_lower(ascii("Content-Encoding"@)) == spec_lower(ascii("content-encoding"@)),
        spec_lower(ascii("content-encoding"@)).len() == 16,
{
    reveal_strlit("Content-Encoding");
    reveal_strlit("content-encoding");
    assert(spec_lower(ascii("Content-Encoding"@)) =~= spec_lower(ascii("content-encoding"@)));
}

proof fn lemma_name_content_type()
    ensures
        free_of(ascii("Content-Type"@), 58),
        free_of(ascii("Content-Type"@), 13),
        spec_lower(ascii("Content-Type"@)) == spec_lower(ascii("content-type"@)),
        spec_lower(ascii("content-type"@)).len() == 12,
{
    reveal_strlit("Content-Type");
    reveal_strlit("content-type");
    assert(spec_lower(ascii("Content-Type"@)) =~= spec_lower(ascii("content-type"@)));
}

proof fn lemma_name_content_length()
    ensures
        free_of(ascii("Content-Length"@), 58),
        free_of(ascii("Content-Length"@), 13),
        spec_lower(ascii("Content-Length"@)) == spec_lower(ascii("content-length"@)),
        spec_lower(ascii("content-length"@)).len() == 14,
{
    reveal_strlit("Content-Length");
    reveal_strlit("content-length");
    assert(spec_lower(ascii("Content-Length"@)) =~= spec_lower(ascii("content-length"@)));
}

proof fn lemma_name_connection()
    ensures
        free_of(ascii("Connection"@), 58),
        free_of(ascii("Connection"@), 13),
        spec_lower(ascii("Connection"@)) == spec_lower(ascii("connection"@)),
        spec_lower(ascii("connection"@)).len() == 10,
{
    reveal_strlit("Connection");
    reveal_strlit("connection");
    assert(spec_lower(ascii("Connection"@)) =~= spec_lower(ascii("connection"@)));
}

/// The names of the content types hold no carriage return, and each name
/// is the name of its own type only.
pub proof fn lemma_content_type_name(content_type: ContentType)
    ensures
        free_of(ascii(content_type.spec_str()), 13),
        ContentType::spec_from_name(ascii(content_type.spec_str())) == Some(content_type),
{
    reveal_strlit("text/plain");
    reveal_strlit("text/html");
    reveal_strlit("application/octet-stream");
    assert(ascii("text/plain"@).len() == 10);
    assert(ascii("text/html"@).len() == 9);
    assert(ascii("application/octet-stream"@).len() == 24);
}

proof fn lemma_reason_phrase(status: StatusCode)
    ensures
        free_of(ascii(status.spec_reason_phrase()), 13),
{
    reveal_strlit("OK");
    reveal_strlit("Created");
    reveal_strlit("Not Found");
    reveal_strlit("Internal Server Error");
}

proof fn lemma_coding_and_close()
    ensures
        free_of(ascii("gzip"@), 13),
        ascii("gzip"@).len() == 4,
        free_of(ascii("Close"@), 13),
        spec_lower(ascii("Close"@)) == ascii("close"@),
        ascii("close"@).len() == 5,
{
    reveal_strlit("gzip");
    reveal_strlit("Close");
    reveal_strlit("close");
    assert(spec_lower(ascii("Close"@)) =~= ascii("close"@));
}

proof fn lemma_version()
    ensures
        free_of(ascii("HTTP/1.1"@), 32),
        free_of(ascii("HTTP/1.1"@), 13),
{
    reveal_strlit("HTTP/1.1");
}

/// A status line holds no carriage return, and gives its status back.
pub proof fn lemma_status_line(r: ResponseView)
    ensures
        free_of(r.status_line(), 13),
        spec_status_of(r.status_line()) == Some(r.status),
{
    let version = ascii("HTTP/1.1"@);
    let number = spec_decimal(r.status.spec_code() as nat);
    let phrase = ascii(r.status.spec_reason_phrase());
    lemma_version();
    lemma_reason_phrase(r.status);
    lemma_decimal_value(r.status.spec_code() as nat);
    lemma_digits_free_of(number, 32);
    lemma_digits_free_of(number, 13);
    assert(r.status_line() =~= version + space() + (number + space() + phrase));
    lemma_split_after(version, space(), number + space() + phrase);
    lemma_split_after(number, space(), phrase);
    lemma_split_first(phrase, space());
    lemma_parse_decimal(r.status.spec_code() as u64);
    lemma_free_of_concat(version, space(), 13);
    lemma_free_of_concat(version + space(), number, 13);
    lemma_free_of_concat(version + space() + number, space(), 13);
    lemma_free_of_concat(version + space() + number + space(), phrase, 13);
}

/// The line of a header whose name and value hold no carriage return is
/// not empty and holds no line end.
proof fn lemma_header_line_plain(name: Seq<u8>, value: Seq<u8>)
    requires
        free_of(name, 13),
        free_of(value, 13),
    ensures
        !contains(header_line(name, value), crlf()),
        header_line(name, value).len() > 0,
{
    lemma_free_of_concat(name, colon_space(), 13);
    lemma_free_of_concat(name + colon_space(), value, 13);
    lemma_free_of_contains(header_line(name, value), crlf());
}

/// The lines of the head of a response can be read back from it.
proof fn lemma_wire_framable(r: ResponseView)
    ensures
        framable(r.head_lines()),
{
    let lines = r.head_lines();
    lemma_status_line(r);
    lemma_free_of_contains(r.status_line(), crlf());
    lemma_name_content_encoding();
    lemma_name_content_type();
    lemma_name_content_length();
    lemma_name_connection();
    lemma_coding_and_close();
    lemma_content_type_name(r.content_type);
    lemma_decimal_value(r.body.len());
    lemma_digits_free_of(spec_decimal(r.body.len()), 13);
    lemma_header_line_plain(ascii("Content-Encoding"@), ascii("gzip"@));
    lemma_header_line_plain(ascii("Content-Type"@), ascii(r.content_type.spec_str()));
    lemma_header_line_plain(ascii("Content-Length"@), spec_decimal(r.body.len()));
    lemma_header_line_plain(ascii("Connection"@), ascii("Close"@));
}

/// The headers that the head of a response holds: the content type, the
/// coding where one was applied, the length of the body as it is sent, and
/// `Connection: Close` where the connection is to be closed.
pub proof fn lemma_wire_headers(r: ResponseView)
    ensures
        ({
            let headers = spec_headers_of(r.head_lines().skip(1));
            &&& spec_header(headers, ascii("content-type"@)) == ascii(r.content_type.spec_str())
            &&& spec_header(headers, ascii("content-encoding"@)) == match r.content_encoding {
                Some(coding) => ascii(coding.spec_str()),
                None => Seq::<u8>::empty(),
            }
            &&& spec_header(headers, ascii("content-length"@)) == spec_decimal(r.body.len())
            &&& spec_header(headers, ascii("connection"@)) == if r.connection_close {
                ascii("Close"@)
            } else {
                Seq::<u8>::empty()
            }
        }),
{
    lemma_name_content_encoding();
    lemma_name_content_type();
    lemma_name_content_length();
    lemma_name_connection();
    let coding_line = header_line(ascii("Content-Encoding"@), ascii("gzip"@));
    let type_line = header_line(ascii("Content-Type"@), ascii(r.content_type.spec_str()));
    let length_line = header_line(ascii("Content-Length"@), spec_decimal(r.body.len()));
    let close_line = header_line(ascii("Connection"@), ascii("Close"@));
    let first: Seq<Seq<u8>> = match r.content_encoding {
        Some(coding) => seq![coding_line],
        None => seq![],
    };
    let last: Seq<Seq<u8>> = if r.connection_close {
        seq![close_line]
    } else {
        seq![]
    };
    lemma_header_of_line(ascii("Content-Encoding"@), ascii("gzip"@));
    lemma_header_of_line(ascii("Content-Type"@), ascii(r.content_type.spec_str()));
    lemma_header_of_line(ascii("Content-Length"@), spec_decimal(r.body.len()));
    lemma_header_of_line(ascii("Connection"@), ascii("Close"@));
    lemma_headers_one(coding_line);
    lemma_headers_one(type_line);
    lemma_headers_one(length_line);
    lemma_headers_one(close_line);
    assert(r.head_lines().skip(1) =~= first + seq![type_line] + seq![length_line] + last);
    lemma_headers_concat(first + seq![type_line] + seq![length_line], last);
    lemma_headers_concat(first + seq![type_line], seq![length_line]);
    lemma_headers_concat(first, seq![type_line]);
}

/// The bytes of a response that names no coding and leaves the connection
/// open: the status line, the content type, the length, an empty line and
/// the body.
pub proof fn lemma_wire_plain(r: ResponseView)
    requires
        r.content_encoding is None,
        !r.connection_close,
    ensures
        r.wire() == r.status_line() + crlf() + header_line(
            ascii("Content-Type"@),
            ascii(r.content_type.spec_str()),
        ) + crlf() + header_line(ascii("Content-Length"@), spec_decimal(r.body.len())) + crlf()
            + crlf() + r.body,
{
    let type_line = header_line(ascii("Content-Type"@), ascii(r.content_type.spec_str()));
    let length_line = header_line(ascii("Content-Length"@), spec_decimal(r.body.len()));
    let none = Seq::<Seq<u8>>::empty();
    assert(r.head_lines() =~= none.push(r.status_line()).push(type_line).push(length_line));
    lemma_terminated_push(none, r.status_line());
    lemma_terminated_push(none.push(r.status_line()), type_line);
    lemma_terminated_push(none.push(r.status_line()).push(type_line), length_line);
    assert(terminated(none) =~= Seq::<u8>::empty());
    assert(r.wire() =~= r.status_line() + crlf() + type_line + crlf() + length_line + crlf()
        + crlf() + r.body);
}

/// A response that was turned into bytes is read back from them as it was.
pub proof fn lemma_parse_wire(r: ResponseView)
    requires
        r.body.len() <= u64::MAX,
    ensures
        ResponseView::spec_parse(r.wire()) == Some(r),
{
    lemma_wire_framable(r);
    lemma_frame(r.head_lines(), r.body);
    lemma_status_line(r);
    lemma_wire_headers(r);
    lemma_content_type_name(r.content_type);
    lemma_coding_and_close();
    lemma_parse_decimal(r.body.len() as u64);
    assert(r.head_lines()[0] == r.status_line());
}

} // verus!
