//! Outgoing HTTP response type, its builder, the [`IntoResponse`]
//! conversion trait, and the exact HTTP/1.1 serialization of a response.
//!
//! Serialization produces bytes only; the caller owns the stream and writes
//! them. The wire layout is pinned down byte for byte by [`response_wire`]:
//! status line, a `content-length` header computed from the body, each
//! stored header, a blank line, then the body.

use vstd::prelude::*;

use crate::status::Status;

verus! {

use vstd::utf8::encode_utf8;

use crate::status::status_code;
use crate::status::reason_phrase;
use crate::status::status_reason;

/// Common content-type values for use with [`ResponseBuilder::bytes`].
#[derive(Clone, Copy, Debug, PartialEq, Eq, Structural)]
pub enum ContentType {
    Csv,
    EventStream,
    FormData,
    Html,
    Json,
    MsgPack,
    OctetStream,
    Pdf,
    Text,
    Xml,
}

/// The header value that names a content type on the wire.
pub open spec fn content_type_name(c: ContentType) -> Seq<char> {
    match c {
        ContentType::Csv => "text/csv"@,
        ContentType::EventStream => "text/event-stream"@,
        ContentType::FormData => "application/x-www-form-urlencoded"@,
        ContentType::Html => "text/html; charset=utf-8"@,
        ContentType::Json => "application/json"@,
        ContentType::MsgPack => "application/msgpack"@,
        ContentType::OctetStream => "application/octet-stream"@,
        ContentType::Pdf => "application/pdf"@,
        ContentType::Text => "text/plain; charset=utf-8"@,
        ContentType::Xml => "application/xml"@,
    }
}

impl ContentType {
    /// Returns the header value for this content type.
    pub fn as_str(&self) -> (r: &'static str)
        ensures
            r@ == content_type_name(*self),
    {
        match self {
            ContentType::Csv => "text/csv",
            ContentType::EventStream => "text/event-stream",
            ContentType::FormData => "application/x-www-form-urlencoded",
            ContentType::Html => "text/html; charset=utf-8",
            ContentType::Json => "application/json",
            ContentType::MsgPack => "application/msgpack",
            ContentType::OctetStream => "application/octet-stream",
            ContentType::Pdf => "application/pdf",
            ContentType::Text => "text/plain; charset=utf-8",
            ContentType::Xml => "application/xml",
        }
    }
}

/// An outgoing HTTP response: a status code, an ordered list of header
/// name/value pairs, and a byte body.
pub struct Response {
    pub status: u16,
    pub headers: Vec<(String, String)>,
    pub body: Vec<u8>,
}

/// The header pairs of a response as character sequences, in order.
pub open spec fn headers_view(hs: Seq<(String, String)>) -> Seq<(Seq<char>, Seq<char>)> {
    hs.map_values(|p: (String, String)| (p.0@, p.1@))
}

/// The decimal digits of `n`, most significant first, as ASCII bytes.
pub open spec fn dec_digits(n: nat) -> Seq<u8>
    decreases n,
{
    if n < 10 {
        seq![(48 + n) as u8]
    } else {
        dec_digits(n / 10).push((48 + n % 10) as u8)
    }
}

/// The two bytes that end a line on the wire.
pub open spec fn crlf() -> Seq<u8> {
    seq![13u8, 10u8]
}

/// One serialized header line: `name: value` and a line ending.
pub open spec fn header_line_wire(name: Seq<char>, value: Seq<char>) -> Seq<u8> {
    encode_utf8(name) + seq![58u8, 32u8] + encode_utf8(value) + crlf()
}

/// The serialized form of a list of header lines, in order.
pub open spec fn headers_wire(hs: Seq<(Seq<char>, Seq<char>)>) -> Seq<u8>
    decreases hs.len(),
{
    if hs.len() == 0 {
        Seq::empty()
    } else {
        header_line_wire(hs[0].0, hs[0].1) + headers_wire(hs.drop_first())
    }
}

/// The serialized status line: `HTTP/1.1 <code> <reason>` and a line ending.
pub open spec fn status_line_wire(status: u16) -> Seq<u8> {
    encode_utf8("HTTP/1.1 "@) + dec_digits(status as nat) + seq![32u8] + encode_utf8(
        reason_phrase(status),
    ) + crlf()
}

/// The serialized `content-length` header for a body of `n` bytes.
pub open spec fn content_length_wire(n: nat) -> Seq<u8> {
    encode_utf8("content-length: "@) + dec_digits(n) + crlf()
}

/// The full wire form of a response: status line, computed content-length,
/// the stored headers, a blank line, then the body.
pub open spec fn response_wire(status: u16, headers: Seq<(Seq<char>, Seq<char>)>, body: Seq<u8>) -> Seq<u8> {
    status_line_wire(status) + content_length_wire(body.len()) + headers_wire(headers) + crlf()
        + body
}

/// Appends a byte slice to an output buffer.
fn append_bytes(out: &mut Vec<u8>, s: &[u8])
    ensures
        final(out)@ == old(out)@ + s@,
{
    let n = s.len();
    let mut i: usize = 0;
    while i < n
        invariant
            n == s@.len(),
            0 <= i <= n,
            out@ == old(out)@ + s@.subrange(0, i as int),
        decreases n - i,
    {
        out.push(s[i]);
        proof {
            assert(old(out)@ + s@.subrange(0, (i + 1) as int) =~= (old(out)@ + s@.subrange(
                0,
                i as int,
            )).push(s@[i as int]));
        }
        i += 1;
    }
    proof {
        assert(s@.subrange(0, n as int) =~= s@);
    }
}

/// Appends the UTF-8 bytes of a string to an output buffer.
fn append_str(out: &mut Vec<u8>, s: &str)
    ensures
        final(out)@ == old(out)@ + encode_utf8(s@),
{
    append_bytes(out, s.as_bytes());
}

/// Appends the decimal digits of `n` to an output buffer.
fn append_dec(out: &mut Vec<u8>, n: usize)
    ensures
        final(out)@ == old(out)@ + dec_digits(n as nat),
    decreases n,
{
    if n < 10 {
        out.push((48 + n) as u8);
        proof {
            assert(out@ =~= old(out)@ + dec_digits(n as nat));
        }
    } else {
        append_dec(out, n / 10);
        out.push((48 + n % 10) as u8);
        proof {
            assert(out@ =~= old(out)@ + dec_digits(n as nat));
        }
    }
}

impl Response {
    /// `200 OK` with an `application/json` body.
    pub fn json(body: Vec<u8>) -> (r: Response)
        ensures
            r.status == 200,
            headers_view(r.headers@) =~= seq![("content-type"@, "application/json"@)],
            r.body@ == body@,
    {
        Self::bytes_raw("application/json", body)
    }

    /// `200 OK` with a `text/plain; charset=utf-8` body.
    pub fn text(body: &str) -> (r: Response)
        ensures
            r.status == 200,
            headers_view(r.headers@) =~= seq![("content-type"@, "text/plain; charset=utf-8"@)],
            r.body@ == encode_utf8(body@),
    {
        let bytes = body.as_bytes_vec();
        Self::bytes_raw("text/plain; charset=utf-8", bytes)
    }

    /// A response with the given status and no body.
    pub fn status(code: Status) -> (r: Response)
        ensures
            r.status == status_code(code),
            r.headers@.len() == 0,
            r.body@.len() == 0,
    {
        Response { status: code.code(), headers: Vec::new(), body: Vec::new() }
    }

    /// Builder for responses that need a custom status or extra headers.
    pub fn builder() -> (r: ResponseBuilder)
        ensures
            r.status == 200,
            r.headers@.len() == 0,
    {
        ResponseBuilder { headers: Vec::new(), status: 200 }
    }

    /// `200 OK` with the given content type and body bytes.
    pub fn bytes_raw(content_type: &str, body: Vec<u8>) -> (r: Response)
        ensures
            r.status == 200,
            headers_view(r.headers@) =~= seq![("content-type"@, content_type@)],
            r.body@ == body@,
    {
        let mut headers: Vec<(String, String)> = Vec::new();
        headers.push(("content-type".to_owned(), content_type.to_owned()));
        Response { status: 200, headers, body }
    }

    /// Serializes this response onto the end of an output buffer, in the
    /// exact wire form given by [`response_wire`].
    pub fn write_to(&self, out: &mut Vec<u8>)
        ensures
            final(out)@ == old(out)@ + response_wire(self.status, headers_view(self.headers@), self.body@),
    {
        append_str(out, "HTTP/1.1 ");
        append_dec(out, self.status as usize);
        out.push(32);
        append_str(out, status_reason(self.status));
        out.push(13);
        out.push(10);
        append_str(out, "content-length: ");
        append_dec(out, self.body.len());
        out.push(13);
        out.push(10);
        proof {
            assert(out@ =~= old(out)@ + status_line_wire(self.status) + content_length_wire(
                self.body@.len(),
            ));
        }
        let ghost mid = out@;
        let n = self.headers.len();
        let mut i: usize = 0;
        while i < n
            invariant
                n == self.headers@.len(),
                0 <= i <= n,
                out@ == mid + headers_wire(headers_view(self.headers@).take(i as int)),
            decreases n - i,
        {
            let ghost before = out@;
            append_str(out, self.headers[i].0.as_str());
            out.push(58);
            out.push(32);
            append_str(out, self.headers[i].1.as_str());
            out.push(13);
            out.push(10);
            proof {
                let hv = headers_view(self.headers@);
                assert(out@ =~= before + header_line_wire(hv[i as int].0, hv[i as int].1));
                lemma_headers_wire_snoc(hv, i as int);
                assert(out@ =~= mid + headers_wire(hv.take(i as int + 1)));
            }
            i += 1;
        }
        proof {
            let hv = headers_view(self.headers@);
            assert(hv.take(n as int) =~= hv);
        }
        out.push(13);
        out.push(10);
        append_bytes(out, self.body.as_slice());
        proof {
            assert(out@ =~= old(out)@ + response_wire(
                self.status,
                headers_view(self.headers@),
                self.body@,
            ));
        }
    }
}

/// Serializing one more header appends exactly that header's line.
proof fn lemma_headers_wire_snoc(hs: Seq<(Seq<char>, Seq<char>)>, i: int)
    requires
        0 <= i < hs.len(),
    ensures
        headers_wire(hs.take(i + 1)) == headers_wire(hs.take(i)) + header_line_wire(
            hs[i].0,
            hs[i].1,
        ),
    decreases i,
{
    if i == 0 {
        assert(hs.take(1)[0] == hs[0]);
        assert(hs.take(1).drop_first() =~= Seq::<(Seq<char>, Seq<char>)>::empty());
        assert(headers_wire(Seq::<(Seq<char>, Seq<char>)>::empty()) == Seq::<u8>::empty());
        assert(headers_wire(hs.take(1)) =~= header_line_wire(hs[0].0, hs[0].1));
        assert(hs.take(0) =~= Seq::<(Seq<char>, Seq<char>)>::empty());
        assert(headers_wire(hs.take(0)) + header_line_wire(hs[0].0, hs[0].1) =~= header_line_wire(
            hs[0].0,
            hs[0].1,
        ));
    } else {
        lemma_headers_wire_snoc(hs.drop_first(), i - 1);
        assert(hs.take(i + 1).drop_first() =~= hs.drop_first().take(i));
        assert(hs.take(i).drop_first() =~= hs.drop_first().take(i - 1));
        assert(hs.take(i + 1)[0] == hs[0]);
        assert(hs.take(i)[0] == hs[0]);
        assert(hs.drop_first()[i - 1] == hs[i]);
        assert(headers_wire(hs.take(i + 1)) =~= headers_wire(hs.take(i)) + header_line_wire(
            hs[i].0,
            hs[i].1,
        ));
    }
}

/// Fluent builder for [`Response`]; defaults to status 200.
pub struct ResponseBuilder {
    pub headers: Vec<(String, String)>,
    pub status: u16,
}

impl ResponseBuilder {
    /// Replaces the status code.
    pub fn status(self, code: Status) -> (r: ResponseBuilder)
        ensures
            r.status == status_code(code),
            r.headers@ == self.headers@,
    {
        ResponseBuilder { status: code.code(), headers: self.headers }
    }

    /// Appends one header pair.
    pub fn header(self, name: &str, value: &str) -> (r: ResponseBuilder)
        ensures
            r.status == self.status,
            headers_view(r.headers@) =~= headers_view(self.headers@).push((name@, value@)),
    {
        let mut headers = self.headers;
        headers.push((name.to_owned(), value.to_owned()));
        ResponseBuilder { status: self.status, headers }
    }

    /// Terminates with a JSON body (`application/json`).
    pub fn json(self, body: Vec<u8>) -> (r: Response)
        ensures
            r.status == self.status,
            headers_view(r.headers@) =~= seq![("content-type"@, "application/json"@)]
                + headers_view(self.headers@),
            r.body@ == body@,
    {
        self.finish("application/json", body)
    }

    /// Terminates with a plain-text body (`text/plain; charset=utf-8`).
    pub fn text(self, body: &str) -> (r: Response)
        ensures
            r.status == self.status,
            headers_view(r.headers@) =~= seq![("content-type"@, "text/plain; charset=utf-8"@)]
                + headers_view(self.headers@),
            r.body@ == encode_utf8(body@),
    {
        let bytes = body.as_bytes_vec();
        self.finish("text/plain; charset=utf-8", bytes)
    }

    /// Terminates with a typed body; use this for XML, HTML, binary, SSE.
    pub fn bytes(self, content_type: ContentType, body: Vec<u8>) -> (r: Response)
        ensures
            r.status == self.status,
            headers_view(r.headers@) =~= seq![("content-type"@, content_type_name(content_type))]
                + headers_view(self.headers@),
            r.body@ == body@,
    {
        let name = content_type.as_str();
        self.finish(name, body)
    }

    /// Terminates with no body.
    pub fn no_body(self) -> (r: Response)
        ensures
            r.status == self.status,
            r.headers@ == self.headers@,
            r.body@.len() == 0,
    {
        Response { body: Vec::new(), headers: self.headers, status: self.status }
    }

    /// Terminates with the given content type and body bytes.
    pub fn finish(self, content_type: &str, body: Vec<u8>) -> (r: Response)
        ensures
            r.status == self.status,
            headers_view(r.headers@) =~= seq![("content-type"@, content_type@)] + headers_view(
                self.headers@,
            ),
            r.body@ == body@,
    {
        let mut headers: Vec<(String, String)> = Vec::new();
        headers.push(("content-type".to_owned(), content_type.to_owned()));
        let n = self.headers.len();
        let mut i: usize = 0;
        while i < n
            invariant
                n == self.headers@.len(),
                0 <= i <= n,
                headers@.len() == i + 1,
                headers@[0].0@ == "content-type"@,
                headers@[0].1@ == content_type@,
                forall|j: int| 0 <= j < i ==> headers@[j + 1] == self.headers@[j],
            decreases n - i,
        {
            let name = self.headers[i].0.clone();
            let value = self.headers[i].1.clone();
            headers.push((name, value));
            i += 1;
        }
        proof {
            assert(headers_view(headers@) =~~= seq![("content-type"@, content_type@)]
                + headers_view(self.headers@));
        }
        Response { body, headers, status: self.status }
    }
}

/// Conversion into an HTTP [`Response`].
///
/// Implemented for the handler return shapes the engine accepts: a full
/// response, plain text, or a bare status code. The conversion is total:
/// every value of an implementing type maps to some valid response, and
/// each implementation's contract pins down which one.
pub trait IntoResponse {
    fn into_response(self) -> Response;
}

impl IntoResponse for Response {
    /// A response converts to itself, untouched.
    fn into_response(self) -> (r: Response)
        ensures
            r == self,
    {
        self
    }
}

impl IntoResponse for &'static str {
    /// A string converts to `200 OK` with itself as a plain-text body.
    fn into_response(self) -> (r: Response)
        ensures
            r.status == 200,
            headers_view(r.headers@) =~= seq![("content-type"@, "text/plain; charset=utf-8"@)],
            r.body@ == encode_utf8(self@),
    {
        Response::text(self)
    }
}

impl IntoResponse for String {
    /// A string converts to `200 OK` with itself as a plain-text body.
    fn into_response(self) -> (r: Response)
        ensures
            r.status == 200,
            headers_view(r.headers@) =~= seq![("content-type"@, "text/plain; charset=utf-8"@)],
            r.body@ == encode_utf8(self@),
    {
        Response::text(self.as_str())
    }
}

impl IntoResponse for Status {
    /// A status code converts to the bare response carrying exactly that
    /// code: no headers, no body.
    fn into_response(self) -> (r: Response)
        ensures
            r.status == status_code(self),
            r.headers@.len() == 0,
            r.body@.len() == 0,
    {
        Response::status(self)
    }
}

} // verus!
