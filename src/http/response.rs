//! Responses and their framing on the wire.
use vstd::prelude::*;
use vstd::utf8::encode_utf8;
use crate::http::headers::Headers;
use crate::http::parse::copy_range;
use crate::http::request::{version_net_name, HttpVersion};
use crate::util::{digit, three_digit_to_utf};

verus! {

/// Appends `s` to `out`.
pub fn append_bytes(out: &mut Vec<u8>, s: &[u8])
    ensures
        final(out)@ == old(out)@ + s@,
{
    out.extend_from_slice(s);
    assert(final(out)@ =~= old(out)@ + s@);
}

/// CR LF.
pub open spec fn crlf() -> Seq<u8> {
    seq![13u8, 10u8]
}

/// One header line: `name: value` CR LF.
pub open spec fn header_line(h: (Seq<char>, Seq<char>)) -> Seq<u8> {
    encode_utf8(h.0) + seq![58u8, 32u8] + encode_utf8(h.1) + crlf()
}

/// Header lines, in order.
pub open spec fn header_lines(hs: Seq<(Seq<char>, Seq<char>)>) -> Seq<u8>
    decreases hs.len(),
{
    if hs.len() == 0 {
        Seq::empty()
    } else {
        header_lines(hs.drop_last()) + header_line(hs.last())
    }
}

/// The decimal digits of `n`, most significant first, without leading zeros.
pub open spec fn decimal(n: nat) -> Seq<u8>
    decreases n,
{
    if n < 10 {
        seq![digit(n as int)]
    } else {
        decimal(n / 10).push(digit((n % 10) as int))
    }
}

/// Writes `n` in decimal.
pub fn decimal_bytes(n: u64) -> (r: Vec<u8>)
    ensures
        r@ == decimal(n as nat),
    decreases n,
{
    if n < 10 {
        let r = vec![48u8 + n as u8];
        assert(r@ =~= decimal(n as nat));
        r
    } else {
        let mut r = decimal_bytes(n / 10);
        r.push(48u8 + (n % 10) as u8);
        r
    }
}

/// The reason phrase of a status code.
pub open spec fn reason_text(code: u16) -> Seq<char> {
    if code == 101 { "Switching Protocols"@ }
    else if code == 200 { "OK"@ }
    else if code == 201 { "Created"@ }
    else if code == 204 { "No Content"@ }
    else if code == 301 { "Moved Permanently"@ }
    else if code == 302 { "Found"@ }
    else if code == 304 { "Not Modified"@ }
    else if code == 400 { "Bad Request"@ }
    else if code == 403 { "Forbidden"@ }
    else if code == 404 { "Not Found"@ }
    else if code == 405 { "Method Not Allowed"@ }
    else if code == 406 { "Not Acceptable"@ }
    else if code == 408 { "Request Timeout"@ }
    else if code == 413 { "Payload Too Large"@ }
    else if code == 414 { "URI Too Long"@ }
    else if code == 415 { "Unsupported Media Type"@ }
    else if code == 500 { "Internal Server Error"@ }
    else if code == 501 { "Not Implemented"@ }
    else if code == 505 { "HTTP Version Not Supported"@ }
    else { "Unknown"@ }
}

/// The reason phrase of a status code.
pub fn reason(code: u16) -> (r: &'static str)
    ensures
        r@ == reason_text(code),
{
    if code == 101 { "Switching Protocols" }
    else if code == 200 { "OK" }
    else if code == 201 { "Created" }
    else if code == 204 { "No Content" }
    else if code == 301 { "Moved Permanently" }
    else if code == 302 { "Found" }
    else if code == 304 { "Not Modified" }
    else if code == 400 { "Bad Request" }
    else if code == 403 { "Forbidden" }
    else if code == 404 { "Not Found" }
    else if code == 405 { "Method Not Allowed" }
    else if code == 406 { "Not Acceptable" }
    else if code == 408 { "Request Timeout" }
    else if code == 413 { "Payload Too Large" }
    else if code == 414 { "URI Too Long" }
    else if code == 415 { "Unsupported Media Type" }
    else if code == 500 { "Internal Server Error" }
    else if code == 501 { "Not Implemented" }
    else if code == 505 { "HTTP Version Not Supported" }
    else { "Unknown" }
}

/// What a response holds.
pub struct ResponseView {
    /// The status code.
    pub status: u16,
    /// The headers the handler set, in order.
    pub headers: Seq<(Seq<char>, Seq<char>)>,
    /// The body.
    pub body: Seq<u8>,
}

/// A response: a status code, headers and a body of known length.
#[derive(Debug, Clone)]
pub struct Response {
    status: u16,
    headers: Headers,
    body: Vec<u8>,
}

impl View for Response {
    type V = ResponseView;

    closed spec fn view(&self) -> ResponseView {
        ResponseView { status: self.status, headers: self.headers@, body: self.body@ }
    }
}

/// A response on the wire. HTTP/0.9 gets the body alone. Otherwise: the
/// status line in the request's version, the headers, `Connection: Close`
/// where an HTTP/1.1 connection is about to close, `Content-Length` (not for
/// informational `1xx` statuses), an empty line and the body.
pub open spec fn response_bytes(r: ResponseView, v: HttpVersion, keep_alive: bool) -> Seq<u8> {
    if v == HttpVersion::Http09 {
        r.body
    } else {
        status_line_bytes(v, r.status) + header_lines(r.headers) + framing_lines(r, v, keep_alive) + crlf()
            + r.body
    }
}

/// The status line: version, code, reason phrase, CR LF.
pub open spec fn status_line_bytes(v: HttpVersion, status: u16) -> Seq<u8> {
    encode_utf8(version_net_name(v)) + seq![32u8] + seq![
        digit((status as int / 100) % 10),
        digit((status as int / 10) % 10),
        digit(status as int % 10),
    ] + seq![32u8] + encode_utf8(reason_text(status)) + crlf()
}

/// The lines the server adds: `Connection: Close` where an HTTP/1.1
/// connection is about to close, and `Content-Length` unless the status is
/// informational.
pub open spec fn framing_lines(r: ResponseView, v: HttpVersion, keep_alive: bool) -> Seq<u8> {
    (if v == HttpVersion::Http11 && !keep_alive {
        encode_utf8("Connection: Close"@) + crlf()
    } else {
        Seq::empty()
    }) + (if r.status >= 200 {
        encode_utf8("Content-Length: "@) + decimal(r.body.len()) + crlf()
    } else {
        Seq::empty()
    })
}

/// Writes the status line.
fn write_status_line(out: &mut Vec<u8>, v: HttpVersion, status: u16)
    ensures
        final(out)@ == old(out)@ + status_line_bytes(v, status),
{
    append_bytes(out, v.as_net_str().as_bytes());
    out.push(32u8);
    let code = three_digit_to_utf(status);
    append_bytes(out, code.as_slice());
    out.push(32u8);
    append_bytes(out, reason(status).as_bytes());
    out.push(13u8);
    out.push(10u8);
    assert(final(out)@ =~= old(out)@ + status_line_bytes(v, status));
}

/// Writes the lines the server adds.
fn write_framing(out: &mut Vec<u8>, r: &Response, v: HttpVersion, keep_alive: bool)
    ensures
        final(out)@ == old(out)@ + framing_lines(r@, v, keep_alive),
{
    let ghost start = out@;
    if v == HttpVersion::Http11 && !keep_alive {
        append_bytes(out, "Connection: Close".as_bytes());
        out.push(13u8);
        out.push(10u8);
    }
    let ghost mid = out@;
    if r.status >= 200 {
        append_bytes(out, "Content-Length: ".as_bytes());
        let len = decimal_bytes(r.body.len() as u64);
        append_bytes(out, len.as_slice());
        out.push(13u8);
        out.push(10u8);
    }
    assert(final(out)@ =~= old(out)@ + framing_lines(r@, v, keep_alive));
}

impl Response {
    /// A response with the given status and body and no headers.
    pub fn new(status: u16, body: Vec<u8>) -> (r: Response)
        ensures
            r@ == (ResponseView { status, headers: Seq::empty(), body: body@ }),
    {
        Response { status, headers: Headers::new(), body }
    }

    /// A response with the given status and an empty body.
    pub fn empty(status: u16) -> (r: Response)
        ensures
            r@ == (ResponseView { status, headers: Seq::empty(), body: Seq::empty() }),
    {
        Response::new(status, Vec::new())
    }

    /// `200 OK` with the given body.
    pub fn ok(body: Vec<u8>) -> (r: Response)
        ensures
            r@ == (ResponseView { status: 200, headers: Seq::empty(), body: body@ }),
    {
        Response::new(200, body)
    }

    /// `204 No Content`.
    pub fn no_content() -> (r: Response)
        ensures
            r@ == (ResponseView { status: 204, headers: Seq::empty(), body: Seq::empty() }),
    {
        Response::empty(204)
    }

    /// The response with `name: value` added after its other headers.
    pub fn with_header(self, name: &str, value: &str) -> (r: Response)
        ensures
            r@ == (ResponseView { headers: self@.headers.push((name@, value@)), ..self@ }),
    {
        let mut r = self;
        r.headers.add(name, value);
        r
    }

    /// The status code.
    pub fn status(&self) -> (r: u16)
        ensures
            r == self@.status,
    {
        self.status
    }

    /// The body.
    pub fn body(&self) -> (r: &[u8])
        ensures
            r@ == self@.body,
    {
        self.body.as_slice()
    }

    /// The headers.
    pub fn headers(&self) -> (r: &Headers)
        ensures
            r@ == self@.headers,
    {
        &self.headers
    }

    /// Writes the response for a request of version `v`; `keep_alive` says
    /// whether the connection stays open afterwards.
    pub fn to_bytes(&self, v: HttpVersion, keep_alive: bool) -> (r: Vec<u8>)
        ensures
            r@ == response_bytes(self@, v, keep_alive),
    {
        if v == HttpVersion::Http09 {
            return copy_range(self.body.as_slice(), 0, self.body.len());
        }
        let mut out: Vec<u8> = Vec::new();
        write_status_line(&mut out, v, self.status);
        let ghost start = out@;
        let mut i: usize = 0;
        while i < self.headers.len()
            invariant
                i <= self@.headers.len(),
                self@.headers == self.headers@,
                out@ == start + header_lines(self@.headers.subrange(0, i as int)),
            decreases self@.headers.len() - i,
        {
            let h = self.headers.at(i);
            append_bytes(&mut out, h.name.as_str().as_bytes());
            out.push(58u8);
            out.push(32u8);
            append_bytes(&mut out, h.value.as_str().as_bytes());
            out.push(13u8);
            out.push(10u8);
            proof {
                let hs = self@.headers.subrange(0, i + 1);
                assert(hs.drop_last() =~= self@.headers.subrange(0, i as int));
                assert(out@ =~= start + header_lines(hs));
            }
            i = i + 1;
        }
        assert(self@.headers.subrange(0, i as int) =~= self@.headers);
        write_framing(&mut out, self, v, keep_alive);
        out.push(13u8);
        out.push(10u8);
        append_bytes(&mut out, self.body.as_slice());
        assert(out@ =~= response_bytes(self@, v, keep_alive));
        out
    }
}

} // verus!

verus! {

/// The lower-case hexadecimal digits of `n`, most significant first.
pub open spec fn hex_lower(n: nat) -> Seq<u8>
    decreases n,
{
    if n < 16 {
        seq![hex_digit_lower(n as int)]
    } else {
        hex_lower(n / 16).push(hex_digit_lower((n % 16) as int))
    }
}

/// The lower-case hexadecimal digit of a value below 16.
pub open spec fn hex_digit_lower(d: int) -> u8 {
    if d < 10 {
        (48 + d) as u8
    } else {
        (87 + d) as u8
    }
}

/// Writes `n` in lower-case hexadecimal.
pub fn hex_lower_bytes(n: u64) -> (r: Vec<u8>)
    ensures
        r@ == hex_lower(n as nat),
    decreases n,
{
    let d = (n % 16) as u8;
    let c = if d < 10 { 48 + d } else { 87 + d };
    if n < 16 {
        let r = vec![c];
        assert(r@ =~= hex_lower(n as nat));
        r
    } else {
        let mut r = hex_lower_bytes(n / 16);
        r.push(c);
        r
    }
}

/// One chunk of a chunked body: the size in lower-case hexadecimal, CR LF,
/// the data, CR LF.
pub open spec fn chunk_bytes(data: Seq<u8>) -> Seq<u8> {
    hex_lower(data.len()) + crlf() + data + crlf()
}

/// Frames `data` as one chunk of a chunked body.
pub fn write_chunk(data: &[u8]) -> (r: Vec<u8>)
    ensures
        r@ == chunk_bytes(data@),
{
    let mut out = hex_lower_bytes(data.len() as u64);
    out.push(13u8);
    out.push(10u8);
    append_bytes(&mut out, data);
    out.push(13u8);
    out.push(10u8);
    assert(out@ =~= chunk_bytes(data@));
    out
}

/// The chunk of size zero and the empty line that end a chunked body.
pub fn last_chunk() -> (r: Vec<u8>)
    ensures
        r@ == seq![48u8, 13u8, 10u8, 13u8, 10u8],
{
    let r = vec![48u8, 13u8, 10u8, 13u8, 10u8];
    assert(r@ =~= seq![48u8, 13u8, 10u8, 13u8, 10u8]);
    r
}

} // verus!
