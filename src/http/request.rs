//! Request heads: the HTTP version, the parse errors, and the parser that
//! turns the bytes at the start of a connection into a `RequestHead`.
use vstd::prelude::*;
use crate::http::headers::{first_value, names_match, same_name, without, Headers};
use crate::http::mime::{accept_of, accept_view, ascii_accept, render_accept, AcceptMime};
use crate::http::method::{name_of, str_eq, Method};
use crate::http::parse::{
    are_ascii, are_status_bytes, ascii_bytes, bytes_eq, copy_range, find, find_byte, find_separator,
    find_sep, lemma_find_sep, is_pct_ok, lemma_find, lemma_trim_ascii, pct_decode, pct_ok, percent_decode, status_bytes_ok, trim,
    trimmed, CR, LF,
};
use crate::http::text::{ascii_chars, ascii_string, utf8_string};

verus! {

/// The HTTP versions the server speaks.
#[derive(Clone, Debug, Copy, PartialEq, Eq, Structural, Hash)]
pub enum HttpVersion {
    /// HTTP/0.9: a bare request line, no headers; the response is the body alone.
    Http09,
    /// HTTP/1.0: headers and bodies, one request per connection by default.
    Http10,
    /// HTTP/1.1: keep-alive by default and chunked transfer encoding.
    Http11,
}

/// The printable name of a version.
pub open spec fn version_name(v: HttpVersion) -> Seq<char> {
    match v {
        HttpVersion::Http09 => "HTTP/0.9"@,
        HttpVersion::Http10 => "HTTP/1.0"@,
        HttpVersion::Http11 => "HTTP/1.1"@,
    }
}

/// How a version is written in a request line (HTTP/0.9 writes nothing).
pub open spec fn version_net_name(v: HttpVersion) -> Seq<char> {
    match v {
        HttpVersion::Http09 => ""@,
        HttpVersion::Http10 => "HTTP/1.0"@,
        HttpVersion::Http11 => "HTTP/1.1"@,
    }
}

/// The bytes `HTTP/1.` that both versions with a written name start with.
pub open spec fn http1_prefix() -> Seq<u8> {
    seq![72u8, 84u8, 84u8, 80u8, 47u8, 49u8, 46u8]
}

/// The version that the third field of a request line names, if any.
pub open spec fn net_version(v: Seq<u8>) -> Option<HttpVersion> {
    if v.len() == 0 {
        Some(HttpVersion::Http09)
    } else if v == http1_prefix().push(48u8) {
        Some(HttpVersion::Http10)
    } else if v == http1_prefix().push(49u8) {
        Some(HttpVersion::Http11)
    } else {
        None
    }
}

impl HttpVersion {
    /// Returns the printable name of the version (`HTTP/0.9` for the oldest).
    pub fn as_str(&self) -> (r: &'static str)
        ensures
            r@ == version_name(*self),
    {
        match self {
            HttpVersion::Http09 => "HTTP/0.9",
            HttpVersion::Http10 => "HTTP/1.0",
            HttpVersion::Http11 => "HTTP/1.1",
        }
    }

    /// Returns the version as written in a request or status line; empty for HTTP/0.9.
    pub fn as_net_str(&self) -> (r: &'static str)
        ensures
            r@ == version_net_name(*self),
    {
        match self {
            HttpVersion::Http09 => "",
            HttpVersion::Http10 => "HTTP/1.0",
            HttpVersion::Http11 => "HTTP/1.1",
        }
    }

    /// Parses the version as written in a request line; the empty string is
    /// HTTP/0.9. Hands the input back when it names no version.
    pub fn try_from_net_str(value: &str) -> (r: Result<HttpVersion, &str>)
        ensures
            (exists|v: HttpVersion| version_net_name(v) == value@) <==> r is Ok,
            r is Ok ==> version_net_name(r->Ok_0) == value@,
            r is Err ==> r->Err_0@ == value@,
            value@ == ""@ ==> r == Ok::<HttpVersion, &str>(HttpVersion::Http09),
            value@ == "HTTP/1.0"@ ==> r == Ok::<HttpVersion, &str>(HttpVersion::Http10),
            value@ == "HTTP/1.1"@ ==> r == Ok::<HttpVersion, &str>(HttpVersion::Http11),
    {
        proof {
            reveal_strlit("");
            reveal_strlit("HTTP/1.0");
            reveal_strlit("HTTP/1.1");
            assert("HTTP/1.0"@[7] != "HTTP/1.1"@[7]);
        }
        if str_eq(value, "HTTP/1.0") {
            assert(version_net_name(HttpVersion::Http10) == value@);
            Ok(HttpVersion::Http10)
        } else if str_eq(value, "HTTP/1.1") {
            assert(version_net_name(HttpVersion::Http11) == value@);
            Ok(HttpVersion::Http11)
        } else if str_eq(value, "") {
            assert(version_net_name(HttpVersion::Http09) == value@);
            Ok(HttpVersion::Http09)
        } else {
            assert forall|v: HttpVersion| version_net_name(v) != value@ by {
                match v {
                    HttpVersion::Http09 => {},
                    HttpVersion::Http10 => {},
                    HttpVersion::Http11 => {},
                }
            }
            Err(value)
        }
    }

    /// Parses the printable name of a version, as `as_str` gives it. Hands
    /// the input back when it names no version.
    pub fn try_from_str(value: &str) -> (r: Result<HttpVersion, &str>)
        ensures
            (exists|v: HttpVersion| version_name(v) == value@) <==> r is Ok,
            r is Ok ==> version_name(r->Ok_0) == value@,
            r is Err ==> r->Err_0@ == value@,
            value@ == "HTTP/0.9"@ ==> r == Ok::<HttpVersion, &str>(HttpVersion::Http09),
            value@ == "HTTP/1.0"@ ==> r == Ok::<HttpVersion, &str>(HttpVersion::Http10),
            value@ == "HTTP/1.1"@ ==> r == Ok::<HttpVersion, &str>(HttpVersion::Http11),
    {
        proof {
            reveal_strlit("HTTP/0.9");
            reveal_strlit("HTTP/1.0");
            reveal_strlit("HTTP/1.1");
            assert("HTTP/1.0"@[7] != "HTTP/1.1"@[7]);
            assert("HTTP/0.9"@[5] != "HTTP/1.0"@[5]);
            assert("HTTP/0.9"@[5] != "HTTP/1.1"@[5]);
        }
        if str_eq(value, "HTTP/1.0") {
            assert(version_name(HttpVersion::Http10) == value@);
            Ok(HttpVersion::Http10)
        } else if str_eq(value, "HTTP/1.1") {
            assert(version_name(HttpVersion::Http11) == value@);
            Ok(HttpVersion::Http11)
        } else if str_eq(value, "HTTP/0.9") {
            assert(version_name(HttpVersion::Http09) == value@);
            Ok(HttpVersion::Http09)
        } else {
            assert forall|v: HttpVersion| version_name(v) != value@ by {
                match v {
                    HttpVersion::Http09 => {},
                    HttpVersion::Http10 => {},
                    HttpVersion::Http11 => {},
                }
            }
            Err(value)
        }
    }
}

} // verus!

verus! {

/// Why the bytes at the start of a connection are not a request head.
#[derive(Debug, Clone, Copy, PartialEq, Eq, Structural)]
pub enum RequestHeadParsingError {
    /// The client closed the connection before sending anything.
    EofBeforeAnyBytes,
    /// The request line holds a byte outside the characters allowed in it.
    StatusLineInvalidBytes,
    /// The request line does not end in CR LF.
    StatusLineNoCRLF,
    /// The request line has no space after the method.
    StatusLineNoWhitespace,
    /// The request line has more than three space-separated fields.
    StatusLineTooManyFields,
    /// A header line holds a byte outside US-ASCII.
    HeaderNotAscii,
    /// A header line does not end in CR LF.
    HeaderNoCRLF,
    /// A header line has nothing before its `": "`.
    HeaderNameEmpty,
    /// A header line has nothing after its `": "`.
    HeaderValueEmpty,
    /// A header line has no `": "`.
    HeaderValueMissing,
    /// A `%` in the path is not followed by two hexadecimal digits.
    PathInvalidPercentEncoding,
    /// The decoded path is not valid UTF-8.
    PathNotUtf8,
    /// The request line names a version other than HTTP/0.9, 1.0 or 1.1.
    UnsupportedVersion,
    /// HTTP/0.9 allows only `GET`.
    MethodNotAllowedByVersion,
    /// The head does not fit in the configured buffer.
    HeadTooLarge,
}

/// What a request line says, as read from its bytes.
pub struct RequestLineModel {
    /// The method token.
    pub method: Seq<u8>,
    /// The version.
    pub version: HttpVersion,
    /// The percent-decoded path.
    pub path: Seq<char>,
    /// The raw query, after the first `?`.
    pub query: Seq<u8>,
}

/// What a request head says, and how many bytes it took.
pub struct HeadModel {
    /// The request line's fields.
    pub line: RequestLineModel,
    /// The request line without its CR LF.
    pub status_line: Seq<u8>,
    /// The headers in order, trimmed.
    pub headers: Seq<(Seq<u8>, Seq<u8>)>,
    /// The number of bytes the head spans, its final CR LF included.
    pub end: int,
}

/// The bytes `GET`.
pub open spec fn get_bytes() -> Seq<u8> {
    seq![71u8, 69u8, 84u8]
}

/// Reads a request line (without its CR LF): method, target and an
/// optional version, separated by single spaces; the target splits at its
/// first `?` into the path, which is percent-decoded, and the query.
pub open spec fn parse_request_line(s: Seq<u8>) -> Result<RequestLineModel, RequestHeadParsingError> {
    let n = s.len() as int;
    let sp1 = find(s, 0, n, 32);
    let sp2 = find(s, sp1 + 1, n, 32);
    let sp3 = find(s, sp2 + 1, n, 32);
    let version = if sp2 >= n {
        Some(HttpVersion::Http09)
    } else {
        net_version(s.subrange(sp2 + 1, sp3))
    };
    let target = s.subrange(sp1 + 1, sp2);
    let q = find(target, 0, target.len() as int, 63);
    let raw = target.subrange(0, q);
    if sp1 >= n {
        Err(RequestHeadParsingError::StatusLineNoWhitespace)
    } else if version is None {
        Err(RequestHeadParsingError::UnsupportedVersion)
    } else if sp3 < n {
        Err(RequestHeadParsingError::StatusLineTooManyFields)
    } else if !pct_ok(raw) {
        Err(RequestHeadParsingError::PathInvalidPercentEncoding)
    } else if !vstd::utf8::valid_utf8(pct_decode(raw)) {
        Err(RequestHeadParsingError::PathNotUtf8)
    } else {
        Ok(
            RequestLineModel {
                method: s.subrange(0, sp1),
                version: version->Some_0,
                path: vstd::utf8::decode_utf8(pct_decode(raw)),
                query: if q < target.len() {
                    target.subrange(q + 1, target.len() as int)
                } else {
                    Seq::empty()
                },
            },
        )
    }
}

/// Reads one header line (without its CR LF): a name and a value, split at
/// the first `": "` and trimmed, neither of them empty.
pub open spec fn parse_header_line(c: Seq<u8>) -> Result<(Seq<u8>, Seq<u8>), RequestHeadParsingError> {
    let k = find_sep(c, 0);
    let name = trim(c.subrange(0, k));
    if name.len() == 0 {
        Err(RequestHeadParsingError::HeaderNameEmpty)
    } else if k >= c.len() {
        Err(RequestHeadParsingError::HeaderValueMissing)
    } else if trim(c.subrange(k + 2, c.len() as int)).len() == 0 {
        Err(RequestHeadParsingError::HeaderValueEmpty)
    } else {
        Ok((name, trim(c.subrange(k + 2, c.len() as int))))
    }
}

/// Reads header lines from `pos` up to the empty line that ends the head,
/// looking no further than `bound`; gives the headers and the end of the head.
pub open spec fn parse_headers(b: Seq<u8>, pos: int, bound: int) -> Result<
    (Seq<(Seq<u8>, Seq<u8>)>, int),
    RequestHeadParsingError,
>
    decreases bound - pos,
    via parse_headers_decreases
{
    let j = find(b, pos, bound, LF);
    if j >= bound {
        if bound < b.len() {
            Err(RequestHeadParsingError::HeadTooLarge)
        } else if !ascii_bytes(b.subrange(pos, bound)) {
            Err(RequestHeadParsingError::HeaderNotAscii)
        } else {
            Err(RequestHeadParsingError::HeaderNoCRLF)
        }
    } else if !ascii_bytes(b.subrange(pos, j + 1)) {
        Err(RequestHeadParsingError::HeaderNotAscii)
    } else if j == pos + 1 && b[pos] == CR {
        Ok((Seq::empty(), j + 1))
    } else if j <= pos || b[j - 1] != CR {
        Err(RequestHeadParsingError::HeaderNoCRLF)
    } else {
        match parse_header_line(b.subrange(pos, j - 1)) {
            Err(e) => Err(e),
            Ok(h) => match parse_headers(b, j + 1, bound) {
                Err(e) => Err(e),
                Ok(rest) => Ok((seq![h] + rest.0, rest.1)),
            },
        }
    }
}

/// Each header line read moves past at least its LF.
#[via_fn]
proof fn parse_headers_decreases(b: Seq<u8>, pos: int, bound: int) {
    if pos <= bound {
        lemma_find(b, pos, bound, LF);
    }
}

/// Reads a request head from the start of `b`, looking at no more than
/// `limit` bytes. HTTP/0.9 heads are the request line alone.
pub open spec fn parse_head(b: Seq<u8>, limit: int) -> Result<HeadModel, RequestHeadParsingError> {
    let bound = if b.len() < limit {
        b.len() as int
    } else {
        limit
    };
    let lf = find(b, 0, bound, LF);
    if b.len() == 0 {
        Err(RequestHeadParsingError::EofBeforeAnyBytes)
    } else if lf >= bound && bound < b.len() {
        Err(RequestHeadParsingError::HeadTooLarge)
    } else if !status_bytes_ok(
        b.subrange(
            0,
            if lf < bound {
                lf + 1
            } else {
                bound
            },
        ),
    ) {
        Err(RequestHeadParsingError::StatusLineInvalidBytes)
    } else if lf >= bound || lf == 0 || b[lf - 1] != CR {
        Err(RequestHeadParsingError::StatusLineNoCRLF)
    } else {
        match parse_request_line(b.subrange(0, lf - 1)) {
            Err(e) => Err(e),
            Ok(l) => if l.version == HttpVersion::Http09 {
                if l.method != get_bytes() {
                    Err(RequestHeadParsingError::MethodNotAllowedByVersion)
                } else {
                    Ok(
                        HeadModel {
                            line: l,
                            status_line: b.subrange(0, lf - 1),
                            headers: Seq::empty(),
                            end: lf + 1,
                        },
                    )
                }
            } else {
                match parse_headers(b, lf + 1, bound) {
                    Err(e) => Err(e),
                    Ok(hs) => Ok(
                        HeadModel {
                            line: l,
                            status_line: b.subrange(0, lf - 1),
                            headers: hs.0,
                            end: hs.1,
                        },
                    ),
                }
            },
        }
    }
}

} // verus!

verus! {

/// Headers read as bytes, seen as the characters they stand for.
pub open spec fn ascii_headers(hs: Seq<(Seq<u8>, Seq<u8>)>) -> Seq<(Seq<char>, Seq<char>)> {
    hs.map_values(|h: (Seq<u8>, Seq<u8>)| (ascii_chars(h.0), ascii_chars(h.1)))
}

/// Reads the version field `s[from..to]` of a request line.
fn read_version(s: &[u8], from: usize, to: usize) -> (r: Option<HttpVersion>)
    requires
        from <= to <= s@.len(),
    ensures
        r == net_version(s@.subrange(from as int, to as int)),
{
    if to == from {
        return Some(HttpVersion::Http09);
    }
    if to - from != 8 {
        return None;
    }
    let v = copy_range(s, from, to);
    let v10: Vec<u8> = vec![72u8, 84u8, 84u8, 80u8, 47u8, 49u8, 46u8, 48u8];
    let v11: Vec<u8> = vec![72u8, 84u8, 84u8, 80u8, 47u8, 49u8, 46u8, 49u8];
    assert(v10@ =~= http1_prefix().push(48u8));
    assert(v11@ =~= http1_prefix().push(49u8));
    if bytes_eq(v.as_slice(), v10.as_slice()) {
        Some(HttpVersion::Http10)
    } else if bytes_eq(v.as_slice(), v11.as_slice()) {
        Some(HttpVersion::Http11)
    } else {
        None
    }
}

/// The fields of a request line, as `parse_request_line` reads them: the
/// method token, the version, the decoded path and the raw query.
fn parse_status_line(s: &[u8]) -> (r: Result<(Vec<u8>, HttpVersion, String, String), RequestHeadParsingError>)
    requires
        ascii_bytes(s@),
    ensures
        match parse_request_line(s@) {
            Err(e) => r == Err::<(Vec<u8>, HttpVersion, String, String), RequestHeadParsingError>(e),
            Ok(l) => r is Ok && r->Ok_0.0@ == l.method && r->Ok_0.1 == l.version && r->Ok_0.2@
                == l.path && r->Ok_0.3@ == ascii_chars(l.query),
        },
        r is Ok ==> ascii_bytes(r->Ok_0.0@),
{
    let n = s.len();
    let sp1 = find_byte(s, 0, n, 32);
    if sp1 >= n {
        return Err(RequestHeadParsingError::StatusLineNoWhitespace);
    }
    let sp2 = find_byte(s, sp1 + 1, n, 32);
    let sp3 = if sp2 < n {
        find_byte(s, sp2 + 1, n, 32)
    } else {
        n
    };
    let version = if sp2 >= n {
        Some(HttpVersion::Http09)
    } else {
        read_version(s, sp2 + 1, sp3)
    };
    let version = match version {
        None => {
            return Err(RequestHeadParsingError::UnsupportedVersion);
        },
        Some(v) => v,
    };
    if sp3 < n {
        return Err(RequestHeadParsingError::StatusLineTooManyFields);
    }
    let target = copy_range(s, sp1 + 1, sp2);
    let tn = target.len();
    let q = find_byte(target.as_slice(), 0, tn, 63);
    let raw = copy_range(target.as_slice(), 0, q);
    assert(raw@.subrange(0, raw@.len() as int) =~= raw@);
    if !is_pct_ok(raw.as_slice(), 0, raw.len()) {
        return Err(RequestHeadParsingError::PathInvalidPercentEncoding);
    }
    let decoded = percent_decode(raw.as_slice());
    let path = match utf8_string(decoded.as_slice()) {
        None => {
            return Err(RequestHeadParsingError::PathNotUtf8);
        },
        Some(p) => p,
    };
    let query = if q < tn {
        let qb = copy_range(target.as_slice(), q + 1, tn);
        assert(ascii_bytes(qb@)) by {
            assert forall|i: int| 0 <= i < qb@.len() implies #[trigger] qb@[i] < 128 by {
                assert(qb@[i] == s@[sp1 + 1 + q + 1 + i]);
            }
        }
        ascii_string(qb.as_slice())
    } else {
        let e: Vec<u8> = Vec::new();
        assert(ascii_bytes(e@));
        let es = ascii_string(e.as_slice());
        assert(ascii_chars(Seq::<u8>::empty()) =~= Seq::<char>::empty());
        es
    };
    let method = copy_range(s, 0, sp1);
    assert(ascii_bytes(method@)) by {
        assert forall|i: int| 0 <= i < method@.len() implies #[trigger] method@[i] < 128 by {
            assert(method@[i] == s@[i]);
        }
    }
    Ok((method, version, path, query))
}

/// A header line's trimmed name and value, as `parse_header_line` reads them.
fn read_header_line(c: &[u8]) -> (r: Result<(Vec<u8>, Vec<u8>), RequestHeadParsingError>)
    ensures
        match parse_header_line(c@) {
            Err(e) => r == Err::<(Vec<u8>, Vec<u8>), RequestHeadParsingError>(e),
            Ok(h) => r is Ok && r->Ok_0.0@ == h.0 && r->Ok_0.1@ == h.1,
        },
{
    let n = c.len();
    assert(c@.subrange(0, n as int) =~= c@);
    let k = find_separator(c, 0, n);
    let name = trimmed(c, 0, k);
    if name.len() == 0 {
        return Err(RequestHeadParsingError::HeaderNameEmpty);
    }
    if k >= n {
        return Err(RequestHeadParsingError::HeaderValueMissing);
    }
    let value = trimmed(c, k + 2, n);
    if value.len() == 0 {
        return Err(RequestHeadParsingError::HeaderValueEmpty);
    }
    Ok((name, value))
}

} // verus!

verus! {

/// What a request head holds, as mathematical values.
pub struct RequestHeadView {
    /// The method's name.
    pub method: Seq<char>,
    /// The version the client spoke.
    pub version: HttpVersion,
    /// The request line without its CR LF.
    pub status_line: Seq<char>,
    /// The percent-decoded path.
    pub path: Seq<char>,
    /// The raw query.
    pub query: Seq<char>,
    /// The acceptable media types with their qualities.
    pub accept: Seq<(Seq<char>, u16)>,
    /// The headers, in order.
    pub headers: Seq<(Seq<char>, Seq<char>)>,
}

/// Represents the head of a request: its request line and headers.
#[derive(Debug, Clone)]
pub struct RequestHead {
    method: Method,
    version: HttpVersion,
    status_line: String,
    path: String,
    query: String,
    accept: Vec<AcceptMime>,
    headers: Headers,
}

impl View for RequestHead {
    type V = RequestHeadView;

    closed spec fn view(&self) -> RequestHeadView {
        RequestHeadView {
            method: name_of(self.method),
            version: self.version,
            status_line: self.status_line@,
            path: self.path@,
            query: self.query@,
            accept: accept_view(self.accept@),
            headers: self.headers@,
        }
    }
}

/// The single `Accept` entry `*/*` with quality 1.
pub open spec fn accept_any() -> Seq<(Seq<char>, u16)> {
    seq![("*/*"@, 1000u16)]
}

/// The acceptable media types of a head: `text/html` for HTTP/0.9; else
/// the first `Accept` header's entries, or `*/*` when there is none or it
/// does not parse.
pub open spec fn accept_for(version: HttpVersion, hs: Seq<(Seq<char>, Seq<char>)>) -> Seq<(Seq<char>, u16)> {
    if version == HttpVersion::Http09 {
        seq![("text/html"@, 1000u16)]
    } else {
        match first_value(hs, "Accept"@) {
            None => accept_any(),
            Some(v) => match accept_of(vstd::utf8::encode_utf8(v)) {
                None => accept_any(),
                Some(items) => ascii_accept(items),
            },
        }
    }
}

/// Whether a head holds what the model of its bytes says.
pub open spec fn head_models(h: RequestHeadView, m: HeadModel) -> bool {
    &&& h.method == ascii_chars(m.line.method)
    &&& h.version == m.line.version
    &&& h.status_line == ascii_chars(m.status_line)
    &&& h.path == m.line.path
    &&& h.query == ascii_chars(m.line.query)
    &&& h.headers == ascii_headers(m.headers)
    &&& h.accept == accept_for(m.line.version, h.headers)
}

/// The header results of `parse_headers` after `acc` was read already.
pub open spec fn after(acc: Seq<(Seq<u8>, Seq<u8>)>, r: Result<(Seq<(Seq<u8>, Seq<u8>)>, int), RequestHeadParsingError>) -> Result<
    (Seq<(Seq<u8>, Seq<u8>)>, int),
    RequestHeadParsingError,
> {
    match r {
        Err(e) => Err(e),
        Ok(hs) => Ok((acc + hs.0, hs.1)),
    }
}

/// Reads header lines from `b[start..]` as `parse_headers` does.
fn read_headers(b: &[u8], start: usize, bound: usize) -> (r: Result<(Headers, usize), RequestHeadParsingError>)
    requires
        start <= bound <= b@.len(),
    ensures
        match parse_headers(b@, start as int, bound as int) {
            Err(e) => r == Err::<(Headers, usize), RequestHeadParsingError>(e),
            Ok(hs) => r is Ok && r->Ok_0.0@ == ascii_headers(hs.0) && r->Ok_0.1 as int == hs.1,
        },
{
    let mut headers = Headers::new();
    let ghost mut acc: Seq<(Seq<u8>, Seq<u8>)> = Seq::empty();
    let mut pos = start;
    proof {
        let r0 = parse_headers(b@, start as int, bound as int);
        if r0 is Ok {
            assert(acc + r0->Ok_0.0 =~= r0->Ok_0.0);
        }
        assert(ascii_headers(acc) =~= Seq::<(Seq<char>, Seq<char>)>::empty());
    }
    loop
        invariant
            start <= pos <= bound <= b@.len(),
            headers@ == ascii_headers(acc),
            parse_headers(b@, start as int, bound as int) == after(acc, parse_headers(b@, pos as int, bound as int)),
        decreases bound - pos,
    {
        let j = find_byte(b, pos, bound, LF);
        if j >= bound {
            if bound < b.len() {
                return Err(RequestHeadParsingError::HeadTooLarge);
            } else if !are_ascii(b, pos, bound) {
                return Err(RequestHeadParsingError::HeaderNotAscii);
            } else {
                return Err(RequestHeadParsingError::HeaderNoCRLF);
            }
        }
        if !are_ascii(b, pos, j + 1) {
            return Err(RequestHeadParsingError::HeaderNotAscii);
        }
        if j == pos + 1 && b[pos] == CR {
            proof {
                assert(acc + Seq::<(Seq<u8>, Seq<u8>)>::empty() =~= acc);
            }
            return Ok((headers, j + 1));
        }
        if j <= pos || b[j - 1] != CR {
            return Err(RequestHeadParsingError::HeaderNoCRLF);
        }
        let line = copy_range(b, pos, j - 1);
        match read_header_line(line.as_slice()) {
            Err(e) => {
                return Err(e);
            },
            Ok(h) => {
                proof {
                    let l = b@.subrange(pos as int, j + 1);
                    lemma_find_sep(line@, 0);
                    assert forall|i: int| 0 <= i < line@.len() implies #[trigger] line@[i] < 128 by {
                        assert(line@[i] == l[i]);
                    }
                    assert(ascii_bytes(line@.subrange(0, find_sep(line@, 0)))) by {
                        let m = line@.subrange(0, find_sep(line@, 0));
                        assert forall|i: int| 0 <= i < m.len() implies #[trigger] m[i] < 128 by {
                            assert(m[i] == line@[i]);
                        }
                    }
                    lemma_trim_ascii(line@.subrange(0, find_sep(line@, 0)));
                    let k = find_sep(line@, 0);
                    let v = line@.subrange(k + 2, line@.len() as int);
                    assert(ascii_bytes(v)) by {
                        assert forall|i: int| 0 <= i < v.len() implies #[trigger] v[i] < 128 by {
                            assert(v[i] == line@[k + 2 + i]);
                        }
                    }
                    lemma_trim_ascii(v);
                }
                let name = ascii_string(h.0.as_slice());
                let value = ascii_string(h.1.as_slice());
                let ghost hv = (h.0@, h.1@);
                let ghost before = headers@;
                headers.push(name, value);
                proof {
                    assert(ascii_headers(acc.push(hv)) =~= before.push((ascii_chars(hv.0), ascii_chars(hv.1))));
                    let rest = parse_headers(b@, j + 1, bound as int);
                    if rest is Ok {
                        assert(acc + (seq![hv] + rest->Ok_0.0) =~= acc.push(hv) + rest->Ok_0.0);
                    }
                    acc = acc.push(hv);
                }
                pos = j + 1;
            },
        }
    }
}

} // verus!

verus! {

/// The acceptable media types that a version and its headers give.
fn accept_from(version: HttpVersion, headers: &Headers) -> (r: Vec<AcceptMime>)
    ensures
        accept_view(r@) == accept_for(version, headers@),
{
    if version == HttpVersion::Http09 {
        let r = vec![AcceptMime::html()];
        assert(accept_view(r@) =~= seq![("text/html"@, 1000u16)]);
        return r;
    }
    let any = vec![AcceptMime::any()];
    assert(accept_view(any@) =~= accept_any());
    match headers.get("Accept") {
        None => any,
        Some(v) => match AcceptMime::parse(v) {
            None => any,
            Some(items) => items,
        },
    }
}

impl RequestHead {
    /// Reads a request head from the start of `b`, looking at no more than
    /// `limit` bytes, and returns it with the number of bytes it spans.
    pub fn new(b: &[u8], limit: usize) -> (r: Result<(RequestHead, usize), RequestHeadParsingError>)
        ensures
            match parse_head(b@, limit as int) {
                Err(e) => r == Err::<(RequestHead, usize), RequestHeadParsingError>(e),
                Ok(m) => r is Ok && head_models(r->Ok_0.0@, m) && r->Ok_0.1 as int == m.end,
            },
    {
        let n = b.len();
        if n == 0 {
            return Err(RequestHeadParsingError::EofBeforeAnyBytes);
        }
        let bound = if n < limit { n } else { limit };
        let lf = find_byte(b, 0, bound, LF);
        if lf >= bound && bound < n {
            return Err(RequestHeadParsingError::HeadTooLarge);
        }
        let vend = if lf < bound { lf + 1 } else { bound };
        if !are_status_bytes(b, 0, vend) {
            return Err(RequestHeadParsingError::StatusLineInvalidBytes);
        }
        if lf >= bound || lf == 0 || b[lf - 1] != CR {
            return Err(RequestHeadParsingError::StatusLineNoCRLF);
        }
        let line = copy_range(b, 0, lf - 1);
        assert(ascii_bytes(line@)) by {
            assert forall|i: int| 0 <= i < line@.len() implies #[trigger] line@[i] < 128 by {
                assert(line@[i] == b@.subrange(0, vend as int)[i]);
            }
        }
        let (mb, version, path, query) = match parse_status_line(line.as_slice()) {
            Err(e) => {
                return Err(e);
            },
            Ok(fields) => fields,
        };
        let status_line = ascii_string(line.as_slice());
        let mname = ascii_string(mb.as_slice());
        let method = Method::from_token(mname.as_str());
        if version == HttpVersion::Http09 {
            let get: Vec<u8> = vec![71u8, 69u8, 84u8];
            assert(get@ =~= get_bytes());
            if !bytes_eq(mb.as_slice(), get.as_slice()) {
                return Err(RequestHeadParsingError::MethodNotAllowedByVersion);
            }
            let headers = Headers::new();
            assert(ascii_headers(Seq::empty()) =~= headers@);
            let accept = accept_from(version, &headers);
            let head = RequestHead { method, version, status_line, path, query, accept, headers };
            return Ok((head, lf + 1));
        }
        let (headers, end) = match read_headers(b, lf + 1, bound) {
            Err(e) => {
                return Err(e);
            },
            Ok(hs) => hs,
        };
        let accept = accept_from(version, &headers);
        let head = RequestHead { method, version, status_line, path, query, accept, headers };
        Ok((head, end))
    }

    /// The version the client spoke.
    pub fn version(&self) -> (r: HttpVersion)
        ensures
            r == self@.version,
    {
        self.version
    }

    /// The request line as received, without its CR LF.
    pub fn raw_status_line(&self) -> (r: &str)
        ensures
            r@ == self@.status_line,
    {
        self.status_line.as_str()
    }

    /// The path the request is routed by, percent-decoded.
    pub fn path(&self) -> (r: &str)
        ensures
            r@ == self@.path,
    {
        self.path.as_str()
    }

    /// Replaces the path the request is routed by.
    pub fn set_path(&mut self, path: &str)
        ensures
            final(self)@ == (RequestHeadView { path: path@, ..old(self)@ }),
    {
        self.path = path.to_string();
    }

    /// The raw query string, after the first `?` of the request target.
    pub fn raw_query(&self) -> (r: &str)
        ensures
            r@ == self@.query,
    {
        self.query.as_str()
    }

    /// The method of the request.
    pub fn method(&self) -> (r: &Method)
        ensures
            name_of(*r) == self@.method,
    {
        &self.method
    }

    /// Replaces the method of the request.
    pub fn set_method(&mut self, method: Method)
        ensures
            final(self)@ == (RequestHeadView { method: name_of(method), ..old(self)@ }),
    {
        self.method = method;
    }

    /// The acceptable media types, in the order the client gave them.
    pub fn get_accept(&self) -> (r: &[AcceptMime])
        ensures
            accept_view(r@) == self@.accept,
    {
        self.accept.as_slice()
    }

    /// All headers, in order.
    pub fn get_all_headers(&self) -> (r: &Headers)
        ensures
            r@ == self@.headers,
    {
        &self.headers
    }

    /// The first value of the header named `name`, if any.
    pub fn get_header(&self, name: &str) -> (r: Option<&str>)
        ensures
            match first_value(self@.headers, name@) {
                None => r is None,
                Some(v) => r is Some && r->Some_0@ == v,
            },
    {
        self.headers.get(name)
    }

    /// The values of every header named `name`, in order.
    pub fn get_headers(&self, name: &str) -> (r: Vec<&str>)
        ensures
            r@.map_values(|v: &str| v@) == crate::http::headers::all_values(self@.headers, name@),
    {
        self.headers.get_all(name)
    }
}

} // verus!

verus! {

/// A misuse of the request API by the application.
#[derive(Debug, Clone, Copy, PartialEq, Eq, Structural)]
pub enum UserError {
    /// `Content-Length` and `Transfer-Encoding` cannot be removed from a request.
    ImmutableRequestHeaderRemoved,
    /// `Content-Length` and `Transfer-Encoding` cannot be changed on a request.
    ImmutableRequestHeaderModified,
    /// The value given for `Accept` does not parse.
    IllegalAcceptHeaderValueSet,
    /// An `Accept` header is present already.
    MultipleAcceptHeaderValuesSet,
}

/// Whether a header name is one that frames the body and is fixed once read.
pub open spec fn is_framing_name(name: Seq<char>) -> bool {
    same_name(name, "Content-Length"@) || same_name(name, "Transfer-Encoding"@)
}

/// Whether a header name is `Accept`.
pub open spec fn is_accept_name(name: Seq<char>) -> bool {
    same_name(name, "Accept"@)
}

/// The entries that an `Accept` value given by the application reads as.
pub open spec fn accept_value(value: Seq<char>) -> Option<Seq<(Seq<char>, u16)>> {
    match accept_of(vstd::utf8::encode_utf8(value)) {
        None => None,
        Some(items) => Some(ascii_accept(items)),
    }
}

impl RequestHead {
    /// Removes every header named `name`. Removing `Accept` resets it to
    /// `*/*`; the framing headers cannot be removed.
    pub fn remove_header(&mut self, name: &str) -> (r: Result<(), UserError>)
        ensures
            is_accept_name(name@) ==> r is Ok && final(self)@ == (RequestHeadView {
                accept: accept_any(),
                headers: without(old(self)@.headers, "Accept"@).push(("Accept"@, "*/*"@)),
                ..old(self)@
            }),
            !is_accept_name(name@) && is_framing_name(name@) ==> r == Err::<(), UserError>(
                UserError::ImmutableRequestHeaderRemoved,
            ) && final(self)@ == old(self)@,
            !is_accept_name(name@) && !is_framing_name(name@) ==> r is Ok && final(self)@ == (
            RequestHeadView { headers: without(old(self)@.headers, name@), ..old(self)@ }),
    {
        if names_match(name, "Accept") {
            let any = vec![AcceptMime::any()];
            assert(accept_view(any@) =~= accept_any());
            self.accept = any;
            self.headers.set("Accept", "*/*");
            return Ok(());
        }
        if names_match(name, "Content-Length") || names_match(name, "Transfer-Encoding") {
            return Err(UserError::ImmutableRequestHeaderRemoved);
        }
        self.headers.remove(name);
        Ok(())
    }

    /// Replaces every header named `name` by `name: value`. Setting `Accept`
    /// also replaces the acceptable media types, and fails if the value does
    /// not parse; the framing headers cannot be set.
    pub fn set_header(&mut self, name: &str, value: &str) -> (r: Result<(), UserError>)
        ensures
            is_accept_name(name@) ==> match accept_value(value@) {
                None => r == Err::<(), UserError>(UserError::IllegalAcceptHeaderValueSet) && final(self)@
                    == old(self)@,
                Some(items) => r is Ok && final(self)@ == (RequestHeadView {
                    accept: items,
                    headers: without(old(self)@.headers, "Accept"@).push(("Accept"@, value@)),
                    ..old(self)@
                }),
            },
            !is_accept_name(name@) && is_framing_name(name@) ==> r == Err::<(), UserError>(
                UserError::ImmutableRequestHeaderModified,
            ) && final(self)@ == old(self)@,
            !is_accept_name(name@) && !is_framing_name(name@) ==> r is Ok && final(self)@ == (
            RequestHeadView {
                headers: without(old(self)@.headers, name@).push((name@, value@)),
                ..old(self)@
            }),
    {
        if names_match(name, "Accept") {
            match AcceptMime::parse(value) {
                None => {
                    return Err(UserError::IllegalAcceptHeaderValueSet);
                },
                Some(items) => {
                    self.accept = items;
                    self.headers.set("Accept", value);
                    return Ok(());
                },
            }
        }
        if names_match(name, "Content-Length") || names_match(name, "Transfer-Encoding") {
            return Err(UserError::ImmutableRequestHeaderModified);
        }
        self.headers.set(name, value);
        Ok(())
    }

    /// Adds `name: value` after the other headers. An `Accept` header is
    /// added only where none is present and the value parses; the framing
    /// headers cannot be added.
    pub fn add_header(&mut self, name: &str, value: &str) -> (r: Result<(), UserError>)
        ensures
            is_accept_name(name@) ==> match accept_value(value@) {
                None => r == Err::<(), UserError>(UserError::IllegalAcceptHeaderValueSet) && final(self)@
                    == old(self)@,
                Some(items) => if first_value(old(self)@.headers, "Accept"@) is Some {
                    r == Err::<(), UserError>(UserError::MultipleAcceptHeaderValuesSet) && final(self)@
                        == old(self)@
                } else {
                    r is Ok && final(self)@ == (RequestHeadView {
                        accept: items,
                        headers: old(self)@.headers.push(("Accept"@, value@)),
                        ..old(self)@
                    })
                },
            },
            !is_accept_name(name@) && is_framing_name(name@) ==> r == Err::<(), UserError>(
                UserError::ImmutableRequestHeaderModified,
            ) && final(self)@ == old(self)@,
            !is_accept_name(name@) && !is_framing_name(name@) ==> r is Ok && final(self)@ == (
            RequestHeadView { headers: old(self)@.headers.push((name@, value@)), ..old(self)@ }),
    {
        if names_match(name, "Accept") {
            match AcceptMime::parse(value) {
                None => {
                    return Err(UserError::IllegalAcceptHeaderValueSet);
                },
                Some(items) => {
                    if self.headers.try_set("Accept", value).is_some() {
                        return Err(UserError::MultipleAcceptHeaderValuesSet);
                    }
                    self.accept = items;
                    return Ok(());
                },
            }
        }
        if names_match(name, "Content-Length") || names_match(name, "Transfer-Encoding") {
            return Err(UserError::ImmutableRequestHeaderModified);
        }
        self.headers.add(name, value);
        Ok(())
    }

    /// Replaces the acceptable media types, and the `Accept` header with them.
    pub fn set_accept(&mut self, types: Vec<AcceptMime>)
        ensures
            final(self)@ == (RequestHeadView {
                accept: accept_view(types@),
                headers: without(old(self)@.headers, "Accept"@).push(
                    ("Accept"@, render_accept(accept_view(types@))),
                ),
                ..old(self)@
            }),
    {
        let value = AcceptMime::elements_to_header_value(types.as_slice());
        self.headers.set("Accept", value.as_str());
        self.accept = types;
    }
}

} // verus!

verus! {

/// A head on the wire: the request line and CR LF, then, after HTTP/0.9,
/// the header lines and an empty line.
pub open spec fn head_bytes(h: RequestHeadView) -> Seq<u8> {
    vstd::utf8::encode_utf8(h.status_line) + crate::http::response::crlf() + if h.version
        == HttpVersion::Http09 {
        Seq::empty()
    } else {
        crate::http::response::header_lines(h.headers) + crate::http::response::crlf()
    }
}

impl RequestHead {
    /// Writes the head as it goes on the wire.
    pub fn to_bytes(&self) -> (r: Vec<u8>)
        ensures
            r@ == head_bytes(self@),
    {
        let mut out: Vec<u8> = Vec::new();
        crate::http::response::append_bytes(&mut out, self.status_line.as_str().as_bytes());
        out.push(13u8);
        out.push(10u8);
        if self.version == HttpVersion::Http09 {
            assert(out@ =~= head_bytes(self@));
            return out;
        }
        let ghost start = out@;
        let mut i: usize = 0;
        while i < self.headers.len()
            invariant
                i <= self@.headers.len(),
                self@.headers == self.headers@,
                out@ == start + crate::http::response::header_lines(self@.headers.subrange(0, i as int)),
            decreases self@.headers.len() - i,
        {
            let h = self.headers.at(i);
            crate::http::response::append_bytes(&mut out, h.name.as_str().as_bytes());
            out.push(58u8);
            out.push(32u8);
            crate::http::response::append_bytes(&mut out, h.value.as_str().as_bytes());
            out.push(13u8);
            out.push(10u8);
            proof {
                let hs = self@.headers.subrange(0, i + 1);
                assert(hs.drop_last() =~= self@.headers.subrange(0, i as int));
                assert(out@ =~= start + crate::http::response::header_lines(hs));
            }
            i = i + 1;
        }
        assert(self@.headers.subrange(0, i as int) =~= self@.headers);
        out.push(13u8);
        out.push(10u8);
        assert(out@ =~= head_bytes(self@));
        out
    }
}

} // verus!

verus! {

/// Header lines that parse end after `pos` and no later than `bound`.
pub proof fn lemma_headers_span(b: Seq<u8>, pos: int, bound: int)
    requires
        0 <= pos <= bound <= b.len(),
        parse_headers(b, pos, bound) is Ok,
    ensures
        pos < parse_headers(b, pos, bound)->Ok_0.1 <= bound,
    decreases bound - pos,
{
    lemma_find(b, pos, bound, LF);
    let j = find(b, pos, bound, LF);
    if !(j == pos + 1 && b[pos] == CR) {
        lemma_headers_span(b, j + 1, bound);
    }
}

/// A head that parses spans at least its request line's CR LF and no more
/// than the bytes given.
pub proof fn lemma_head_span(b: Seq<u8>, limit: int)
    requires
        parse_head(b, limit) is Ok,
    ensures
        2 <= parse_head(b, limit)->Ok_0.end <= b.len(),
{
    let bound = if b.len() < limit {
        b.len() as int
    } else {
        limit
    };
    lemma_find(b, 0, bound, LF);
    let lf = find(b, 0, bound, LF);
    if parse_head(b, limit)->Ok_0.line.version != HttpVersion::Http09 {
        lemma_headers_span(b, lf + 1, bound);
    }
}

} // verus!

verus! {

/// The head that the model of its bytes describes.
pub open spec fn model_view(m: HeadModel) -> RequestHeadView {
    RequestHeadView {
        method: ascii_chars(m.line.method),
        version: m.line.version,
        status_line: ascii_chars(m.status_line),
        path: m.line.path,
        query: ascii_chars(m.line.query),
        accept: accept_for(m.line.version, ascii_headers(m.headers)),
        headers: ascii_headers(m.headers),
    }
}

/// A head holds what its model says exactly when it is the model's view.
pub proof fn lemma_model_view(h: RequestHeadView, m: HeadModel)
    ensures
        head_models(h, m) <==> h == model_view(m),
{
}

} // verus!
