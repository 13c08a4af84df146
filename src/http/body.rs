//! How a request's body is framed: by `Content-Length`, by chunked
//! transfer encoding, or not at all.
use vstd::prelude::*;
use vstd::string::StrSliceExecFns;
use crate::http::headers::{first_value, names_match, same_name};
use crate::http::parse::copy_range;
use crate::http::request::{HttpVersion, RequestHead, RequestHeadView};

verus! {

/// The value of a non-empty string of decimal digits, read from its first `n` characters.
pub open spec fn digits_value(s: Seq<char>, n: int) -> nat
    decreases n,
{
    if n <= 0 {
        0
    } else {
        digits_value(s, n - 1) * 10 + ((s[n - 1] as u32) - 48) as nat
    }
}

/// Whether `s` is a non-empty string of decimal digits.
pub open spec fn is_decimal(s: Seq<char>) -> bool {
    s.len() > 0 && forall|i: int| 0 <= i < s.len() ==> '0' <= #[trigger] s[i] <= '9'
}

/// Reads a decimal number that fits in 64 bits.
pub fn parse_decimal(s: &str) -> (r: Option<u64>)
    ensures
        r is Some <==> is_decimal(s@) && digits_value(s@, s@.len() as int) <= u64::MAX,
        r is Some ==> r->Some_0 as nat == digits_value(s@, s@.len() as int),
{
    let n = s.unicode_len();
    if n == 0 {
        return None;
    }
    let mut v: u64 = 0;
    let mut i: usize = 0;
    while i < n
        invariant
            n == s@.len() > 0,
            i <= n,
            forall|k: int| 0 <= k < i ==> '0' <= #[trigger] s@[k] <= '9',
            v as nat == digits_value(s@, i as int),
        decreases n - i,
    {
        let c = s.get_char(i);
        if c < '0' || c > '9' {
            return None;
        }
        let d = (c as u32 - 48) as u64;
        if v > (u64::MAX - d) / 10 {
            proof {
                lemma_digits_grow(s@, i as int + 1, n as int);
            }
            return None;
        }
        v = v * 10 + d;
        i = i + 1;
    }
    Some(v)
}

/// Reading more digits never gives a smaller value.
proof fn lemma_digits_grow(s: Seq<char>, i: int, n: int)
    requires
        0 <= i <= n <= s.len(),
    ensures
        digits_value(s, i) <= digits_value(s, n),
    decreases n - i,
{
    if i < n {
        lemma_digits_grow(s, i, n - 1);
    }
}

/// How a request's body is delimited.
#[derive(Debug, Clone, Copy, PartialEq, Eq, Structural)]
pub enum BodyFraming {
    /// There is no body.
    Empty,
    /// The body is the next so many bytes.
    Length(u64),
    /// The body comes in chunks.
    Chunked,
}

/// Why a request's body framing is rejected (`400 Bad Request`).
#[derive(Debug, Clone, Copy, PartialEq, Eq, Structural)]
pub enum FramingError {
    /// Both `Content-Length` and `Transfer-Encoding` are present.
    BothLengthAndEncoding,
    /// `Content-Length` is not a decimal number that fits in 64 bits.
    InvalidContentLength,
    /// `Transfer-Encoding` names something other than `chunked`.
    UnsupportedTransferEncoding,
}

/// The body framing that a head declares.
pub open spec fn framing_of(h: RequestHeadView) -> Result<BodyFraming, FramingError> {
    let cl = first_value(h.headers, "Content-Length"@);
    let te = first_value(h.headers, "Transfer-Encoding"@);
    if h.version == HttpVersion::Http09 {
        Ok(BodyFraming::Empty)
    } else if cl is Some && te is Some {
        Err(FramingError::BothLengthAndEncoding)
    } else if cl is Some {
        if is_decimal(cl->Some_0) && digits_value(cl->Some_0, cl->Some_0.len() as int) <= u64::MAX {
            Ok(BodyFraming::Length(digits_value(cl->Some_0, cl->Some_0.len() as int) as u64))
        } else {
            Err(FramingError::InvalidContentLength)
        }
    } else if te is Some {
        if same_name(te->Some_0, "chunked"@) {
            Ok(BodyFraming::Chunked)
        } else {
            Err(FramingError::UnsupportedTransferEncoding)
        }
    } else {
        Ok(BodyFraming::Empty)
    }
}

/// Reads the body framing that a head declares.
pub fn body_framing(head: &RequestHead) -> (r: Result<BodyFraming, FramingError>)
    ensures
        r == framing_of(head@),
{
    if head.version() == HttpVersion::Http09 {
        return Ok(BodyFraming::Empty);
    }
    let cl = head.get_header("Content-Length");
    let te = head.get_header("Transfer-Encoding");
    match (cl, te) {
        (Some(_), Some(_)) => Err(FramingError::BothLengthAndEncoding),
        (Some(c), None) => match parse_decimal(c) {
            Some(n) => Ok(BodyFraming::Length(n)),
            None => Err(FramingError::InvalidContentLength),
        },
        (None, Some(t)) => if names_match(t, "chunked") {
            Ok(BodyFraming::Chunked)
        } else {
            Err(FramingError::UnsupportedTransferEncoding)
        },
        (None, None) => Ok(BodyFraming::Empty),
    }
}

/// Whether the client asks to keep the connection open: HTTP/1.1 unless it
/// sends `Connection: close`, HTTP/1.0 only if it sends `Connection:
/// keep-alive`, HTTP/0.9 never.
pub open spec fn wants_keep_alive(h: RequestHeadView) -> bool {
    let c = first_value(h.headers, "Connection"@);
    match h.version {
        HttpVersion::Http09 => false,
        HttpVersion::Http10 => c is Some && same_name(c->Some_0, "keep-alive"@),
        HttpVersion::Http11 => !(c is Some && same_name(c->Some_0, "close"@)),
    }
}

/// Whether the client asks to keep the connection open.
pub fn keep_alive_requested(head: &RequestHead) -> (r: bool)
    ensures
        r == wants_keep_alive(head@),
{
    let c = head.get_header("Connection");
    match head.version() {
        HttpVersion::Http09 => false,
        HttpVersion::Http10 => match c {
            Some(v) => names_match(v, "keep-alive"),
            None => false,
        },
        HttpVersion::Http11 => match c {
            Some(v) => !names_match(v, "close"),
            None => true,
        },
    }
}

} // verus!

verus! {

/// The value of the first `n` hexadecimal digits of `s`.
pub open spec fn hex_digits_value(s: Seq<u8>, n: int) -> nat
    decreases n,
{
    if n <= 0 {
        0
    } else {
        hex_digits_value(s, n - 1) * 16 + crate::http::parse::hex_val(s[n - 1]) as nat
    }
}

/// Whether every byte of `s` is a hexadecimal digit.
pub open spec fn all_hex(s: Seq<u8>) -> bool {
    forall|i: int| 0 <= i < s.len() ==> crate::http::parse::is_hex(#[trigger] s[i])
}

/// Where the trailer section that starts at `pos` ends: after the first
/// empty line, every line before it ending in CR LF.
pub open spec fn trailers_end(b: Seq<u8>, pos: int) -> Option<int>
    decreases b.len() - pos,
    via trailers_end_decreases
{
    let j = crate::http::parse::find(b, pos, b.len() as int, 10);
    if j >= b.len() || j <= pos || b[j - 1] != 13 {
        None
    } else if j == pos + 1 {
        Some(j + 1)
    } else {
        trailers_end(b, j + 1)
    }
}

/// Each trailer line moves past at least its LF.
#[via_fn]
proof fn trailers_end_decreases(b: Seq<u8>, pos: int) {
    if pos <= b.len() {
        crate::http::parse::lemma_find(b, pos, b.len() as int, 10);
    }
}

/// A chunked body from `pos`: chunks of a hexadecimal size line, CR LF, the
/// data and CR LF, up to a chunk of size zero and the trailers. Gives the
/// data and where the body ends.
pub open spec fn dechunk(b: Seq<u8>, pos: int) -> Option<(Seq<u8>, int)>
    decreases b.len() - pos,
    via dechunk_decreases
{
    let j = crate::http::parse::find(b, pos, b.len() as int, 10);
    let line = b.subrange(pos, j - 1);
    let size = hex_digits_value(line, line.len() as int);
    if j >= b.len() || j < pos + 2 || b[j - 1] != 13 || !all_hex(line) {
        None
    } else if size == 0 {
        match trailers_end(b, j + 1) {
            None => None,
            Some(e) => Some((Seq::empty(), e)),
        }
    } else if j + 3 + size > b.len() || b[j + 1 + size] != 13 || b[j + 2 + size] != 10 {
        None
    } else {
        match dechunk(b, j + 3 + size) {
            None => None,
            Some(rest) => Some((b.subrange(j + 1, j + 1 + size) + rest.0, rest.1)),
        }
    }
}

/// Each chunk moves past at least its size line.
#[via_fn]
proof fn dechunk_decreases(b: Seq<u8>, pos: int) {
    if pos <= b.len() {
        crate::http::parse::lemma_find(b, pos, b.len() as int, 10);
    }
}

/// Reading more hexadecimal digits never gives a smaller value.
proof fn lemma_hex_grow(s: Seq<u8>, i: int, n: int)
    requires
        0 <= i <= n <= s.len(),
    ensures
        hex_digits_value(s, i) <= hex_digits_value(s, n),
    decreases n - i,
{
    if i < n {
        lemma_hex_grow(s, i, n - 1);
    }
}

/// Reads the hexadecimal size `b[from..to]`; `None` if it is not all
/// hexadecimal digits or does not fit in 64 bits.
fn read_hex(b: &[u8], from: usize, to: usize) -> (r: Option<u64>)
    requires
        from <= to <= b@.len(),
    ensures
        ({
            let s = b@.subrange(from as int, to as int);
            &&& r is Some <==> all_hex(s) && hex_digits_value(s, s.len() as int) <= u64::MAX
            &&& r is Some ==> r->Some_0 as nat == hex_digits_value(s, s.len() as int)
        }),
{
    let ghost s = b@.subrange(from as int, to as int);
    let mut v: u64 = 0;
    let mut i = from;
    while i < to
        invariant
            from <= i <= to <= b@.len(),
            s == b@.subrange(from as int, to as int),
            forall|k: int| 0 <= k < i - from ==> crate::http::parse::is_hex(#[trigger] s[k]),
            v as nat == hex_digits_value(s, i - from),
        decreases to - i,
    {
        let c = b[i];
        assert(c == s[i - from]);
        if !crate::http::parse::is_hex_digit(c) {
            return None;
        }
        let d: u64 = if c <= 57 { (c - 48) as u64 } else if c <= 70 { (c - 55) as u64 } else { (c - 87) as u64 };
        if v > (u64::MAX - d) / 16 {
            proof {
                lemma_hex_grow(s, i - from + 1, s.len() as int);
            }
            return None;
        }
        v = v * 16 + d;
        i = i + 1;
    }
    Some(v)
}

/// Finds where the trailers from `pos` end.
fn read_trailers(b: &[u8], pos: usize) -> (r: Option<usize>)
    requires
        pos <= b@.len(),
    ensures
        match trailers_end(b@, pos as int) {
            None => r is None,
            Some(e) => r is Some && r->Some_0 as int == e,
        },
{
    let mut p = pos;
    loop
        invariant
            pos <= p <= b@.len(),
            trailers_end(b@, pos as int) == trailers_end(b@, p as int),
        decreases b@.len() - p,
    {
        let j = crate::http::parse::find_byte(b, p, b.len(), 10);
        if j >= b.len() || j <= p || b[j - 1] != 13 {
            return None;
        }
        if j == p + 1 {
            return Some(j + 1);
        }
        p = j + 1;
    }
}

/// Decodes a chunked body that starts at `pos`.
pub fn dechunk_body(b: &[u8], pos: usize) -> (r: Option<(Vec<u8>, usize)>)
    requires
        pos <= b@.len(),
    ensures
        match dechunk(b@, pos as int) {
            None => r is None,
            Some(d) => r is Some && r->Some_0.0@ == d.0 && r->Some_0.1 as int == d.1,
        },
{
    let mut out: Vec<u8> = Vec::new();
    let mut p = pos;
    proof {
        let d0 = dechunk(b@, pos as int);
        if d0 is Some {
            assert(out@ + d0->Some_0.0 =~= d0->Some_0.0);
        }
    }
    loop
        invariant
            pos <= p <= b@.len(),
            dechunk(b@, pos as int) == match dechunk(b@, p as int) {
                None => None,
                Some(d) => Some((out@ + d.0, d.1)),
            },
        decreases b@.len() - p,
    {
        let j = crate::http::parse::find_byte(b, p, b.len(), 10);
        if j >= b.len() || j - p < 2 || b[j - 1] != 13 {
            return None;
        }
        let size = match read_hex(b, p, j - 1) {
            None => {
                return None;
            },
            Some(s) => s,
        };
        if size == 0 {
            return match read_trailers(b, j + 1) {
                None => None,
                Some(e) => {
                    assert(out@ + Seq::<u8>::empty() =~= out@);
                    Some((out, e))
                },
            };
        }
        if size > (b.len() - j) as u64 || (b.len() - j) as u64 - size < 3 {
            return None;
        }
        let s = size as usize;
        if b[j + 1 + s] != 13 || b[j + 2 + s] != 10 {
            return None;
        }
        let data = copy_range(b, j + 1, j + 1 + s);
        let ghost before = out@;
        crate::http::response::append_bytes(&mut out, data.as_slice());
        proof {
            let next = dechunk(b@, j + 3 + s);
            if next is Some {
                assert(before + (data@ + next->Some_0.0) =~= out@ + next->Some_0.0);
            }
        }
        p = j + 3 + s;
    }
}

} // verus!

verus! {

/// A chunked body ends after where it starts, and within the bytes given.
pub proof fn lemma_dechunk_end(b: Seq<u8>, pos: int)
    requires
        0 <= pos <= b.len(),
    ensures
        dechunk(b, pos) is Some ==> pos < dechunk(b, pos)->Some_0.1 <= b.len(),
    decreases b.len() - pos,
{
    crate::http::parse::lemma_find(b, pos, b.len() as int, 10);
    let j = crate::http::parse::find(b, pos, b.len() as int, 10);
    let line = b.subrange(pos, j - 1);
    let size = hex_digits_value(line, line.len() as int);
    if dechunk(b, pos) is Some {
        if size == 0 {
            lemma_trailers_end(b, j + 1);
        } else {
            lemma_dechunk_end(b, j + 3 + size);
        }
    }
}

/// Trailers end after where they start, and within the bytes given.
proof fn lemma_trailers_end(b: Seq<u8>, pos: int)
    requires
        0 <= pos <= b.len(),
    ensures
        trailers_end(b, pos) is Some ==> pos < trailers_end(b, pos)->Some_0 <= b.len(),
    decreases b.len() - pos,
{
    crate::http::parse::lemma_find(b, pos, b.len() as int, 10);
    let j = crate::http::parse::find(b, pos, b.len() as int, 10);
    if j < b.len() && j > pos + 1 && b[j - 1] == 13 {
        lemma_trailers_end(b, j + 1);
    }
}

} // verus!

verus! {

/// The body that starts at `start` under a framing, and where it ends:
/// nothing for no body, the next `n` bytes exactly for a length, the
/// decoded chunks for chunked encoding; none if the bytes end too early.
pub open spec fn body_of(b: Seq<u8>, start: int, f: BodyFraming) -> Option<(Seq<u8>, int)> {
    match f {
        BodyFraming::Empty => Some((Seq::empty(), start)),
        BodyFraming::Length(n) => if start + n <= b.len() {
            Some((b.subrange(start, start + n), start + n))
        } else {
            None
        },
        BodyFraming::Chunked => dechunk(b, start),
    }
}

/// Reads the body that starts at `start` under a framing.
pub fn read_body(b: &[u8], start: usize, f: BodyFraming) -> (r: Option<(Vec<u8>, usize)>)
    requires
        start <= b@.len(),
    ensures
        match body_of(b@, start as int, f) {
            None => r is None,
            Some(d) => r is Some && r->Some_0.0@ == d.0 && r->Some_0.1 as int == d.1,
        },
        r is Some ==> start <= r->Some_0.1 <= b@.len(),
{
    match f {
        BodyFraming::Empty => {
            let v: Vec<u8> = Vec::new();
            assert(v@ =~= Seq::<u8>::empty());
            Some((v, start))
        },
        BodyFraming::Length(n) => {
            if n > (b.len() - start) as u64 {
                return None;
            }
            let end = start + n as usize;
            Some((copy_range(b, start, end), end))
        },
        BodyFraming::Chunked => {
            proof {
                lemma_dechunk_end(b@, start as int);
            }
            dechunk_body(b, start)
        },
    }
}

} // verus!
