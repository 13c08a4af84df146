//! The WebSocket opening handshake (RFC 6455 section 4): recognising an
//! upgrade request and computing the accept key.
use vstd::prelude::*;
use vstd::string::StrSliceExecFns;
use vstd::utf8::encode_utf8;
use crate::http::headers::{first_value, names_match, same_name};
use crate::http::parse::ascii_bytes;
use crate::http::request::{HttpVersion, RequestHead, RequestHeadView};
use crate::http::response::{append_bytes, Response, ResponseView};
use crate::http::text::{ascii_chars, ascii_string};
use crate::websocket::sha1::{sha1, sha1_digest};

verus! {

/// The base64 digit for a value below 64.
pub open spec fn b64_char(v: int) -> u8 {
    if v < 26 {
        (65 + v) as u8
    } else if v < 52 {
        (71 + v) as u8
    } else if v < 62 {
        (v - 4) as u8
    } else if v == 62 {
        43u8
    } else {
        47u8
    }
}

/// Base64 (RFC 4648) with padding: each three bytes become four digits.
pub open spec fn base64(s: Seq<u8>) -> Seq<u8>
    decreases s.len(),
{
    if s.len() == 0 {
        Seq::empty()
    } else if s.len() == 1 {
        seq![b64_char((s[0] >> 2u8) as int), b64_char(((s[0] & 3u8) << 4u8) as int), 61u8, 61u8]
    } else if s.len() == 2 {
        seq![
            b64_char((s[0] >> 2u8) as int),
            b64_char((((s[0] & 3u8) << 4u8) | (s[1] >> 4u8)) as int),
            b64_char(((s[1] & 15u8) << 2u8) as int),
            61u8,
        ]
    } else {
        seq![
            b64_char((s[0] >> 2u8) as int),
            b64_char((((s[0] & 3u8) << 4u8) | (s[1] >> 4u8)) as int),
            b64_char((((s[1] & 15u8) << 2u8) | (s[2] >> 6u8)) as int),
            b64_char((s[2] & 63u8) as int),
        ] + base64(s.subrange(3, s.len() as int))
    }
}

/// The base64 digit for a value.
fn b64_digit(v: u8) -> (r: u8)
    ensures
        r == b64_char(v as int),
        r < 128,
{
    if v < 26 {
        65 + v
    } else if v < 52 {
        71 + v
    } else if v < 62 {
        v - 4
    } else if v == 62 {
        43
    } else {
        47
    }
}

/// Encodes bytes in base64.
pub fn base64_encode(s: &[u8]) -> (r: Vec<u8>)
    ensures
        r@ == base64(s@),
        ascii_bytes(r@),
{
    let mut out: Vec<u8> = Vec::new();
    let mut i: usize = 0;
    let n = s.len();
    assert(s@.subrange(0, n as int) =~= s@);
    while i < n
        invariant
            i <= n == s@.len(),
            base64(s@) == out@ + base64(s@.subrange(i as int, n as int)),
            ascii_bytes(out@),
        decreases n - i,
    {
        let ghost t = s@.subrange(i as int, n as int);
        let ghost before = out@;
        let b0 = s[i];
        if n - i == 1 {
            out.push(b64_digit(b0 >> 2u8));
            out.push(b64_digit((b0 & 3u8) << 4u8));
            out.push(61u8);
            out.push(61u8);
            assert(out@ =~= before + base64(t));
            return out;
        }
        let b1 = s[i + 1];
        if n - i == 2 {
            out.push(b64_digit(b0 >> 2u8));
            out.push(b64_digit(((b0 & 3u8) << 4u8) | (b1 >> 4u8)));
            out.push(b64_digit((b1 & 15u8) << 2u8));
            out.push(61u8);
            assert(out@ =~= before + base64(t));
            return out;
        }
        let b2 = s[i + 2];
        out.push(b64_digit(b0 >> 2u8));
        out.push(b64_digit(((b0 & 3u8) << 4u8) | (b1 >> 4u8)));
        out.push(b64_digit(((b1 & 15u8) << 2u8) | (b2 >> 6u8)));
        out.push(b64_digit(b2 & 63u8));
        proof {
            assert(t.subrange(3, t.len() as int) =~= s@.subrange(i + 3, n as int));
            assert(out@ + base64(s@.subrange(i + 3, n as int)) =~= before + base64(t));
        }
        i = i + 3;
    }
    assert(base64(s@.subrange(i as int, n as int)) =~= Seq::<u8>::empty());
    assert(out@ + Seq::<u8>::empty() =~= out@);
    out
}

/// The GUID that RFC 6455 appends to the client's key.
pub open spec fn websocket_guid() -> Seq<char> {
    "258EAFA5-E914-47DA-95CA-C5AB0DC85B11"@
}

/// The accept key for a client key: the base64 of the SHA-1 of the key
/// followed by the GUID.
pub open spec fn accept_key(key: Seq<char>) -> Seq<char> {
    ascii_chars(base64(sha1(encode_utf8(key) + encode_utf8(websocket_guid()))))
}

/// Whether a key, with the GUID after it, is short enough for SHA-1 and
/// its padding to be held in memory.
pub open spec fn key_fits(key: Seq<char>) -> bool {
    &&& encode_utf8(key).len() + 36 < 0x1000_0000_0000_0000
    &&& encode_utf8(key).len() + 36 + 128 <= usize::MAX
}

/// Computes the accept key for a client key.
pub fn compute_accept_key(key: &str) -> (r: String)
    requires
        key_fits(key@),
    ensures
        r@ == accept_key(key@),
{
    let mut input: Vec<u8> = Vec::new();
    append_bytes(&mut input, key.as_bytes());
    append_bytes(&mut input, "258EAFA5-E914-47DA-95CA-C5AB0DC85B11".as_bytes());
    proof {
        reveal_strlit("258EAFA5-E914-47DA-95CA-C5AB0DC85B11");
        assert(vstd::utf8::is_ascii_chars("258EAFA5-E914-47DA-95CA-C5AB0DC85B11"@));
        vstd::utf8::is_ascii_chars_encode_utf8("258EAFA5-E914-47DA-95CA-C5AB0DC85B11"@);
    }
    let digest = sha1_digest(input.as_slice());
    let encoded = base64_encode(digest.as_slice());
    ascii_string(encoded.as_slice())
}

} // verus!

verus! {

/// Whether `tok` occurs in `v`, without regard to ASCII case.
pub open spec fn contains_token(v: Seq<char>, tok: Seq<char>) -> bool {
    exists|i: int| 0 <= i && i + tok.len() <= v.len() && #[trigger] same_name(v.subrange(i, i + tok.len()), tok)
}

/// Checks whether `tok` occurs in `v`, without regard to ASCII case.
fn has_token(v: &str, tok: &str) -> (r: bool)
    ensures
        r == contains_token(v@, tok@),
{
    let n = v.unicode_len();
    let k = tok.unicode_len();
    if k > n {
        return false;
    }
    let mut i: usize = 0;
    while i <= n - k
        invariant
            n == v@.len(),
            k == tok@.len(),
            k <= n,
            i <= n - k + 1,
            forall|j: int| 0 <= j < i ==> !#[trigger] same_name(v@.subrange(j, j + k), tok@),
        decreases n - k + 1 - i,
    {
        if names_match(v.substring_char(i, i + k), tok) {
            return true;
        }
        i = i + 1;
    }
    false
}

/// Whether a head asks to open a WebSocket: `GET` over HTTP/1.1 with
/// `Upgrade: websocket`, a `Connection` that names `upgrade`, and a
/// non-empty `Sec-WebSocket-Key`.
pub open spec fn is_upgrade(h: RequestHeadView) -> bool {
    let upgrade = first_value(h.headers, "Upgrade"@);
    let connection = first_value(h.headers, "Connection"@);
    let key = first_value(h.headers, "Sec-WebSocket-Key"@);
    &&& h.method == "GET"@
    &&& h.version == HttpVersion::Http11
    &&& upgrade is Some && same_name(upgrade->Some_0, "websocket"@)
    &&& connection is Some && contains_token(connection->Some_0, "upgrade"@)
    &&& key is Some && key->Some_0.len() > 0
}

/// The client's key, if the head asks to open a WebSocket.
pub fn websocket_key(head: &RequestHead) -> (r: Option<String>)
    ensures
        r is Some <==> is_upgrade(head@),
        r is Some ==> r->Some_0@ == first_value(head@.headers, "Sec-WebSocket-Key"@)->Some_0,
{
    let is_get = crate::http::method::str_eq(head.method().as_str(), "GET");
    if !is_get || head.version() != HttpVersion::Http11 {
        return None;
    }
    let upgrade = match head.get_header("Upgrade") {
        Some(u) => u,
        None => {
            return None;
        },
    };
    let connection = match head.get_header("Connection") {
        Some(c) => c,
        None => {
            return None;
        },
    };
    let key = match head.get_header("Sec-WebSocket-Key") {
        Some(k) => k,
        None => {
            return None;
        },
    };
    if !names_match(upgrade, "websocket") || !has_token(connection, "upgrade") {
        return None;
    }
    if key.unicode_len() == 0 {
        return None;
    }
    Some(key.to_string())
}

/// The `101 Switching Protocols` response that completes the handshake.
pub open spec fn handshake_view(key: Seq<char>) -> ResponseView {
    ResponseView {
        status: 101,
        headers: seq![("Upgrade"@, "websocket"@), ("Connection"@, "Upgrade"@), ("Sec-WebSocket-Accept"@, accept_key(key))],
        body: Seq::empty(),
    }
}

/// Builds the response that completes the handshake for a client key.
pub fn handshake_response(key: &str) -> (r: Response)
    requires
        key_fits(key@),
    ensures
        r@ == handshake_view(key@),
{
    let accept = compute_accept_key(key);
    let r = Response::empty(101).with_header("Upgrade", "websocket").with_header("Connection", "Upgrade").with_header(
        "Sec-WebSocket-Accept",
        accept.as_str(),
    );
    assert(r@.headers =~= handshake_view(key@).headers);
    r
}

} // verus!
