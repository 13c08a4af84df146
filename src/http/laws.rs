//! Laws that relate the parser to the serializer and to itself.
use vstd::prelude::*;
use vstd::utf8::encode_utf8;
use crate::http::parse::{ascii_bytes, find, find_sep, lemma_find, lemma_find_sep, status_byte_ok, status_bytes_ok, trim, CR, LF};
use crate::http::request::{
    ascii_headers, head_bytes, head_models, parse_head, parse_header_line, parse_headers, HeadModel,
    HttpVersion, RequestHeadParsingError, RequestHeadView,
};
use crate::http::body::{BodyFraming, FramingError};
use crate::http::response::{crlf, header_line, header_lines};
use crate::http::text::ascii_chars;

verus! {

/// Whether the header lines from `pos` on carry no whitespace around their
/// names and values, so that reading them loses nothing.
pub open spec fn lines_unpadded(b: Seq<u8>, pos: int, bound: int) -> bool
    decreases bound - pos,
    via lines_unpadded_decreases
{
    let j = find(b, pos, bound, LF);
    let c = b.subrange(pos, j - 1);
    let k = find_sep(c, 0);
    if j >= bound || (j == pos + 1 && b[pos] == CR) || j <= pos || b[j - 1] != CR {
        true
    } else {
        &&& trim(c.subrange(0, k)) == c.subrange(0, k)
        &&& trim(c.subrange(k + 2, c.len() as int)) == c.subrange(k + 2, c.len() as int)
        &&& lines_unpadded(b, j + 1, bound)
    }
}

/// Each line moves past at least its LF.
#[via_fn]
proof fn lines_unpadded_decreases(b: Seq<u8>, pos: int, bound: int) {
    if pos <= bound {
        lemma_find(b, pos, bound, LF);
    }
}

/// Whether the header lines of the head at the start of `b` carry no
/// whitespace around their names and values.
pub open spec fn head_unpadded(b: Seq<u8>, limit: int) -> bool {
    let bound = if b.len() < limit {
        b.len() as int
    } else {
        limit
    };
    lines_unpadded(b, find(b, 0, bound, LF) + 1, bound)
}

/// ASCII bytes, read as characters and encoded again, are the same bytes.
pub proof fn lemma_ascii_encode(x: Seq<u8>)
    requires
        ascii_bytes(x),
    ensures
        encode_utf8(ascii_chars(x)) == x,
{
    let c = ascii_chars(x);
    assert(vstd::utf8::is_ascii_chars(c)) by {
        assert forall|i: int| 0 <= i < c.len() implies '\0' <= #[trigger] c[i] <= '\u{7f}' by {
            assert(x[i] < 128);
        }
    }
    vstd::utf8::is_ascii_chars_encode_utf8(c);
    assert(encode_utf8(c) =~= x);
}

/// Header lines of a list that starts with `h`: the line of `h`, then the rest.
pub proof fn lemma_header_lines_prepend(h: (Seq<char>, Seq<char>), rest: Seq<(Seq<char>, Seq<char>)>)
    ensures
        header_lines(seq![h] + rest) == header_line(h) + header_lines(rest),
    decreases rest.len(),
{
    let all = seq![h] + rest;
    if rest.len() == 0 {
        assert(all.drop_last() =~= Seq::<(Seq<char>, Seq<char>)>::empty());
        assert(all.last() == h);
        assert(header_lines(all.drop_last()) == Seq::<u8>::empty());
        assert(header_lines(rest) == Seq::<u8>::empty());
        assert(header_lines(all) =~= header_line(h) + header_lines(rest));
    } else {
        assert(all.drop_last() =~= seq![h] + rest.drop_last());
        lemma_header_lines_prepend(h, rest.drop_last());
        assert(header_lines(all) =~= header_line(h) + header_lines(rest));
    }
}

/// Unpadded header lines are written back exactly as they were read.
pub proof fn lemma_headers_round_trip(b: Seq<u8>, pos: int, bound: int)
    requires
        0 <= pos <= bound <= b.len(),
        parse_headers(b, pos, bound) is Ok,
        lines_unpadded(b, pos, bound),
    ensures
        pos <= parse_headers(b, pos, bound)->Ok_0.1 <= bound,
        header_lines(ascii_headers(parse_headers(b, pos, bound)->Ok_0.0)) + crlf() == b.subrange(
            pos,
            parse_headers(b, pos, bound)->Ok_0.1,
        ),
    decreases bound - pos,
{
    lemma_find(b, pos, bound, LF);
    let j = find(b, pos, bound, LF);
    let r = parse_headers(b, pos, bound)->Ok_0;
    if j == pos + 1 && b[pos] == CR {
        assert(ascii_headers(Seq::empty()) =~= Seq::<(Seq<char>, Seq<char>)>::empty());
        assert(b.subrange(pos, j + 1) =~= crlf());
    } else {
        let c = b.subrange(pos, j - 1);
        let k = find_sep(c, 0);
        lemma_find_sep(c, 0);
        let h = parse_header_line(c)->Ok_0;
        let rest = parse_headers(b, j + 1, bound)->Ok_0;
        lemma_headers_round_trip(b, j + 1, bound);
        let line = b.subrange(pos, j + 1);
        assert(ascii_bytes(c.subrange(0, k))) by {
            assert forall|i: int| 0 <= i < k implies #[trigger] c.subrange(0, k)[i] < 128 by {
                assert(c.subrange(0, k)[i] == line[i]);
            }
        }
        assert(ascii_bytes(c.subrange(k + 2, c.len() as int))) by {
            let v = c.subrange(k + 2, c.len() as int);
            assert forall|i: int| 0 <= i < v.len() implies #[trigger] v[i] < 128 by {
                assert(v[i] == line[k + 2 + i]);
            }
        }
        lemma_ascii_encode(h.0);
        lemma_ascii_encode(h.1);
        let ah = (ascii_chars(h.0), ascii_chars(h.1));
        assert(ascii_headers(seq![h] + rest.0) =~= seq![ah] + ascii_headers(rest.0));
        lemma_header_lines_prepend(ah, ascii_headers(rest.0));
        assert(c =~= h.0 + seq![58u8, 32u8] + h.1);
        assert(b.subrange(pos, r.1) =~= c + crlf() + b.subrange(j + 1, r.1));
    }
}

/// Writing a parsed head gives back the bytes it was read from, wherever its
/// header lines carry no whitespace around names and values (reading trims
/// that away).
pub proof fn lemma_head_round_trip(b: Seq<u8>, limit: int, h: RequestHeadView)
    requires
        parse_head(b, limit) is Ok,
        head_models(h, parse_head(b, limit)->Ok_0),
        head_unpadded(b, limit),
    ensures
        head_bytes(h) == b.subrange(0, parse_head(b, limit)->Ok_0.end),
{
    let bound = if b.len() < limit {
        b.len() as int
    } else {
        limit
    };
    let m = parse_head(b, limit)->Ok_0;
    lemma_find(b, 0, bound, LF);
    let lf = find(b, 0, bound, LF);
    let sl = b.subrange(0, lf - 1);
    assert(ascii_bytes(sl)) by {
        let v = b.subrange(0, lf + 1);
        assert forall|i: int| 0 <= i < sl.len() implies #[trigger] sl[i] < 128 by {
            assert(sl[i] == v[i]);
            assert(status_byte_ok(v[i]));
        }
    }
    lemma_ascii_encode(sl);
    if m.line.version == HttpVersion::Http09 {
        assert(b.subrange(0, m.end) =~= sl + crlf());
        assert(head_bytes(h) =~= sl + crlf());
    } else {
        lemma_headers_round_trip(b, lf + 1, bound);
        assert(b.subrange(0, m.end) =~= sl + crlf() + b.subrange(lf + 1, m.end));
    }
}

/// Reading the same bytes twice gives equal heads: whatever two heads both
/// hold what `parse_head` reads from `b`, they are equal.
pub proof fn lemma_parse_idempotent(b: Seq<u8>, limit: int, h1: RequestHeadView, h2: RequestHeadView)
    requires
        parse_head(b, limit) is Ok,
        head_models(h1, parse_head(b, limit)->Ok_0),
        head_models(h2, parse_head(b, limit)->Ok_0),
    ensures
        h1 == h2,
{
}

} // verus!

verus! {

/// A head that parses never reaches past the limit: the reader looks at no
/// byte beyond it.
pub proof fn lemma_head_within_limit(b: Seq<u8>, limit: int)
    requires
        parse_head(b, limit) is Ok,
    ensures
        parse_head(b, limit)->Ok_0.end <= limit,
        parse_head(b, limit)->Ok_0.end <= b.len(),
{
    let bound = if b.len() < limit {
        b.len() as int
    } else {
        limit
    };
    lemma_find(b, 0, bound, LF);
    let lf = find(b, 0, bound, LF);
    if parse_head(b, limit)->Ok_0.line.version != HttpVersion::Http09 {
        crate::http::request::lemma_headers_span(b, lf + 1, bound);
    }
}

/// A request line that does not end within the limit, with more bytes
/// after it, is too large a head; the connection answers it `413` and closes.
pub proof fn lemma_oversized_line<H, W>(apps: Seq<crate::route::SubApp<H, W>>, no_filters: bool, b: Seq<u8>, limit: int, at_eof: bool)
    requires
        0 <= limit < b.len(),
        find(b, 0, limit, LF) >= limit,
    ensures
        parse_head(b, limit) == Err::<HeadModel, RequestHeadParsingError>(RequestHeadParsingError::HeadTooLarge),
        crate::server::step_shape(apps, no_filters, limit, b, 0, at_eof) == (crate::server::StepShape::Answered {
            version: HttpVersion::Http11,
            end: b.len() as int,
            keep_alive: false,
            fixed: Some(crate::server::status_only(413)),
        }),
{
    reveal(crate::server::step_shape);
    assert(b.subrange(0, b.len() as int) =~= b);
}

/// A head followed by a body of `Content-Length` bytes is written back, head
/// and body, exactly as it was read, wherever its header lines carry no
/// whitespace around names and values.
pub proof fn lemma_request_round_trip(b: Seq<u8>, limit: int, h: RequestHeadView, n: u64)
    requires
        parse_head(b, limit) is Ok,
        head_models(h, parse_head(b, limit)->Ok_0),
        head_unpadded(b, limit),
        crate::http::body::framing_of(h) == Ok::<BodyFraming, FramingError>(BodyFraming::Length(n)),
        parse_head(b, limit)->Ok_0.end + n <= b.len(),
    ensures
        ({
            let end = parse_head(b, limit)->Ok_0.end;
            &&& crate::http::body::body_of(b, end, BodyFraming::Length(n)) == Some((b.subrange(end, end + n), end + n))
            &&& head_bytes(h) + b.subrange(end, end + n) == b.subrange(0, end + n)
        }),
{
    let end = parse_head(b, limit)->Ok_0.end;
    lemma_head_round_trip(b, limit, h);
    crate::http::request::lemma_head_span(b, limit);
    assert(b.subrange(0, end) + b.subrange(end, end + n) =~= b.subrange(0, end + n));
}

} // verus!
