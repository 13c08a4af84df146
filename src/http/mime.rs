//! Media types in `Accept` headers, with quality values.
use vstd::prelude::*;
use crate::http::parse::{ascii_bytes, copy_range, find, find_byte, lemma_find, lemma_trim_ascii, trim, trimmed};
use crate::http::text::{ascii_chars, ascii_string};

verus! {

/// One entry of an `Accept` header: a media type and its quality, in
/// thousandths (`q=0.5` is 500; no `q` is 1000).
#[derive(Debug, Clone)]
pub struct AcceptMime {
    /// The media type, `type/subtype`, either part possibly `*`.
    pub mime: String,
    /// The quality, from 0 to 1000.
    pub q: u16,
}

impl AcceptMime {
    /// The entry as a media type and a quality.
    pub open spec fn view_pair(self) -> (Seq<char>, u16) {
        (self.mime@, self.q)
    }
}

/// A list of entries as pairs.
pub open spec fn accept_view(a: Seq<AcceptMime>) -> Seq<(Seq<char>, u16)> {
    a.map_values(|m: AcceptMime| m.view_pair())
}

/// Entries read as bytes, seen as characters.
pub open spec fn ascii_accept(a: Seq<(Seq<u8>, u16)>) -> Seq<(Seq<char>, u16)> {
    a.map_values(|m: (Seq<u8>, u16)| (ascii_chars(m.0), m.1))
}

/// The value of the digit at `i` of `d`, or 0 past its end.
pub open spec fn digit_at(d: Seq<u8>, i: int) -> int {
    if i < d.len() {
        d[i] - 48
    } else {
        0
    }
}

/// Whether every byte of `d` is a decimal digit.
pub open spec fn all_digits(d: Seq<u8>) -> bool {
    forall|i: int| 0 <= i < d.len() ==> 48 <= #[trigger] d[i] <= 57
}

/// A quality value: `0` or `1`, optionally followed by `.` and at most three
/// digits, `1` only with zeros; in thousandths.
pub open spec fn qvalue(p: Seq<u8>) -> Option<u16> {
    let frac = p.subrange(2, p.len() as int);
    let thousandths = digit_at(frac, 0) * 100 + digit_at(frac, 1) * 10 + digit_at(frac, 2);
    if p.len() == 0 || p.len() > 5 || (p[0] != 48 && p[0] != 49) {
        None
    } else if p.len() == 1 {
        Some(if p[0] == 49 { 1000u16 } else { 0u16 })
    } else if p[1] != 46 || !all_digits(frac) {
        None
    } else if p[0] == 49 {
        if thousandths == 0 { Some(1000u16) } else { None }
    } else {
        Some(thousandths as u16)
    }
}

/// One entry: a media type with a non-empty type and subtype, optionally
/// followed by `;q=` and a quality value.
pub open spec fn parse_accept_item(s: Seq<u8>) -> Option<(Seq<u8>, u16)> {
    let semi = find(s, 0, s.len() as int, 59);
    let media = trim(s.subrange(0, semi));
    let slash = find(media, 0, media.len() as int, 47);
    let p = trim(s.subrange(semi + 1, s.len() as int));
    if slash == 0 || media.len() - slash <= 1 {
        None
    } else if semi >= s.len() {
        Some((media, 1000u16))
    } else if p.len() >= 2 && p[0] == 113 && p[1] == 61 {
        match qvalue(p.subrange(2, p.len() as int)) {
            None => None,
            Some(q) => Some((media, q)),
        }
    } else {
        None
    }
}

/// An `Accept` value: entries separated by commas, in order.
pub open spec fn parse_accept(s: Seq<u8>) -> Option<Seq<(Seq<u8>, u16)>>
    decreases s.len(),
    via parse_accept_decreases
{
    let k = find(s, 0, s.len() as int, 44);
    match parse_accept_item(s.subrange(0, k)) {
        None => None,
        Some(item) => if k >= s.len() {
            Some(seq![item])
        } else {
            match parse_accept(s.subrange(k + 1, s.len() as int)) {
                None => None,
                Some(rest) => Some(seq![item] + rest),
            }
        },
    }
}

/// Each entry read moves past at least its comma.
#[via_fn]
proof fn parse_accept_decreases(s: Seq<u8>) {
    lemma_find(s, 0, s.len() as int, 44);
}

/// Reads a quality value from `p[from..to]`.
fn read_qvalue(p: &[u8], from: usize, to: usize) -> (r: Option<u16>)
    requires
        from <= to <= p@.len(),
    ensures
        r == qvalue(p@.subrange(from as int, to as int)),
{
    let ghost s = p@.subrange(from as int, to as int);
    let n = to - from;
    if n == 0 || n > 5 || (p[from] != 48 && p[from] != 49) {
        return None;
    }
    if n == 1 {
        return Some(if p[from] == 49 { 1000u16 } else { 0u16 });
    }
    let ghost frac = s.subrange(2, s.len() as int);
    if p[from + 1] != 46 {
        return None;
    }
    let mut t: u16 = 0;
    let mut i: usize = 2;
    while i < 5
        invariant
            2 <= i <= 5,
            n == to - from,
            2 <= n <= 5,
            from + n <= p@.len(),
            s == p@.subrange(from as int, to as int),
            frac == s.subrange(2, s.len() as int),
            forall|k: int| 0 <= k < i - 2 && k < frac.len() ==> 48 <= #[trigger] frac[k] <= 57,
            t as int == (if i > 2 { digit_at(frac, 0) * 100 } else { 0 }) + (if i > 3 {
                digit_at(frac, 1) * 10
            } else {
                0
            }) + (if i > 4 { digit_at(frac, 2) } else { 0 }),
        decreases 5 - i,
    {
        if i < n {
            let c = p[from + i];
            assert(c == frac[i - 2]);
            if c < 48 || c > 57 {
                return None;
            }
            let d = (c - 48) as u16;
            if i == 2 {
                t = t + d * 100;
            } else if i == 3 {
                t = t + d * 10;
            } else {
                t = t + d;
            }
        }
        i = i + 1;
    }
    assert(all_digits(frac));
    if p[from] == 49 {
        if t == 0 { Some(1000u16) } else { None }
    } else {
        Some(t)
    }
}

} // verus!

verus! {

/// Reads one entry from `s[from..to]`.
fn read_accept_item(s: &[u8], from: usize, to: usize) -> (r: Option<(Vec<u8>, u16)>)
    requires
        from <= to <= s@.len(),
        ascii_bytes(s@),
    ensures
        r is Some ==> ascii_bytes(r->Some_0.0@),
        match parse_accept_item(s@.subrange(from as int, to as int)) {
            None => r is None,
            Some(item) => r is Some && r->Some_0.0@ == item.0 && r->Some_0.1 == item.1,
        },
{
    let ghost t = s@.subrange(from as int, to as int);
    let semi = find_byte(s, from, to, 59);
    proof {
        lemma_find_shift(s@, from as int, to as int, 59);
        assert(t.subrange(0, semi - from) =~= s@.subrange(from as int, semi as int));
        if semi < to {
            assert(t.subrange(semi - from + 1, t.len() as int) =~= s@.subrange(semi + 1, to as int));
        }
    }
    let media = trimmed(s, from, semi);
    proof {
        let m = s@.subrange(from as int, semi as int);
        assert(ascii_bytes(m)) by {
            assert forall|i: int| 0 <= i < m.len() implies #[trigger] m[i] < 128 by {
                assert(m[i] == s@[from + i]);
            }
        }
        lemma_trim_ascii(m);
    }
    let slash = find_byte(media.as_slice(), 0, media.len(), 47);
    if slash == 0 || media.len() - slash <= 1 {
        return None;
    }
    if semi >= to {
        return Some((media, 1000u16));
    }
    let p = trimmed(s, semi + 1, to);
    if p.len() >= 2 && p[0] == 113 && p[1] == 61 {
        match read_qvalue(p.as_slice(), 2, p.len()) {
            None => None,
            Some(q) => Some((media, q)),
        }
    } else {
        None
    }
}

/// `find` over a subrange gives the index that `find` over the whole
/// sequence gives, less the start of the subrange.
pub proof fn lemma_find_shift(b: Seq<u8>, from: int, to: int, c: u8)
    requires
        0 <= from <= to <= b.len(),
    ensures
        find(b.subrange(from, to), 0, to - from, c) + from == find(b, from, to, c),
{
    lemma_find_shift_at(b, from, to, 0, c);
}

proof fn lemma_find_shift_at(b: Seq<u8>, from: int, to: int, i: int, c: u8)
    requires
        0 <= from <= to <= b.len(),
        0 <= i <= to - from,
    ensures
        find(b.subrange(from, to), i, to - from, c) + from == find(b, from + i, to, c),
    decreases to - from - i,
{
    if i < to - from {
        assert(b.subrange(from, to)[i] == b[from + i]);
        lemma_find_shift_at(b, from, to, i + 1, c);
    }
}

/// Parses an `Accept` value into its entries; `None` when any entry is malformed.
pub fn parse_accept_bytes(s: &[u8]) -> (r: Option<Vec<(Vec<u8>, u16)>>)
    requires
        ascii_bytes(s@),
    ensures
        r is Some ==> forall|i: int| 0 <= i < r->Some_0@.len() ==> ascii_bytes(#[trigger] r->Some_0@[i].0@),
        match parse_accept(s@) {
            None => r is None,
            Some(items) => r is Some && r->Some_0@.len() == items.len() && forall|i: int|
                0 <= i < items.len() ==> (#[trigger] r->Some_0@[i]).0@ == items[i].0 && r->Some_0@[i].1
                    == items[i].1,
        },
{
    let mut out: Vec<(Vec<u8>, u16)> = Vec::new();
    let ghost mut acc: Seq<(Seq<u8>, u16)> = Seq::empty();
    let mut pos: usize = 0;
    let n = s.len();
    proof {
        assert(s@.subrange(0, n as int) =~= s@);
        if parse_accept(s@) is Some {
            assert(acc + parse_accept(s@)->Some_0 =~= parse_accept(s@)->Some_0);
        }
    }
    loop
        invariant
            pos <= n == s@.len(),
            out@.len() == acc.len(),
            forall|i: int| 0 <= i < acc.len() ==> (#[trigger] out@[i]).0@ == acc[i].0 && out@[i].1 == acc[i].1,
            forall|i: int| 0 <= i < out@.len() ==> ascii_bytes(#[trigger] out@[i].0@),
            ascii_bytes(s@),
            parse_accept(s@) == match parse_accept(s@.subrange(pos as int, n as int)) {
                None => None,
                Some(rest) => Some(acc + rest),
            },
        decreases n - pos,
    {
        let ghost t = s@.subrange(pos as int, n as int);
        let k = find_byte(s, pos, n, 44);
        proof {
            lemma_find_shift(s@, pos as int, n as int, 44);
            assert(t.subrange(0, k - pos) =~= s@.subrange(pos as int, k as int));
            if k < n {
                assert(t.subrange(k - pos + 1, t.len() as int) =~= s@.subrange(k + 1, n as int));
            }
        }
        match read_accept_item(s, pos, k) {
            None => {
                return None;
            },
            Some(item) => {
                let ghost iv = (item.0@, item.1);
                out.push(item);
                if k >= n {
                    proof {
                        assert(acc + seq![iv] =~= acc.push(iv));
                    }
                    return Some(out);
                }
                proof {
                    let rest = parse_accept(s@.subrange(k + 1, n as int));
                    if rest is Some {
                        assert(acc + (seq![iv] + rest->Some_0) =~= acc.push(iv) + rest->Some_0);
                    }
                    acc = acc.push(iv);
                }
                pos = k + 1;
            },
        }
    }
}

} // verus!

verus! {

/// What an `Accept` value reads as: its entries when it is US-ASCII and well
/// formed, else nothing.
pub open spec fn accept_of(s: Seq<u8>) -> Option<Seq<(Seq<u8>, u16)>> {
    if ascii_bytes(s) {
        parse_accept(s)
    } else {
        None
    }
}

impl AcceptMime {
    /// Parses an `Accept` header value into its entries, in order.
    pub fn parse(value: &str) -> (r: Option<Vec<AcceptMime>>)
        ensures
            match accept_of(vstd::utf8::encode_utf8(value@)) {
                None => r is None,
                Some(items) => r is Some && accept_view(r->Some_0@) == ascii_accept(items),
            },
    {
        let b = value.as_bytes();
        if !crate::http::parse::are_ascii(b, 0, b.len()) {
            assert(b@.subrange(0, b@.len() as int) =~= b@);
            return None;
        }
        assert(b@.subrange(0, b@.len() as int) =~= b@);
        AcceptMime::from_bytes(b)
    }

    /// Parses the bytes of an `Accept` header value, which must be US-ASCII.
    pub fn from_bytes(b: &[u8]) -> (r: Option<Vec<AcceptMime>>)
        requires
            ascii_bytes(b@),
        ensures
            match parse_accept(b@) {
                None => r is None,
                Some(items) => r is Some && accept_view(r->Some_0@) == ascii_accept(items),
            },
    {
        let items = match parse_accept_bytes(b) {
            None => {
                return None;
            },
            Some(items) => items,
        };
        let ghost model = parse_accept(b@)->Some_0;
        let mut out: Vec<AcceptMime> = Vec::new();
        let mut i: usize = 0;
        while i < items.len()
            invariant
                i <= items@.len() == model.len(),
                forall|k: int| 0 <= k < model.len() ==> (#[trigger] items@[k]).0@ == model[k].0 && items@[k].1
                    == model[k].1,
                forall|k: int| 0 <= k < items@.len() ==> ascii_bytes(#[trigger] items@[k].0@),
                accept_view(out@) == ascii_accept(model.subrange(0, i as int)),
            decreases items@.len() - i,
        {
            let mime = ascii_string(items[i].0.as_slice());
            let ghost before = out@;
            out.push(AcceptMime { mime, q: items[i].1 });
            proof {
                assert(accept_view(out@) =~= accept_view(before).push(out@[i as int].view_pair()));
                assert(model.subrange(0, i + 1) =~= model.subrange(0, i as int).push(model[i as int]));
                assert(ascii_accept(model.subrange(0, i + 1)) =~= ascii_accept(
                    model.subrange(0, i as int),
                ).push((ascii_chars(model[i as int].0), model[i as int].1)));
            }
            i = i + 1;
        }
        assert(model.subrange(0, i as int) =~= model);
        Some(out)
    }

    /// The entry `*/*` with quality 1, which accepts anything.
    pub fn any() -> (r: AcceptMime)
        ensures
            r.mime@ == "*/*"@,
            r.q == 1000,
    {
        AcceptMime { mime: "*/*".to_string(), q: 1000 }
    }

    /// The entry `text/html` with quality 1, all that HTTP/0.9 accepts.
    pub fn html() -> (r: AcceptMime)
        ensures
            r.mime@ == "text/html"@,
            r.q == 1000,
    {
        AcceptMime { mime: "text/html".to_string(), q: 1000 }
    }
}

impl Default for AcceptMime {
    fn default() -> (r: AcceptMime)
        ensures
            r.mime@ == "*/*"@,
            r.q == 1000,
    {
        AcceptMime::any()
    }
}

impl PartialEq for AcceptMime {
    fn eq(&self, other: &AcceptMime) -> (r: bool) {
        self.q == other.q && self.mime == other.mime
    }
}

impl vstd::std_specs::cmp::PartialEqSpecImpl for AcceptMime {
    open spec fn obeys_eq_spec() -> bool {
        true
    }

    open spec fn eq_spec(&self, other: &AcceptMime) -> bool {
        self.q == other.q && self.mime@ == other.mime@
    }
}

} // verus!

verus! {

/// The parameter that writes a quality below 1 (`;q=0.250`); nothing for 1.
pub open spec fn q_suffix(q: u16) -> Seq<char> {
    if q >= 1000 {
        Seq::empty()
    } else {
        ascii_chars(
            seq![59u8, 113u8, 61u8, 48u8, 46u8, (48 + q / 100) as u8, (48 + (q / 10) % 10) as u8, (48 + q % 10) as u8],
        )
    }
}

/// Entries written as an `Accept` value: `type/subtype[;q=0.ddd]`, joined by `", "`.
pub open spec fn render_accept(a: Seq<(Seq<char>, u16)>) -> Seq<char>
    decreases a.len(),
{
    if a.len() == 0 {
        Seq::empty()
    } else if a.len() == 1 {
        a[0].0 + q_suffix(a[0].1)
    } else {
        render_accept(a.drop_last()) + ", "@ + a.last().0 + q_suffix(a.last().1)
    }
}

impl AcceptMime {
    /// Writes entries as the value of an `Accept` header.
    pub fn elements_to_header_value(types: &[AcceptMime]) -> (r: String)
        ensures
            r@ == render_accept(accept_view(types@)),
    {
        let mut out = String::new();
        let mut i: usize = 0;
        while i < types.len()
            invariant
                i <= types@.len(),
                out@ == render_accept(accept_view(types@.subrange(0, i as int))),
            decreases types@.len() - i,
        {
            if i > 0 {
                out.append(", ");
            }
            out.append(types[i].mime.as_str());
            let q = types[i].q;
            if q < 1000 {
                let digits: Vec<u8> = vec![59u8, 113u8, 61u8, 48u8, 46u8, 48 + (q / 100) as u8, 48 + ((q / 10) % 10) as u8, 48 + (q % 10) as u8];
                let suffix = ascii_string(digits.as_slice());
                out.append(suffix.as_str());
            }
            proof {
                reveal_strlit(", ");
                let a = accept_view(types@.subrange(0, i + 1));
                assert(a.drop_last() =~= accept_view(types@.subrange(0, i as int)));
                assert(a.last() == types@[i as int].view_pair());
                if i == 0 {
                    assert(render_accept(accept_view(types@.subrange(0, 0))) =~= Seq::<char>::empty());
                    assert(out@ =~= a[0].0 + q_suffix(a[0].1));
                } else {
                    assert(out@ =~= render_accept(a.drop_last()) + ", "@ + a.last().0 + q_suffix(a.last().1));
                }
            }
            i = i + 1;
        }
        assert(types@.subrange(0, i as int) =~= types@);
        out
    }
}

} // verus!
