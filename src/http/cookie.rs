//! Cookies sent by the client in the `Cookie` header.
use vstd::prelude::*;
use vstd::string::StrSliceExecFns;
use crate::http::headers::first_value;
use crate::http::method::str_eq;
use crate::http::request::RequestHead;
use crate::route::{find_char, lemma_find_char};

verus! {

/// A cookie: a name and a value.
#[derive(Debug, Clone)]
pub struct Cookie {
    /// The cookie's name.
    pub name: String,
    /// The cookie's value.
    pub value: String,
}

/// Whitespace that trimming removes from cookie names and values: the
/// characters with the Unicode `White_Space` property.
pub open spec fn is_space(c: char) -> bool {
    ||| '\t' <= c <= '\r'
    ||| c == ' ' || c == '\u{85}' || c == '\u{A0}' || c == '\u{1680}'
    ||| '\u{2000}' <= c <= '\u{200A}'
    ||| c == '\u{2028}' || c == '\u{2029}' || c == '\u{202F}' || c == '\u{205F}' || c == '\u{3000}'
}

/// `s` without leading and trailing whitespace.
pub open spec fn trim_chars(s: Seq<char>) -> Seq<char>
    decreases s.len(),
{
    if s.len() > 0 && is_space(s[0]) {
        trim_chars(s.subrange(1, s.len() as int))
    } else if s.len() > 0 && is_space(s[s.len() - 1]) {
        trim_chars(s.subrange(0, s.len() - 1))
    } else {
        s
    }
}

/// Whether a character is whitespace that trimming removes.
fn space_char(c: char) -> (r: bool)
    ensures
        r == is_space(c),
{
    ('\t' <= c && c <= '\r') || c == ' ' || c == '\u{85}' || c == '\u{A0}' || c == '\u{1680}' || ('\u{2000}'
        <= c && c <= '\u{200A}') || c == '\u{2028}' || c == '\u{2029}' || c == '\u{202F}' || c == '\u{205F}'
        || c == '\u{3000}'
}

/// Trims whitespace from both ends.
fn trim_str(s: &str) -> (r: String)
    ensures
        r@ == trim_chars(s@),
{
    let mut lo: usize = 0;
    let mut hi = s.unicode_len();
    assert(s@.subrange(0, hi as int) =~= s@);
    while lo < hi && space_char(s.get_char(lo))
        invariant
            lo <= hi == s@.len(),
            trim_chars(s@) == trim_chars(s@.subrange(lo as int, hi as int)),
        decreases hi - lo,
    {
        let ghost t = s@.subrange(lo as int, hi as int);
        assert(t.subrange(1, t.len() as int) =~= s@.subrange(lo + 1, hi as int));
        lo = lo + 1;
    }
    while lo < hi && space_char(s.get_char(hi - 1))
        invariant
            lo <= hi <= s@.len(),
            trim_chars(s@) == trim_chars(s@.subrange(lo as int, hi as int)),
            hi > lo ==> !is_space(s@[lo as int]),
        decreases hi - lo,
    {
        let ghost t = s@.subrange(lo as int, hi as int);
        assert(t.subrange(0, t.len() - 1) =~= s@.subrange(lo as int, hi - 1));
        hi = hi - 1;
    }
    s.substring_char(lo, hi).to_string()
}

} // verus!

verus! {

/// One `name=value` piece of a `Cookie` value, trimmed; none without `=`.
pub open spec fn cookie_piece(p: Seq<char>) -> Option<(Seq<char>, Seq<char>)> {
    let k = find_char(p, 0, '=');
    if k >= p.len() {
        None
    } else {
        Some((trim_chars(p.subrange(0, k)), trim_chars(p.subrange(k + 1, p.len() as int))))
    }
}

/// The cookies of a `Cookie` value: its `;`-separated pieces that hold `=`, in order.
pub open spec fn cookie_list(v: Seq<char>) -> Seq<(Seq<char>, Seq<char>)>
    decreases v.len(),
    via cookie_list_decreases
{
    let k = find_char(v, 0, ';');
    let here = match cookie_piece(v.subrange(0, k)) {
        None => Seq::empty(),
        Some(c) => seq![c],
    };
    if k >= v.len() {
        here
    } else {
        here + cookie_list(v.subrange(k + 1, v.len() as int))
    }
}

/// Each piece read moves past at least its `;`.
#[via_fn]
proof fn cookie_list_decreases(v: Seq<char>) {
    lemma_find_char(v, 0, ';');
}

/// Cookies as pairs of character sequences.
pub open spec fn cookies_view(cs: Seq<Cookie>) -> Seq<(Seq<char>, Seq<char>)> {
    cs.map_values(|c: Cookie| (c.name@, c.value@))
}

/// Reads a piece `name=value`.
fn read_piece(p: &str) -> (r: Option<Cookie>)
    ensures
        match cookie_piece(p@) {
            None => r is None,
            Some(c) => r is Some && r->Some_0.name@ == c.0 && r->Some_0.value@ == c.1,
        },
{
    let n = p.unicode_len();
    let k = crate::route::find_char_at(p, 0, '=');
    proof {
        lemma_find_char(p@, 0, '=');
    }
    if k >= n {
        return None;
    }
    let name = trim_str(p.substring_char(0, k));
    let value = trim_str(p.substring_char(k + 1, n));
    Some(Cookie { name, value })
}

/// Reads the cookies of a `Cookie` value.
pub fn parse_cookies(v: &str) -> (r: Vec<Cookie>)
    ensures
        cookies_view(r@) == cookie_list(v@),
{
    let mut out: Vec<Cookie> = Vec::new();
    let mut rest: &str = v;
    let ghost mut acc: Seq<(Seq<char>, Seq<char>)> = Seq::empty();
    assert(cookie_list(v@) =~= acc + cookie_list(rest@));
    loop
        invariant
            cookies_view(out@) == acc,
            cookie_list(v@) == acc + cookie_list(rest@),
        decreases rest@.len(),
    {
        let n = rest.unicode_len();
        let k = crate::route::find_char_at(rest, 0, ';');
        proof {
            lemma_find_char(rest@, 0, ';');
        }
        let piece = rest.substring_char(0, k);
        let ghost before = out@;
        let ghost here = match cookie_piece(piece@) {
            None => Seq::<(Seq<char>, Seq<char>)>::empty(),
            Some(c) => seq![c],
        };
        match read_piece(piece) {
            Some(c) => {
                out.push(c);
                assert(cookies_view(out@) =~= cookies_view(before) + here);
            },
            None => {
                assert(cookies_view(out@) =~= cookies_view(before) + here);
            },
        }
        if k >= n {
            return out;
        }
        let tail = rest.substring_char(k + 1, n);
        proof {
            assert(acc + (here + cookie_list(tail@)) =~= (acc + here) + cookie_list(tail@));
            acc = acc + here;
        }
        rest = tail;
    }
}

impl RequestHead {
    /// The cookies the client sent in its first `Cookie` header, in order.
    pub fn get_cookies(&self) -> (r: Vec<Cookie>)
        ensures
            cookies_view(r@) == match first_value(self@.headers, "Cookie"@) {
                None => Seq::empty(),
                Some(v) => cookie_list(v),
            },
    {
        match self.get_header("Cookie") {
            None => {
                let r: Vec<Cookie> = Vec::new();
                assert(cookies_view(r@) =~= Seq::empty());
                r
            },
            Some(v) => parse_cookies(v),
        }
    }

    /// The first cookie named `name`, if any.
    pub fn get_cookie(&self, name: &str) -> (r: Option<Cookie>)
        ensures
            ({
                let cs = match first_value(self@.headers, "Cookie"@) {
                    None => Seq::empty(),
                    Some(v) => cookie_list(v),
                };
                match first_cookie(cs, name@, 0) {
                    None => r is None,
                    Some(i) => r is Some && r->Some_0.name@ == cs[i].0 && r->Some_0.value@ == cs[i].1,
                }
            }),
    {
        let cookies = self.get_cookies();
        let ghost cs = cookies_view(cookies@);
        let mut i: usize = 0;
        while i < cookies.len()
            invariant
                i <= cookies@.len(),
                cs == cookies_view(cookies@),
                cs.len() == cookies@.len(),
                cs == match first_value(self@.headers, "Cookie"@) {
                    None => Seq::empty(),
                    Some(v) => cookie_list(v),
                },
                first_cookie(cs, name@, 0) == first_cookie(cs, name@, i as int),
            decreases cookies@.len() - i,
        {
            assert(cs[i as int] == (cookies@[i as int].name@, cookies@[i as int].value@));
            if str_eq(cookies[i].name.as_str(), name) {
                let c = Cookie { name: cookies[i].name.clone(), value: cookies[i].value.clone() };
                return Some(c);
            }
            i = i + 1;
        }
        None
    }
}

/// The position of the first cookie at or after `from` named `name`.
pub open spec fn first_cookie(cs: Seq<(Seq<char>, Seq<char>)>, name: Seq<char>, from: int) -> Option<int>
    decreases cs.len() - from,
{
    if from < 0 || from >= cs.len() {
        None
    } else if cs[from].0 == name {
        Some(from)
    } else {
        first_cookie(cs, name, from + 1)
    }
}

} // verus!
