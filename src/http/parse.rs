//! The byte-level grammar of a request head: finding lines, splitting
//! fields, trimming and percent-decoding, each stated as a spec function and
//! implemented by an executable function proved equal to it.
use vstd::prelude::*;

verus! {

/// Line feed.
pub const LF: u8 = 10;

/// Carriage return.
pub const CR: u8 = 13;

/// The first index in `[from, end)` holding `c`, or `end` if there is none.
pub open spec fn find(b: Seq<u8>, from: int, end: int, c: u8) -> int
    decreases end - from,
{
    if from >= end {
        end
    } else if b[from] == c {
        from
    } else {
        find(b, from + 1, end, c)
    }
}

/// What `find` returns: the first occurrence, or `end`.
pub proof fn lemma_find(b: Seq<u8>, from: int, end: int, c: u8)
    requires
        from <= end,
    ensures
        from <= find(b, from, end, c) <= end,
        find(b, from, end, c) < end ==> b[find(b, from, end, c)] == c,
        forall|k: int| from <= k < find(b, from, end, c) ==> b[k] != c,
    decreases end - from,
{
    if from < end && b[from] != c {
        lemma_find(b, from + 1, end, c);
    }
}

/// Finds the first `c` in `b[from..end]`.
pub fn find_byte(b: &[u8], from: usize, end: usize, c: u8) -> (r: usize)
    requires
        from <= end <= b@.len(),
    ensures
        r == find(b@, from as int, end as int, c),
        from <= r <= end,
{
    let mut i = from;
    while i < end
        invariant
            from <= i <= end,
            end <= b@.len(),
            find(b@, from as int, end as int, c) == find(b@, i as int, end as int, c),
        decreases end - i,
    {
        if b[i] == c {
            return i;
        }
        i = i + 1;
    }
    i
}

/// Copies `b[from..to]` into a new vector.
pub fn copy_range(b: &[u8], from: usize, to: usize) -> (r: Vec<u8>)
    requires
        from <= to <= b@.len(),
    ensures
        r@ == b@.subrange(from as int, to as int),
{
    let mut r: Vec<u8> = Vec::new();
    let mut i = from;
    while i < to
        invariant
            from <= i <= to <= b@.len(),
            r@ == b@.subrange(from as int, i as int),
        decreases to - i,
    {
        r.push(b[i]);
        i = i + 1;
        assert(r@ =~= b@.subrange(from as int, i as int));
    }
    r
}

/// Whether two byte sequences are equal.
pub fn bytes_eq(a: &[u8], b: &[u8]) -> (r: bool)
    ensures
        r == (a@ == b@),
{
    if a.len() != b.len() {
        return false;
    }
    let mut i: usize = 0;
    while i < a.len()
        invariant
            a@.len() == b@.len(),
            i <= a@.len(),
            forall|j: int| 0 <= j < i ==> a@[j] == b@[j],
        decreases a@.len() - i,
    {
        if a[i] != b[i] {
            return false;
        }
        i = i + 1;
    }
    assert(a@ =~= b@);
    true
}

/// Whether a byte may stand in a request line: the reserved and unreserved
/// characters of URIs, `%`, space, and the line's own CR and LF.
pub open spec fn status_byte_ok(c: u8) -> bool {
    ||| 48 <= c <= 57
    ||| 65 <= c <= 90
    ||| 97 <= c <= 122
    ||| c == 33 || c == 35 || c == 36 || c == 38 || c == 39 || c == 40 || c == 41
    ||| c == 42 || c == 43 || c == 44 || c == 47 || c == 58 || c == 59 || c == 61
    ||| c == 63 || c == 64 || c == 91 || c == 93
    ||| c == 45 || c == 46 || c == 95 || c == 126
    ||| c == 37 || c == 32 || c == CR || c == LF
}

/// Whether every byte of `b` may stand in a request line.
pub open spec fn status_bytes_ok(b: Seq<u8>) -> bool {
    forall|i: int| 0 <= i < b.len() ==> status_byte_ok(#[trigger] b[i])
}

/// Checks one byte of a request line.
pub fn is_status_byte(c: u8) -> (r: bool)
    ensures
        r == status_byte_ok(c),
{
    (48 <= c && c <= 57) || (65 <= c && c <= 90) || (97 <= c && c <= 122) || c == 33 || c == 35
        || c == 36 || c == 38 || c == 39 || c == 40 || c == 41 || c == 42 || c == 43 || c == 44
        || c == 47 || c == 58 || c == 59 || c == 61 || c == 63 || c == 64 || c == 91 || c == 93
        || c == 45 || c == 46 || c == 95 || c == 126 || c == 37 || c == 32 || c == CR || c == LF
}

/// Checks every byte of `b[from..to]`.
pub fn are_status_bytes(b: &[u8], from: usize, to: usize) -> (r: bool)
    requires
        from <= to <= b@.len(),
    ensures
        r == status_bytes_ok(b@.subrange(from as int, to as int)),
{
    let mut i = from;
    while i < to
        invariant
            from <= i <= to <= b@.len(),
            forall|k: int| from <= k < i ==> status_byte_ok(#[trigger] b@[k]),
        decreases to - i,
    {
        if !is_status_byte(b[i]) {
            assert(b@.subrange(from as int, to as int)[i - from] == b@[i as int]);
            return false;
        }
        i = i + 1;
    }
    assert forall|k: int| 0 <= k < to - from implies status_byte_ok(
        #[trigger] b@.subrange(from as int, to as int)[k],
    ) by {
        assert(b@.subrange(from as int, to as int)[k] == b@[from + k]);
    }
    true
}

/// Whether every byte of `b` is US-ASCII.
pub open spec fn ascii_bytes(b: Seq<u8>) -> bool {
    forall|i: int| 0 <= i < b.len() ==> #[trigger] b[i] < 128
}

/// Checks that every byte of `b[from..to]` is US-ASCII.
pub fn are_ascii(b: &[u8], from: usize, to: usize) -> (r: bool)
    requires
        from <= to <= b@.len(),
    ensures
        r == ascii_bytes(b@.subrange(from as int, to as int)),
{
    let mut i = from;
    while i < to
        invariant
            from <= i <= to <= b@.len(),
            forall|k: int| from <= k < i ==> #[trigger] b@[k] < 128,
        decreases to - i,
    {
        if b[i] >= 128 {
            assert(b@.subrange(from as int, to as int)[i - from] == b@[i as int]);
            return false;
        }
        i = i + 1;
    }
    assert forall|k: int| 0 <= k < to - from implies #[trigger] b@.subrange(
        from as int,
        to as int,
    )[k] < 128 by {
        assert(b@.subrange(from as int, to as int)[k] == b@[from + k]);
    }
    true
}

} // verus!

verus! {

/// The whitespace that trimming removes: space and the controls from tab
/// through carriage return.
pub open spec fn is_ws(c: u8) -> bool {
    c == 32 || (9 <= c <= 13)
}

/// `s` without its leading whitespace.
pub open spec fn trim_start(s: Seq<u8>) -> Seq<u8>
    decreases s.len(),
{
    if s.len() > 0 && is_ws(s[0]) {
        trim_start(s.subrange(1, s.len() as int))
    } else {
        s
    }
}

/// `s` without its trailing whitespace.
pub open spec fn trim_end(s: Seq<u8>) -> Seq<u8>
    decreases s.len(),
{
    if s.len() > 0 && is_ws(s[s.len() - 1]) {
        trim_end(s.subrange(0, s.len() - 1))
    } else {
        s
    }
}

/// `s` without leading and trailing whitespace.
pub open spec fn trim(s: Seq<u8>) -> Seq<u8> {
    trim_end(trim_start(s))
}

/// Trimming keeps bytes of `s` only, so an ASCII sequence stays ASCII.
pub proof fn lemma_trim_ascii(s: Seq<u8>)
    requires
        ascii_bytes(s),
    ensures
        ascii_bytes(trim_start(s)),
        ascii_bytes(trim(s)),
{
    lemma_trim_start_ascii(s);
    lemma_trim_end_ascii(trim_start(s));
}

proof fn lemma_trim_start_ascii(s: Seq<u8>)
    requires
        ascii_bytes(s),
    ensures
        ascii_bytes(trim_start(s)),
    decreases s.len(),
{
    if s.len() > 0 && is_ws(s[0]) {
        let t = s.subrange(1, s.len() as int);
        assert(ascii_bytes(t)) by {
            assert forall|i: int| 0 <= i < t.len() implies #[trigger] t[i] < 128 by {
                assert(t[i] == s[i + 1]);
            }
        }
        lemma_trim_start_ascii(t);
    }
}

proof fn lemma_trim_end_ascii(s: Seq<u8>)
    requires
        ascii_bytes(s),
    ensures
        ascii_bytes(trim_end(s)),
    decreases s.len(),
{
    if s.len() > 0 && is_ws(s[s.len() - 1]) {
        let t = s.subrange(0, s.len() - 1);
        assert(ascii_bytes(t)) by {
            assert forall|i: int| 0 <= i < t.len() implies #[trigger] t[i] < 128 by {
                assert(t[i] == s[i]);
            }
        }
        lemma_trim_end_ascii(t);
    }
}

/// Returns `b[from..to]` without leading and trailing whitespace.
pub fn trimmed(b: &[u8], from: usize, to: usize) -> (r: Vec<u8>)
    requires
        from <= to <= b@.len(),
    ensures
        r@ == trim(b@.subrange(from as int, to as int)),
{
    let mut lo = from;
    while lo < to && (b[lo] == 32 || (9 <= b[lo] && b[lo] <= 13))
        invariant
            from <= lo <= to <= b@.len(),
            trim_start(b@.subrange(from as int, to as int)) == trim_start(
                b@.subrange(lo as int, to as int),
            ),
        decreases to - lo,
    {
        assert(b@.subrange(lo as int, to as int).subrange(1, (to - lo) as int) =~= b@.subrange(
            lo + 1,
            to as int,
        ));
        lo = lo + 1;
    }
    assert(trim_start(b@.subrange(lo as int, to as int)) == b@.subrange(lo as int, to as int));
    let mut hi = to;
    while hi > lo && (b[hi - 1] == 32 || (9 <= b[hi - 1] && b[hi - 1] <= 13))
        invariant
            from <= lo <= hi <= to <= b@.len(),
            trim(b@.subrange(from as int, to as int)) == trim_end(
                b@.subrange(lo as int, hi as int),
            ),
        decreases hi - lo,
    {
        assert(b@.subrange(lo as int, hi as int).subrange(0, (hi - lo - 1) as int)
            =~= b@.subrange(lo as int, hi - 1));
        hi = hi - 1;
    }
    copy_range(b, lo, hi)
}

/// The first index `k >= from` at which `": "` starts in `s`, or `s.len()`.
pub open spec fn find_sep(s: Seq<u8>, from: int) -> int
    decreases s.len() - from,
{
    if from + 1 >= s.len() {
        s.len() as int
    } else if s[from] == 58 && s[from + 1] == 32 {
        from
    } else {
        find_sep(s, from + 1)
    }
}

/// What `find_sep` returns: a position where `": "` starts, or the length.
pub proof fn lemma_find_sep(s: Seq<u8>, from: int)
    requires
        0 <= from,
    ensures
        0 <= find_sep(s, from) <= s.len(),
        find_sep(s, from) < s.len() ==> find_sep(s, from) + 1 < s.len(),
        find_sep(s, from) < s.len() ==> s[find_sep(s, from)] == 58 && s[find_sep(s, from) + 1] == 32,
    decreases s.len() - from,
{
    if from + 1 < s.len() && !(s[from] == 58 && s[from + 1] == 32) {
        lemma_find_sep(s, from + 1);
    }
}

/// Finds the first `": "` in `b[from..to]`, as an index into `b`, or `to`.
pub fn find_separator(b: &[u8], from: usize, to: usize) -> (r: usize)
    requires
        from <= to <= b@.len(),
    ensures
        r == from + find_sep(b@.subrange(from as int, to as int), 0),
        from <= r <= to,
        r < to ==> r + 1 < to,
{
    let ghost s = b@.subrange(from as int, to as int);
    let mut i = from;
    while to - i > 1
        invariant
            from <= i <= to <= b@.len(),
            s == b@.subrange(from as int, to as int),
            find_sep(s, 0) == find_sep(s, i - from),
        decreases to - i,
    {
        if b[i] == 58 && b[i + 1] == 32 {
            return i;
        }
        i = i + 1;
    }
    to
}

/// Whether a byte is a hexadecimal digit.
pub open spec fn is_hex(c: u8) -> bool {
    (48 <= c <= 57) || (65 <= c <= 70) || (97 <= c <= 102)
}

/// The value of a hexadecimal digit.
pub open spec fn hex_val(c: u8) -> int {
    if 48 <= c <= 57 {
        c - 48
    } else if 65 <= c <= 70 {
        c - 55
    } else {
        c - 87
    }
}

/// Whether every `%` in `s` is followed by two hexadecimal digits.
pub open spec fn pct_ok(s: Seq<u8>) -> bool
    decreases s.len(),
{
    if s.len() == 0 {
        true
    } else if s[0] == 37 {
        s.len() >= 3 && is_hex(s[1]) && is_hex(s[2]) && pct_ok(s.subrange(3, s.len() as int))
    } else {
        pct_ok(s.subrange(1, s.len() as int))
    }
}

/// The bytes that percent-decoding `s` gives: each `%` followed by two
/// hexadecimal digits becomes the byte they spell; every other byte, a
/// stray `%` included, is kept as it is.
pub open spec fn pct_decode(s: Seq<u8>) -> Seq<u8>
    decreases s.len(),
{
    if s.len() == 0 {
        Seq::empty()
    } else if s[0] == 37 && s.len() >= 3 && is_hex(s[1]) && is_hex(s[2]) {
        seq![(hex_val(s[1]) * 16 + hex_val(s[2])) as u8] + pct_decode(s.subrange(3, s.len() as int))
    } else {
        seq![s[0]] + pct_decode(s.subrange(1, s.len() as int))
    }
}

/// Checks that every `%` in `b[from..to]` is followed by two hexadecimal digits.
pub fn is_pct_ok(b: &[u8], from: usize, to: usize) -> (r: bool)
    requires
        from <= to <= b@.len(),
    ensures
        r == pct_ok(b@.subrange(from as int, to as int)),
{
    let mut i = from;
    while i < to
        invariant
            from <= i <= to <= b@.len(),
            pct_ok(b@.subrange(from as int, to as int)) == pct_ok(b@.subrange(i as int, to as int)),
        decreases to - i,
    {
        let ghost s = b@.subrange(i as int, to as int);
        if b[i] == 37 {
            if to - i > 2 && is_hex_digit(b[i + 1]) && is_hex_digit(b[i + 2]) {
                assert(s.subrange(3, s.len() as int) =~= b@.subrange(i + 3, to as int));
                i = i + 3;
            } else {
                return false;
            }
        } else {
            assert(s.subrange(1, s.len() as int) =~= b@.subrange(i + 1, to as int));
            i = i + 1;
        }
    }
    true
}

/// Checks one hexadecimal digit.
pub fn is_hex_digit(c: u8) -> (r: bool)
    ensures
        r == is_hex(c),
{
    (48 <= c && c <= 57) || (65 <= c && c <= 70) || (97 <= c && c <= 102)
}

/// Relies on `urlencoding::decode_binary`: each `%` followed by two
/// hexadecimal digits (either case) becomes the byte they spell, and every
/// other byte, a `%` without two digits after it included, is copied.
#[verifier::external_body]
pub(crate) fn percent_decode(b: &[u8]) -> (r: Vec<u8>)
    ensures
        r@ == pct_decode(b@),
{
    urlencoding::decode_binary(b).into_owned()
}

} // verus!
