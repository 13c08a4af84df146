//! SHA-1 (FIPS 180-4), which the WebSocket handshake uses for the accept key.
use vstd::prelude::*;
use crate::websocket::frame::{be_bytes, lemma_be_bytes_len, write_be};

verus! {

/// `x` rotated left by `n` bits.
pub open spec fn rotl(x: u32, n: u32) -> u32 {
    (x << n) | (x >> ((32 - n) as u32))
}

/// The length of a message of `n` bytes once padded: a multiple of 64 with
/// room for the `0x80` byte and the 8-byte bit length.
pub open spec fn padded_len(n: nat) -> nat {
    ((n * 8 + 583) / 512) * 64
}

/// The padded message: the message, `0x80`, zeros, and its length in bits
/// as 8 big-endian bytes.
pub open spec fn padded(m: Seq<u8>) -> Seq<u8> {
    let n = m.len();
    let l = padded_len(n);
    Seq::new(
        l,
        |i: int|
            if i < n {
                m[i]
            } else if i == n {
                0x80u8
            } else if i >= l - 8 {
                be_bytes(n * 8, 8)[i - (l - 8)]
            } else {
                0u8
            },
    )
}

/// The big-endian word at byte `j` of `p`.
pub open spec fn word_at(p: Seq<u8>, j: int) -> u32 {
    ((p[j] as u32) << 24u32) | ((p[j + 1] as u32) << 16u32) | ((p[j + 2] as u32) << 8u32) | (p[j + 3] as u32)
}

/// Word `t` of the message schedule of block `blk`.
pub open spec fn schedule(p: Seq<u8>, blk: int, t: int) -> u32
    decreases t,
{
    if t < 16 {
        word_at(p, 64 * blk + 4 * t)
    } else {
        rotl(
            schedule(p, blk, t - 3) ^ schedule(p, blk, t - 8) ^ schedule(p, blk, t - 14) ^ schedule(
                p,
                blk,
                t - 16,
            ),
            1,
        )
    }
}

/// The five working words.
pub type Words = (u32, u32, u32, u32, u32);

/// The round function and constant of round `t`.
pub open spec fn f_k(t: int, b: u32, c: u32, d: u32) -> (u32, u32) {
    if t < 20 {
        ((b & c) | (!b & d), 0x5A827999u32)
    } else if t < 40 {
        (b ^ c ^ d, 0x6ED9EBA1u32)
    } else if t < 60 {
        ((b & c) | (b & d) | (c & d), 0x8F1BBCDCu32)
    } else {
        (b ^ c ^ d, 0xCA62C1D6u32)
    }
}

/// One round over the working words with schedule word `w`.
pub open spec fn round(s: Words, w: u32, t: int) -> Words {
    let fk = f_k(t, s.1, s.2, s.3);
    let temp = rotl(s.0, 5).wrapping_add(fk.0).wrapping_add(s.4).wrapping_add(fk.1).wrapping_add(w);
    (temp, s.0, rotl(s.1, 30), s.2, s.3)
}

/// The working words after the first `t` rounds of block `blk`, from `h`.
pub open spec fn rounds(p: Seq<u8>, blk: int, h: Words, t: int) -> Words
    decreases t,
{
    if t <= 0 {
        h
    } else {
        round(rounds(p, blk, h, t - 1), schedule(p, blk, t - 1), t - 1)
    }
}

/// The hash state after block `blk`, from `h`.
pub open spec fn compress(p: Seq<u8>, blk: int, h: Words) -> Words {
    let r = rounds(p, blk, h, 80);
    (h.0.wrapping_add(r.0), h.1.wrapping_add(r.1), h.2.wrapping_add(r.2), h.3.wrapping_add(r.3), h.4.wrapping_add(r.4))
}

/// The initial hash state.
pub open spec fn initial() -> Words {
    (0x67452301u32, 0xEFCDAB89u32, 0x98BADCFEu32, 0x10325476u32, 0xC3D2E1F0u32)
}

/// The hash state after the first `k` blocks.
pub open spec fn state_after(p: Seq<u8>, k: int) -> Words
    decreases k,
{
    if k <= 0 {
        initial()
    } else {
        compress(p, k - 1, state_after(p, k - 1))
    }
}

/// The four big-endian bytes of a word.
pub open spec fn word_bytes(x: u32) -> Seq<u8> {
    seq![(x >> 24u32) as u8, (x >> 16u32) as u8, (x >> 8u32) as u8, x as u8]
}

/// The SHA-1 digest of `m`.
pub open spec fn sha1(m: Seq<u8>) -> Seq<u8> {
    let p = padded(m);
    let h = state_after(p, (p.len() / 64) as int);
    word_bytes(h.0) + word_bytes(h.1) + word_bytes(h.2) + word_bytes(h.3) + word_bytes(h.4)
}

/// A padded length leaves room for the `0x80` byte and the length, and no
/// more than a block beyond that.
pub proof fn lemma_padded_len(n: nat)
    ensures
        n + 9 <= padded_len(n) <= n + 72,
        padded_len(n) % 64 == 0,
{
    let x = n * 8 + 583;
    let q = x / 512;
    assert(512 * q <= x < 512 * q + 512) by (nonlinear_arith)
        requires
            q == x / 512,
    ;
    assert(padded_len(n) == 64 * q);
}

/// Rotates left by `n` bits.
fn rotate(x: u32, n: u32) -> (r: u32)
    requires
        0 < n < 32,
    ensures
        r == rotl(x, n),
{
    (x << n) | (x >> (32 - n))
}

/// Pads a message as `padded` says.
fn pad(m: &[u8]) -> (r: Vec<u8>)
    requires
        m@.len() < 0x1000_0000_0000_0000,
        m@.len() + 128 <= usize::MAX,
    ensures
        r@ == padded(m@),
        r@.len() % 64 == 0,
{
    let n = m.len();
    let n64 = n as u64;
    let l64 = ((n64 * 8 + 583) / 512) * 64;
    proof {
        lemma_padded_len(n as nat);
    }
    let l = l64 as usize;
    let mut out: Vec<u8> = Vec::new();
    let mut i: usize = 0;
    while i < l - 8
        invariant
            n == m@.len() < 0x1000_0000_0000_0000,
            l == padded_len(n as nat),
            l >= n + 9,
            i <= l - 8,
            out@.len() == i,
            forall|k: int| 0 <= k < i ==> #[trigger] out@[k] == padded(m@)[k],
        decreases l - 8 - i,
    {
        let b = if i < n { m[i] } else if i == n { 0x80u8 } else { 0u8 };
        out.push(b);
        i = i + 1;
    }
    let ghost before = out@;
    write_be(&mut out, n64 * 8, 8);
    proof {
        lemma_be_bytes_len((n * 8) as nat, 8);
    }
    assert forall|k: int| 0 <= k < l implies #[trigger] out@[k] == padded(m@)[k] by {
        if k >= l - 8 {
            assert(out@[k] == be_bytes((n * 8) as nat, 8)[k - (l - 8)]);
        } else {
            assert(out@[k] == before[k]);
        }
    }
    assert(out@ =~= padded(m@));
    out
}

} // verus!

verus! {

/// Runs block `blk` of the padded message `p` through the compression
/// function from state `h`.
fn compress_block(p: &Vec<u8>, blk: usize, h: Words) -> (r: Words)
    requires
        64 * blk + 64 <= p@.len(),
        p@.len() <= usize::MAX,
    ensures
        r == compress(p@, blk as int, h),
{
    let base = 64 * blk;
    let mut w: Vec<u32> = Vec::new();
    let mut i: usize = 0;
    while i < 16
        invariant
            i <= 16,
            base == 64 * blk,
            base + 64 <= p@.len(),
            w@.len() == i,
            forall|k: int| 0 <= k < i ==> #[trigger] w@[k] == schedule(p@, blk as int, k),
        decreases 16 - i,
    {
        let j = base + 4 * i;
        let x = ((p[j] as u32) << 24u32) | ((p[j + 1] as u32) << 16u32) | ((p[j + 2] as u32) << 8u32) | (p[j
            + 3] as u32);
        w.push(x);
        i = i + 1;
    }
    while i < 80
        invariant
            16 <= i <= 80,
            w@.len() == i,
            forall|k: int| 0 <= k < i ==> #[trigger] w@[k] == schedule(p@, blk as int, k),
        decreases 80 - i,
    {
        let x = rotate(w[i - 3] ^ w[i - 8] ^ w[i - 14] ^ w[i - 16], 1);
        w.push(x);
        i = i + 1;
    }
    let (mut a, mut b, mut c, mut d, mut e) = h;
    let mut t: usize = 0;
    while t < 80
        invariant
            t <= 80,
            w@.len() == 80,
            forall|k: int| 0 <= k < 80 ==> #[trigger] w@[k] == schedule(p@, blk as int, k),
            (a, b, c, d, e) == rounds(p@, blk as int, h, t as int),
        decreases 80 - t,
    {
        let (f, k) = if t < 20 {
            ((b & c) | (!b & d), 0x5A827999u32)
        } else if t < 40 {
            (b ^ c ^ d, 0x6ED9EBA1u32)
        } else if t < 60 {
            ((b & c) | (b & d) | (c & d), 0x8F1BBCDCu32)
        } else {
            (b ^ c ^ d, 0xCA62C1D6u32)
        };
        let temp = rotate(a, 5).wrapping_add(f).wrapping_add(e).wrapping_add(k).wrapping_add(w[t]);
        e = d;
        d = c;
        c = rotate(b, 30);
        b = a;
        a = temp;
        t = t + 1;
    }
    (h.0.wrapping_add(a), h.1.wrapping_add(b), h.2.wrapping_add(c), h.3.wrapping_add(d), h.4.wrapping_add(e))
}

/// The SHA-1 digest of `m`.
pub fn sha1_digest(m: &[u8]) -> (r: [u8; 20])
    requires
        m@.len() < 0x1000_0000_0000_0000,
        m@.len() + 128 <= usize::MAX,
    ensures
        r@ == sha1(m@),
{
    let p = pad(m);
    let blocks = p.len() / 64;
    let mut h: Words = (0x67452301u32, 0xEFCDAB89u32, 0x98BADCFEu32, 0x10325476u32, 0xC3D2E1F0u32);
    let mut k: usize = 0;
    while k < blocks
        invariant
            k <= blocks,
            blocks == p@.len() / 64,
            p@.len() % 64 == 0,
            p@.len() <= usize::MAX,
            h == state_after(p@, k as int),
        decreases blocks - k,
    {
        h = compress_block(&p, k, h);
        k = k + 1;
    }
    let r: [u8; 20] = [
        (h.0 >> 24u32) as u8, (h.0 >> 16u32) as u8, (h.0 >> 8u32) as u8, h.0 as u8,
        (h.1 >> 24u32) as u8, (h.1 >> 16u32) as u8, (h.1 >> 8u32) as u8, h.1 as u8,
        (h.2 >> 24u32) as u8, (h.2 >> 16u32) as u8, (h.2 >> 8u32) as u8, h.2 as u8,
        (h.3 >> 24u32) as u8, (h.3 >> 16u32) as u8, (h.3 >> 8u32) as u8, h.3 as u8,
        (h.4 >> 24u32) as u8, (h.4 >> 16u32) as u8, (h.4 >> 8u32) as u8, h.4 as u8,
    ];
    assert(r@ =~= sha1(m@));
    r
}

/// The ability to be hashed with SHA-1.
pub trait SHA1Hash {
    /// The bytes that are hashed.
    spec fn hashed_bytes(&self) -> Seq<u8>;

    /// Hashes the bytes with SHA-1.
    fn hash(&self) -> (r: [u8; 20])
        requires
            self.hashed_bytes().len() < 0x1000_0000_0000_0000,
            self.hashed_bytes().len() + 128 <= usize::MAX,
        ensures
            r@ == sha1(self.hashed_bytes()),
    ;
}

impl SHA1Hash for [u8] {
    open spec fn hashed_bytes(&self) -> Seq<u8> {
        self@
    }

    fn hash(&self) -> (r: [u8; 20]) {
        sha1_digest(self)
    }
}

impl SHA1Hash for str {
    open spec fn hashed_bytes(&self) -> Seq<u8> {
        vstd::utf8::encode_utf8(self@)
    }

    fn hash(&self) -> (r: [u8; 20]) {
        sha1_digest(self.as_bytes())
    }
}

impl<const N: usize> SHA1Hash for [u8; N] {
    open spec fn hashed_bytes(&self) -> Seq<u8> {
        self@
    }

    fn hash(&self) -> (r: [u8; 20]) {
        sha1_digest(self.as_slice())
    }
}

} // verus!
