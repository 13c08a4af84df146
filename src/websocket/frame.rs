//! WebSocket frames (RFC 6455): reading them from bytes and writing them.
use vstd::prelude::*;
use crate::http::parse::copy_range;
use crate::http::response::append_bytes;

verus! {

/// The kind of a frame.
#[derive(Debug, Clone, Copy, PartialEq, Eq, Structural)]
pub enum Opcode {
    /// A further fragment of a message.
    Continuation,
    /// The first frame of a text message.
    Text,
    /// The first frame of a binary message.
    Binary,
    /// The peer closes the connection.
    Close,
    /// A ping, to be answered with a pong.
    Ping,
    /// A pong.
    Pong,
}

/// The opcode a frame's low four bits name, if any.
pub open spec fn opcode_of(bits: u8) -> Option<Opcode> {
    if bits == 0 {
        Some(Opcode::Continuation)
    } else if bits == 1 {
        Some(Opcode::Text)
    } else if bits == 2 {
        Some(Opcode::Binary)
    } else if bits == 8 {
        Some(Opcode::Close)
    } else if bits == 9 {
        Some(Opcode::Ping)
    } else if bits == 10 {
        Some(Opcode::Pong)
    } else {
        None
    }
}

/// The four bits that stand for an opcode.
pub open spec fn opcode_bits(o: Opcode) -> u8 {
    match o {
        Opcode::Continuation => 0,
        Opcode::Text => 1,
        Opcode::Binary => 2,
        Opcode::Close => 8,
        Opcode::Ping => 9,
        Opcode::Pong => 10,
    }
}

impl Opcode {
    /// The opcode that four bits name.
    pub fn from_bits(bits: u8) -> (r: Option<Opcode>)
        ensures
            r == opcode_of(bits),
    {
        if bits == 0 {
            Some(Opcode::Continuation)
        } else if bits == 1 {
            Some(Opcode::Text)
        } else if bits == 2 {
            Some(Opcode::Binary)
        } else if bits == 8 {
            Some(Opcode::Close)
        } else if bits == 9 {
            Some(Opcode::Ping)
        } else if bits == 10 {
            Some(Opcode::Pong)
        } else {
            None
        }
    }

    /// The four bits that stand for the opcode.
    pub fn bits(&self) -> (r: u8)
        ensures
            r == opcode_bits(*self),
    {
        match self {
            Opcode::Continuation => 0,
            Opcode::Text => 1,
            Opcode::Binary => 2,
            Opcode::Close => 8,
            Opcode::Ping => 9,
            Opcode::Pong => 10,
        }
    }
}

/// A frame read from bytes.
pub struct FrameView {
    /// Whether this is the last frame of its message.
    pub fin: bool,
    /// The kind of frame.
    pub opcode: Opcode,
    /// The payload, unmasked.
    pub payload: Seq<u8>,
}

/// The big-endian value of `s[from..from + n]`.
pub open spec fn be_value(s: Seq<u8>, from: int, n: int) -> nat
    decreases n,
{
    if n <= 0 {
        0
    } else {
        be_value(s, from, n - 1) * 256 + s[from + n - 1] as nat
    }
}

/// What reading a frame gives.
pub enum FrameParse {
    /// A frame, and how many bytes it took.
    Frame(FrameView, int),
    /// The bytes end before the frame does.
    Incomplete,
    /// The frame names no known opcode.
    Invalid,
}

/// Reads a frame from the start of `b`: a byte with the final flag and the
/// opcode; a byte with the mask flag and a 7-bit length, 126 for a 16-bit
/// length after it and 127 for a 64-bit one; a 4-byte mask key if masked;
/// the payload, masked byte by byte with the key.
pub open spec fn parse_frame(b: Seq<u8>) -> FrameParse {
    let masked = b.len() >= 2 && b[1] & 0x80 != 0;
    let len7 = b[1] & 0x7f;
    let hdr = if len7 == 126 { 4int } else if len7 == 127 { 10int } else { 2int };
    let len = if len7 == 126 { be_value(b, 2, 2) } else if len7 == 127 { be_value(b, 2, 8) } else { len7 as nat };
    let start = hdr + if masked { 4int } else { 0int };
    if b.len() < 2 {
        FrameParse::Incomplete
    } else if opcode_of(b[0] & 0x0f) is None {
        FrameParse::Invalid
    } else if b.len() < start || b.len() < start + len {
        FrameParse::Incomplete
    } else {
        FrameParse::Frame(
            FrameView {
                fin: b[0] & 0x80 != 0,
                opcode: opcode_of(b[0] & 0x0f)->Some_0,
                payload: Seq::new(
                    len,
                    |i: int|
                        if masked {
                            b[start + i] ^ b[hdr + i % 4]
                        } else {
                            b[start + i]
                        },
                ),
            },
            start + len,
        )
    }
}

/// Reads a big-endian number of `n` bytes from `b[from..]`.
fn read_be(b: &[u8], from: usize, n: usize) -> (r: u64)
    requires
        n <= 8,
        from + n <= b@.len(),
        from + n <= usize::MAX,
    ensures
        r as nat == be_value(b@, from as int, n as int),
{
    let mut v: u64 = 0;
    let mut i: usize = 0;
    while i < n
        invariant
            i <= n <= 8,
            from + n <= b@.len(),
            from + n <= usize::MAX,
            v as nat == be_value(b@, from as int, i as int),
            v as nat <= be_max(i as nat),
        decreases n - i,
    {
        proof {
            lemma_be_max(i as nat);
        }
        v = v * 256 + b[from + i] as u64;
        i = i + 1;
    }
    v
}

/// The largest value `n` bytes hold.
pub open spec fn be_max(n: nat) -> nat
    decreases n,
{
    if n == 0 {
        0
    } else {
        be_max((n - 1) as nat) * 256 + 255
    }
}

proof fn lemma_be_max(n: nat)
    requires
        n < 8,
    ensures
        be_max(n) * 256 + 255 <= u64::MAX,
{
    lemma_be_max_grows(n, 7);
    reveal_with_fuel(be_max, 8);
    assert(be_max(7) == 72057594037927935nat);
}

proof fn lemma_be_max_grows(n: nat, m: nat)
    requires
        n <= m,
    ensures
        be_max(n) <= be_max(m),
    decreases m - n,
{
    if n < m {
        lemma_be_max_grows(n, (m - 1) as nat);
    }
}

/// The result of reading a frame.
pub enum FrameRead {
    /// A frame, and how many bytes it took.
    Frame(Frame, usize),
    /// The bytes end before the frame does.
    Incomplete,
    /// The frame names no known opcode.
    Invalid,
}

/// A frame.
pub struct Frame {
    /// Whether this is the last frame of its message.
    pub fin: bool,
    /// The kind of frame.
    pub opcode: Opcode,
    /// The payload, unmasked.
    pub payload: Vec<u8>,
}

impl Frame {
    /// The frame as mathematical values.
    pub open spec fn view_frame(&self) -> FrameView {
        FrameView { fin: self.fin, opcode: self.opcode, payload: self.payload@ }
    }

    /// A final, unmasked frame, as a server sends it.
    pub fn new(opcode: Opcode, payload: Vec<u8>) -> (r: Frame)
        ensures
            r.view_frame() == (FrameView { fin: true, opcode, payload: payload@ }),
    {
        Frame { fin: true, opcode, payload }
    }

    /// Reads a frame from the start of `b`.
    pub fn parse(b: &[u8]) -> (r: FrameRead)
        ensures
            match parse_frame(b@) {
                FrameParse::Frame(f, n) => r is Frame && r->Frame_0.view_frame() == f && r->Frame_1 as int == n,
                FrameParse::Incomplete => r is Incomplete,
                FrameParse::Invalid => r is Invalid,
            },
    {
        if b.len() < 2 {
            return FrameRead::Incomplete;
        }
        let opcode = match Opcode::from_bits(b[0] & 0x0f) {
            None => {
                return FrameRead::Invalid;
            },
            Some(o) => o,
        };
        let masked = b[1] & 0x80 != 0;
        let len7 = b[1] & 0x7f;
        let hdr: usize = if len7 == 126 { 4 } else if len7 == 127 { 10 } else { 2 };
        let start: usize = hdr + if masked { 4 } else { 0 };
        if b.len() < start {
            return FrameRead::Incomplete;
        }
        let len: u64 = if len7 == 126 {
            read_be(b, 2, 2)
        } else if len7 == 127 {
            read_be(b, 2, 8)
        } else {
            len7 as u64
        };
        if len > (b.len() - start) as u64 {
            return FrameRead::Incomplete;
        }
        let n = len as usize;
        let mut payload: Vec<u8> = Vec::new();
        let mut i: usize = 0;
        while i < n
            invariant
                i <= n,
                start + n <= b@.len(),
                b@.len() <= usize::MAX,
                hdr + 4 <= start || !masked,
                masked == (b@[1] & 0x80 != 0),
                hdr == (if b@[1] & 0x7f == 126 { 4int } else if b@[1] & 0x7f == 127 { 10int } else { 2int }),
                start == hdr + if masked { 4int } else { 0int },
                forall|k: int| 0 <= k < i ==> #[trigger] payload@[k] == if masked {
                    b@[start + k] ^ b@[hdr + k % 4]
                } else {
                    b@[start + k]
                },
                payload@.len() == i,
            decreases n - i,
        {
            let c = if masked { b[start + i] ^ b[hdr + i % 4] } else { b[start + i] };
            payload.push(c);
            i = i + 1;
        }
        let f = Frame { fin: b[0] & 0x80 != 0, opcode, payload };
        assert(f.view_frame().payload =~= match parse_frame(b@) {
            FrameParse::Frame(v, _) => v.payload,
            _ => Seq::empty(),
        });
        FrameRead::Frame(f, start + n)
    }
}

} // verus!

verus! {

/// The last `k` bytes of `n`, big-endian.
pub open spec fn be_bytes(n: nat, k: nat) -> Seq<u8>
    decreases k,
{
    if k == 0 {
        Seq::empty()
    } else {
        be_bytes(n / 256, (k - 1) as nat).push((n % 256) as u8)
    }
}

/// A frame on the wire, unmasked as a server sends it: the final flag and
/// opcode, the length in the shortest form that holds it, the payload.
pub open spec fn frame_bytes(f: FrameView) -> Seq<u8> {
    let b0 = ((if f.fin { 128int } else { 0int }) + opcode_bits(f.opcode)) as u8;
    let n = f.payload.len();
    let head = if n < 126 {
        seq![b0, n as u8]
    } else if n <= 65535 {
        seq![b0, 126u8] + be_bytes(n, 2)
    } else {
        seq![b0, 127u8] + be_bytes(n, 8)
    };
    head + f.payload
}

/// Writes the last `k` bytes of `n`, big-endian.
pub fn write_be(out: &mut Vec<u8>, n: u64, k: usize)
    requires
        k <= 8,
    ensures
        final(out)@ == old(out)@ + be_bytes(n as nat, k as nat),
    decreases k,
{
    if k == 0 {
        assert(final(out)@ =~= old(out)@ + be_bytes(n as nat, 0));
        return;
    }
    write_be(out, n / 256, k - 1);
    out.push((n % 256) as u8);
    assert(be_bytes(n as nat, k as nat) == be_bytes((n / 256) as nat, (k - 1) as nat).push((n % 256) as u8));
    assert(final(out)@ =~= old(out)@ + be_bytes(n as nat, k as nat));
}

impl Frame {
    /// Writes the frame as a server sends it.
    pub fn to_bytes(&self) -> (r: Vec<u8>)
        ensures
            r@ == frame_bytes(self.view_frame()),
    {
        let b0: u8 = (if self.fin { 128u8 } else { 0u8 }) + self.opcode.bits();
        let n = self.payload.len();
        let mut out: Vec<u8> = Vec::new();
        out.push(b0);
        if n < 126 {
            out.push(n as u8);
        } else if n <= 65535 {
            out.push(126u8);
            write_be(&mut out, n as u64, 2);
        } else {
            out.push(127u8);
            write_be(&mut out, n as u64, 8);
        }
        append_bytes(&mut out, self.payload.as_slice());
        assert(out@ =~= frame_bytes(self.view_frame()));
        out
    }
}

} // verus!

verus! {

/// `be_bytes` gives exactly `k` bytes.
pub proof fn lemma_be_bytes_len(n: nat, k: nat)
    ensures
        be_bytes(n, k).len() == k,
    decreases k,
{
    if k > 0 {
        lemma_be_bytes_len(n / 256, (k - 1) as nat);
    }
}

} // verus!
