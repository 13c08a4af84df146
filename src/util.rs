//! Small helpers shared by the codec.
use vstd::prelude::*;

verus! {

/// Unwraps a value that the caller knows to be present.
pub fn unwrap_some<T>(some: Option<T>) -> (t: T)
    requires
        some is Some,
    ensures
        some == Some(t),
{
    some.unwrap()
}

/// The ASCII digit of a value below ten.
pub open spec fn digit(d: int) -> u8 {
    (48 + d) as u8
}

/// Renders the last three decimal digits of a number as ASCII, most
/// significant first (a status code `404` becomes `b"404"`).
pub fn three_digit_to_utf(num: u16) -> (r: [u8; 3])
    ensures
        r@ == seq![digit((num as int / 100) % 10), digit((num as int / 10) % 10), digit(num as int % 10)],
{
    let n1 = num % 10;
    let n2 = (num / 10) % 10;
    let n3 = (num / 100) % 10;
    [48u8 + n3 as u8, 48u8 + n2 as u8, 48u8 + n1 as u8]
}

} // verus!

verus! {

/// Issues 128-bit ids: the millisecond time of the first id in the high 64
/// bits, a counter in the low 64 bits.
pub struct IdGenerator {
    time: u64,
    counter: u64,
}

/// The id that a time and a counter make.
pub open spec fn id_of(time: u64, counter: u64) -> int {
    time as int * 0x1_0000_0000_0000_0000 + counter as int
}

/// The time a generator holds after an id is drawn at `now`: kept once set.
pub open spec fn time_after(time: u64, now: u64) -> u64 {
    if time == 0 {
        now
    } else {
        time
    }
}

impl IdGenerator {
    /// A generator that has issued nothing.
    pub fn new() -> (r: IdGenerator)
        ensures
            r.time() == 0,
            r.counter() == 0,
    {
        IdGenerator { time: 0, counter: 0 }
    }

    /// The time in the high bits, or 0 before the first id.
    pub closed spec fn time(&self) -> u64 {
        self.time
    }

    /// The counter in the low bits of the next id.
    pub closed spec fn counter(&self) -> u64 {
        self.counter
    }

    /// Whether the counter has no ids left.
    pub fn exhausted(&self) -> (r: bool)
        ensures
            r == (self.counter() == u64::MAX),
    {
        self.counter == u64::MAX
    }

    /// Issues the next id; `now_millis` is the current time, used only for
    /// the first id.
    pub fn next(&mut self, now_millis: u64) -> (r: u128)
        requires
            old(self).counter() < u64::MAX,
        ensures
            final(self).time() == time_after(old(self).time(), now_millis),
            final(self).counter() == old(self).counter() + 1,
            r as int == id_of(final(self).time(), old(self).counter()),
    {
        if self.time == 0 {
            self.time = now_millis;
        }
        let t = self.time;
        let c = self.counter;
        let id = ((t as u128) << 64u128) | (c as u128);
        assert(id == (t as u128) * 0x1_0000_0000_0000_0000u128 + (c as u128)) by (bit_vector)
            requires
                id == ((t as u128) << 64u128) | (c as u128),
        ;
        self.counter = self.counter + 1;
        id
    }
}

/// Ids drawn one after another from a generator strictly increase.
pub proof fn lemma_ids_increase(time: u64, counter: u64, now1: u64, now2: u64)
    requires
        counter < u64::MAX - 1,
    ensures
        id_of(time_after(time, now1), counter) < id_of(
            time_after(time_after(time, now1), now2),
            (counter + 1) as u64,
        ),
{
}

/// The little-endian value of the bytes of `b` from `i` on.
pub open spec fn le_from(b: Seq<u8>, i: int) -> nat
    decreases b.len() - i,
{
    if i < 0 || i >= b.len() {
        0
    } else {
        b[i] as nat + 256 * le_from(b, i + 1)
    }
}

/// 256 to the power `n`.
pub open spec fn pow256(n: nat) -> nat
    decreases n,
{
    if n == 0 {
        1
    } else {
        256 * pow256((n - 1) as nat)
    }
}

/// Powers of 256 up to the 15th, times 256, stay within the 16th.
proof fn lemma_pow_grows(n: nat)
    requires
        n < 16,
    ensures
        pow256(n) * 256 <= pow256(16),
    decreases 16 - n,
{
    if n < 15 {
        lemma_pow_grows(n + 1);
    }
}

/// The value of `k` bytes is below 256 to the power `k`.
proof fn lemma_le_bound(b: Seq<u8>, i: int)
    requires
        0 <= i <= b.len(),
    ensures
        le_from(b, i) < pow256((b.len() - i) as nat),
    decreases b.len() - i,
{
    if i < b.len() {
        lemma_le_bound(b, i + 1);
    }
}

/// Relies on `getrandom::getrandom`: fills the buffer from the operating
/// system's source of randomness, or fails; nothing is known of the bytes.
#[verifier::external_body]
pub(crate) fn random_bytes() -> (r: Option<[u8; 16]>) {
    let mut bytes = [0u8; 16];
    match getrandom::getrandom(&mut bytes) {
        Ok(()) => Some(bytes),
        Err(_) => None,
    }
}

/// An id from random bytes when there are some, else the next counter id.
pub fn id_from(random: Option<[u8; 16]>, generator: &mut IdGenerator, now_millis: u64) -> (r: u128)
    requires
        old(generator).counter() < u64::MAX,
    ensures
        match random {
            Some(b) => r as nat == le_from(b@, 0) && final(generator).time() == old(generator).time()
                && final(generator).counter() == old(generator).counter(),
            None => final(generator).time() == time_after(old(generator).time(), now_millis)
                && final(generator).counter() == old(generator).counter() + 1 && r as int == id_of(
                final(generator).time(),
                old(generator).counter(),
            ),
        },
{
    match random {
        Some(b) => {
            let mut v: u128 = 0;
            let mut i: usize = 16;
            proof {
                reveal_with_fuel(pow256, 17);
                assert(pow256(16) == 0x1_0000_0000_0000_0000_0000_0000_0000_0000nat);
            }
            while i > 0
                invariant
                    i <= 16,
                    b@.len() == 16,
                    v as nat == le_from(b@, i as int),
                    pow256(16) == 0x1_0000_0000_0000_0000_0000_0000_0000_0000nat,
                decreases i,
            {
                proof {
                    lemma_le_bound(b@, i as int);
                    lemma_pow_grows((16 - i) as nat);
                }
                v = v * 256 + b[i - 1] as u128;
                i = i - 1;
            }
            v
        },
        None => generator.next(now_millis),
    }
}

} // verus!

verus! {

/// Issues an id: from the operating system's randomness when `random` is set
/// and randomness is available, else from the generator's counter.
pub fn next_id(generator: &mut IdGenerator, now_millis: u64, random: bool) -> (r: u128)
    requires
        old(generator).counter() < u64::MAX,
    ensures
        ({
            let counted = final(generator).time() == time_after(old(generator).time(), now_millis)
                && final(generator).counter() == old(generator).counter() + 1 && r as int == id_of(
                final(generator).time(),
                old(generator).counter(),
            );
            &&& !random ==> counted
            &&& random ==> counted || (final(generator).time() == old(generator).time()
                && final(generator).counter() == old(generator).counter())
        }),
{
    if random {
        id_from(random_bytes(), generator, now_millis)
    } else {
        generator.next(now_millis)
    }
}

} // verus!
