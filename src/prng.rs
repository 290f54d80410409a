use vstd::prelude::*;

verus! {

/// Odd multiplier applied to the state when a 32-bit value is drawn.
pub const MULTIPLIER: u64 = 0x2545F4914F6CDD1D;

/// One xorshift transition of the 64-bit state.
pub open spec fn xorshift(s: u64) -> u64 {
    let a = s ^ (s >> 12u64);
    let b = a ^ (a << 25u64);
    b ^ (b >> 27u64)
}

/// The 32-bit value extracted from a freshly advanced state: the upper half
/// of the product with `MULTIPLIER`, taken modulo 2^64.
pub open spec fn output_of(s: u64) -> u32 {
    (((s as nat * MULTIPLIER as nat) % 0x1_0000_0000_0000_0000) / 0x1_0000_0000) as u32
}

/// The state reached from `seed` after `n` transitions.
pub open spec fn state_after(seed: u64, n: nat) -> u64
    decreases n,
{
    if n == 0 {
        seed
    } else {
        xorshift(state_after(seed, (n - 1) as nat))
    }
}

/// The `n`-th value (counting from 1) drawn from a generator seeded with `seed`.
pub open spec fn draw(seed: u64, n: nat) -> u32 {
    output_of(state_after(seed, n))
}

proof fn lemma_xorshift_injective(x: u64, y: u64)
    requires
        xorshift(x) == xorshift(y),
    ensures
        x == y,
{
    let ax = x ^ (x >> 12u64);
    let ay = y ^ (y >> 12u64);
    let bx = ax ^ (ax << 25u64);
    let by_ = ay ^ (ay << 25u64);
    assert(bx ^ (bx >> 27u64) == by_ ^ (by_ >> 27u64) ==> bx == by_) by (bit_vector);
    assert(ax ^ (ax << 25u64) == ay ^ (ay << 25u64) ==> ax == ay) by (bit_vector);
    assert(x ^ (x >> 12u64) == y ^ (y >> 12u64) ==> x == y) by (bit_vector);
}

/// Distinct seeds never meet: after the same number of draws, generators
/// seeded differently are in different states.
pub proof fn lemma_distinct_seeds_stay_distinct(a: u64, b: u64, n: nat)
    requires
        a != b,
    ensures
        state_after(a, n) != state_after(b, n),
    decreases n,
{
    if n > 0 {
        lemma_distinct_seeds_stay_distinct(a, b, (n - 1) as nat);
        if state_after(a, n) == state_after(b, n) {
            lemma_xorshift_injective(state_after(a, (n - 1) as nat), state_after(b, (n - 1) as nat));
        }
    }
}

/// Deterministic xorshift generator: its whole state is one 64-bit word.
pub struct PRNG {
    pub state: u64,
}

impl PRNG {
    /// A generator whose state is the seed itself; a zero seed is kept as is.
    pub fn new(seed: u64) -> (r: PRNG)
        ensures
            r.state == seed,
    {
        PRNG { state: seed }
    }

    /// Advances the state by one transition and returns the value drawn from it.
    pub fn next_u32(&mut self) -> (r: u32)
        ensures
            final(self).state == xorshift(old(self).state),
            r == output_of(final(self).state),
    {
        self.state = self.state ^ (self.state >> 12u64);
        self.state = self.state ^ (self.state << 25u64);
        self.state = self.state ^ (self.state >> 27u64);
        let p: u64 = self.state.wrapping_mul(MULTIPLIER);
        assert(p >> 32u64 == p / 0x1_0000_0000) by (bit_vector);
        (p >> 32u64) as u32
    }

    /// One draw reduced modulo `n`.
    pub fn range(&mut self, n: usize) -> (r: usize)
        requires
            n > 0,
        ensures
            final(self).state == xorshift(old(self).state),
            r as int == output_of(final(self).state) as int % n as int,
    {
        (self.next_u32() as usize) % n
    }

    /// One draw; true when its lowest bit is clear.
    pub fn next_bool(&mut self) -> (r: bool)
        ensures
            final(self).state == xorshift(old(self).state),
            r == (output_of(final(self).state) % 2 == 0),
    {
        let v = self.next_u32();
        assert(v & 1 == 0 <==> v % 2 == 0) by (bit_vector);
        v & 1 == 0
    }
}

} // verus!
