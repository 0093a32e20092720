//! `java.util.Random`: the 48-bit linear congruential generator whose
//! sequence the javadoc fixes bit for bit.

use vstd::prelude::*;
use super::wrap_i64;

verus! {

/// The 48-bit state modulus.
pub open spec fn modulus() -> int {
    0x1_0000_0000_0000
}

/// `(seed ^ 0x5DEECE66D) & ((1 << 48) - 1)`: how `new Random(seed)` and
/// `setSeed` scramble a seed into the initial state.
pub open spec fn scramble(seed: i64) -> i64 {
    (seed ^ 0x5_DEEC_E66D) & 0xFFFF_FFFF_FFFF
}

/// One LCG step: `state * 0x5DEECE66D + 0xB (mod 2^48)`.
#[verifier::opaque]
pub open spec fn lcg_step(state: i64) -> i64 {
    ((state * 0x5_DEEC_E66D + 0xB) % modulus()) as i64
}

/// What `next(bits)` returns after stepping to `state`: its top `bits` bits.
#[verifier::opaque]
pub open spec fn draw(state: i64, bits: u32) -> i32 {
    ((state as u64) >> ((48 - bits) as u64)) as i32
}

/// The state after `n` steps.
pub open spec fn lcg_iterate(state: i64, n: nat) -> i64
    decreases n,
{
    if n == 0 { state } else { lcg_step(lcg_iterate(state, (n - 1) as nat)) }
}

/// Whether the bounded draw keeps `bits % bound` (Java rejects the top slice
/// of the range that would bias the result).
pub open spec fn bound_accepts(bits: i32, bound: i32) -> bool {
    bits - bits % bound + (bound - 1) <= i32::MAX
}

/// `(bound & -bound) == bound`: Java's test for a power-of-two bound.
pub open spec fn power_of_two_bound(bound: i32) -> bool {
    (bound & ((-bound) as i32)) == bound
}

/// A 48-bit linear congruential generator matching `java.util.Random`.
#[derive(Debug)]
pub struct Random {
    seed: i64,
}

impl View for Random {
    type V = i64;

    closed spec fn view(&self) -> i64 {
        self.seed
    }
}

impl Random {
    #[verifier::type_invariant]
    spec fn in_range(self) -> bool {
        0 <= self.seed < modulus()
    }

    /// The current 48-bit state.
    pub fn state(&self) -> (r: i64)
        ensures r == self@, 0 <= r < modulus(),
    {
        proof { use_type_invariant(self); }
        self.seed
    }

    /// `new Random(seed)`.
    pub fn new(seed: i64) -> (r: Self)
        ensures r@ == scramble(seed),
    {
        let s = (seed ^ 0x5_DEEC_E66D) & 0xFFFF_FFFF_FFFF;
        assert(0 <= s <= 0xFFFF_FFFF_FFFF) by (bit_vector) requires s == (seed ^ 0x5_DEEC_E66Di64) & 0xFFFF_FFFF_FFFFi64;
        Random { seed: s }
    }

    /// `setSeed(seed)`: scrambles exactly like the constructor.
    pub fn set_seed(&mut self, seed: i64)
        ensures final(self)@ == scramble(seed),
    {
        let s = (seed ^ 0x5_DEEC_E66D) & 0xFFFF_FFFF_FFFF;
        assert(0 <= s <= 0xFFFF_FFFF_FFFF) by (bit_vector) requires s == (seed ^ 0x5_DEEC_E66Di64) & 0xFFFF_FFFF_FFFFi64;
        self.seed = s;
    }

    /// The protected `next(bits)` primitive: step the state, then return its
    /// top `bits` bits.
    pub fn next(&mut self, bits: u32) -> (r: i32)
        requires bits <= 48,
        ensures final(self)@ == lcg_step(old(self)@), r == draw(final(self)@, bits),
    {
        proof {
            use_type_invariant(&*self);
            reveal(lcg_step);
            reveal(draw);
        }
        let product: u128 = (self.seed as u128) * 0x5_DEEC_E66D + 0xB;
        let next = (product % 0x1_0000_0000_0000) as i64;
        self.seed = next;
        ((next as u64) >> (48 - bits)) as i32
    }

    /// `nextInt()`.
    pub fn next_int(&mut self) -> (r: i32)
        ensures final(self)@ == lcg_step(old(self)@), r == draw(final(self)@, 32),
    {
        self.next(32)
    }

    /// `nextLong()`: two successive 32-bit draws, high word first.
    pub fn next_long(&mut self) -> (r: i64)
        ensures
            final(self)@ == lcg_step(lcg_step(old(self)@)),
            r == wrap_i64(draw(lcg_step(old(self)@), 32) * 0x1_0000_0000 + draw(final(self)@, 32)),
    {
        let high = self.next(32);
        let low = self.next(32);
        let shifted = (high as i64) * 0x1_0000_0000;
        shifted.wrapping_add(low as i64)
    }

    /// `nextBoolean()`: the top bit of the next state.
    pub fn next_boolean(&mut self) -> (r: bool)
        ensures final(self)@ == lcg_step(old(self)@), r == (draw(final(self)@, 1) != 0),
    {
        self.next(1) != 0
    }

    /// `nextInt(bound)`, including the rejection loop that keeps the
    /// distribution uniform; power-of-two bounds take the high bits directly.
    pub fn next_int_bound(&mut self, bound: i32) -> (r: i32)
        requires bound > 0,
        ensures
            0 <= r < bound,
            power_of_two_bound(bound) ==> (final(self)@ == lcg_step(old(self)@)
                && r == ((bound as int * draw(final(self)@, 31) as int) / 0x8000_0000)),
            !power_of_two_bound(bound) ==> exists|n: nat| 1 <= n <= u64::MAX && final(self)@ == lcg_iterate(old(self)@, n)
                && r == draw(final(self)@, 31) % bound
                && (forall|k: nat| 1 <= k < n ==> !bound_accepts(#[trigger] draw(lcg_iterate(old(self)@, k), 31), bound))
                && (bound_accepts(draw(final(self)@, 31), bound) || n == u64::MAX),
    {
        if (bound & -bound) == bound {
            let bits = self.next(31);
            proof {
                use_type_invariant(&*self);
                lemma_draw31_range(self@);
            }
            assert(0 <= (bound as int) * (bits as int) < 0x4000_0000_0000_0000) by (nonlinear_arith)
                requires 0 <= bits < 0x8000_0000, 0 < bound < 0x8000_0000;
            let product = (bound as u64) * (bits as u64);
            assert(0 <= product / 0x8000_0000 < bound) by (nonlinear_arith)
                requires product == bound * bits, 0 <= bits < 0x8000_0000, bound > 0;
            return (product / 0x8000_0000) as i32;
        }
        let ghost start = self@;
        let mut attempts: u64 = 0;
        loop
            invariant
                bound > 0, !power_of_two_bound(bound), attempts < u64::MAX, start == old(self)@,
                self@ == lcg_iterate(start, attempts as nat),
                forall|k: nat| 1 <= k <= attempts ==> !bound_accepts(#[trigger] draw(lcg_iterate(start, k), 31), bound),
            decreases u64::MAX - attempts,
        {
            let bits = self.next(31);
            attempts = attempts + 1;
            proof {
                use_type_invariant(&*self);
                lemma_draw31_range(self@);
            }
            let value = ((bits as u32) % (bound as u32)) as i32;
            if (bits as i64) - (value as i64) + (bound as i64 - 1) <= 0x7fff_ffff || attempts == u64::MAX {
                assert(self@ == lcg_iterate(start, attempts as nat));
                assert(value == draw(self@, 31) % bound);
                return value;
            }
        }
    }
}

impl Clone for Random {
    fn clone(&self) -> (r: Self)
        ensures r@ == self@,
    {
        proof { use_type_invariant(self); }
        Random { seed: self.seed }
    }
}

proof fn lemma_draw31_range(state: i64)
    requires 0 <= state < modulus(),
    ensures 0 <= draw(state, 31) < 0x8000_0000,
{
    reveal(draw);
    let s = state as u64;
    assert(0 <= ((s >> 17u64) as i32) < 0x8000_0000) by (bit_vector) requires s < 0x1_0000_0000_0000u64;
}

} // verus!
