//! A small deterministic random source for the effect overlay.
//!
//! The engine takes no entropy from the clock or the machine: the
//! caller seeds the generator, so effect behaviour is reproducible
//! under test.  The generator is a 64-bit linear congruential step; its
//! draws decide only cosmetic effect parameters, never simulation
//! outcomes.

use vstd::prelude::*;

verus! {

/// The multiplier of the linear congruential step.
pub const LCG_MUL: u64 = 6364136223846793005;

/// The increment of the linear congruential step.
pub const LCG_ADD: u64 = 1442695040888963407;

/// The generator state after one step.
#[verifier::opaque]
pub open spec fn rng_next(s: int) -> int {
    (s * (LCG_MUL as int) + (LCG_ADD as int)) % 0x10000000000000000
}

/// The 31-bit draw a state yields: the high bits of the stepped state.
#[verifier::opaque]
pub open spec fn rand31_of(s: int) -> int {
    rng_next(s) / 0x200000000
}

/// The integer in `[min, max)` (or `min` when the range is empty) that
/// a state yields.
#[verifier::opaque]
pub open spec fn spec_randint(s: int, min: int, max: int) -> int {
    min + (rand31_of(s) * (max - min)) / 0x80000000
}

/// A seedable deterministic random source.
pub struct Rng {
    pub state: u64,
}

impl Rng {
    /// A generator starting from the given seed.
    pub fn new(seed: u64) -> (r: Rng)
        ensures
            r.state == seed,
    {
        Rng { state: seed }
    }

    /// Steps the generator and returns a draw in `[0, 2^31)`.
    pub fn next31(&mut self) -> (r: u32)
        ensures
            final(self).state as int == rng_next(old(self).state as int),
            r as int == rand31_of(old(self).state as int),
            r < 0x80000000u32,
    {
        let ghost s0 = self.state as int;
        proof {
            reveal(rng_next);
            reveal(rand31_of);
            assert(s0 * (LCG_MUL as int) + (LCG_ADD as int)
                <= 0xffffffffffffffffffffffffffffffff) by (nonlinear_arith)
                requires
                    0 <= s0 <= 0xffffffffffffffff,
            ;
        }
        let stepped: u128 = ((self.state as u128) * (LCG_MUL as u128) + (LCG_ADD as u128))
            % 0x10000000000000000u128;
        self.state = stepped as u64;
        let q: u64 = self.state / 0x200000000u64;
        proof {
            let x = self.state as int;
            vstd::arithmetic::div_mod::lemma_fundamental_div_mod(x, 0x200000000);
            vstd::arithmetic::div_mod::lemma_mod_bound(x, 0x200000000);
        }
        q as u32
    }

}

/// A draw in `[min, max)`, or `min` when the range is empty.  The
/// result is a pure function of the generator state.
pub fn randint(rng: &mut Rng, min: i32, max: i32) -> (r: i32)
    requires
        min <= max,
    ensures
        final(rng).state as int == rng_next(old(rng).state as int),
        r as int == spec_randint(old(rng).state as int, min as int, max as int),
        min <= r <= max,
        min < max ==> r < max,
{
    let r31 = rng.next31();
    let span: u64 = ((max as i64) - (min as i64)) as u64;
    proof {
        reveal(spec_randint);
        assert((r31 as int) * (span as int) <= 0x7fffffffffffffff) by (nonlinear_arith)
            requires
                0 <= (r31 as int) < 0x80000000,
                0 <= (span as int) <= 0x100000000,
        ;
    }
    let prod: u64 = (r31 as u64) * span;
    let off: u64 = prod / 0x80000000u64;
    proof {
        let p = prod as int;
        vstd::arithmetic::div_mod::lemma_fundamental_div_mod(p, 0x80000000);
        vstd::arithmetic::div_mod::lemma_mod_bound(p, 0x80000000);
        if span > 0 {
            assert(p < (span as int) * 0x80000000) by (nonlinear_arith)
                requires
                    p == (r31 as int) * (span as int),
                    0 <= (r31 as int) < 0x80000000,
                    1 <= (span as int),
            ;
        }
    }
    proof {
        assert(span == 0 ==> prod == 0) by {
            vstd::arithmetic::mul::lemma_mul_basics(r31 as int);
        }
        assert(min + off <= max);
    }
    ((min as i64) + (off as i64)) as i32
}

} // verus!
