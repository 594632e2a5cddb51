//! A deterministic PCG-XSH-RR 64/32 pseudo-random generator.
//!
//! The generator keeps a 64-bit linear congruential state together with an odd
//! increment (the "stream"), and permutes the state into each 32-bit output
//! word by an xorshift followed by a data-dependent rotation.  Both the
//! seeding expansion and the per-draw step are specified exactly, so the whole
//! output stream is a mathematical function of the 64-bit seed: the same seed
//! yields the same stream on every platform and every run.

use vstd::prelude::*;

verus! {

/// Multiplier of the 64-bit linear congruential step.
pub const PCG_MULTIPLIER: u64 = 6364136223846793005;

/// Increment used by the rounds that expand a 64-bit seed into an
/// initial (state, stream) pair.
pub const PCG_SEED_INCREMENT: u64 = 11634580027462260723;

/// 2^64, the modulus of the congruential state.
pub const U64_MODULUS: u128 = 0x1_0000_0000_0000_0000;

/// A deterministic pseudo-random generator: 64-bit congruential state plus
/// the odd increment that selects the stream.
#[derive(Clone, Copy, Debug, PartialEq, Eq, Structural)]
pub struct Pcg32 {
    pub state: u64,
    pub inc: u64,
}

/// One step of the congruential recurrence `s := s * MULTIPLIER + inc  (mod 2^64)`.
pub open spec fn spec_lcg_step(state: u64, inc: u64) -> u64 {
    (((state as int) * (PCG_MULTIPLIER as int) + (inc as int)) % (U64_MODULUS as int)) as u64
}

/// The XSH-RR output permutation of a 64-bit state word: xorshift the high
/// bits down, keep 32 bits, and rotate them right by the top five state bits.
#[verifier::opaque]
pub open spec fn spec_output(state: u64) -> u32 {
    let rot: u64 = state >> 59;
    let xsh: u64 = (((state >> 18) ^ state) >> 27) & 0xffff_ffff;
    ((((xsh >> rot) | (xsh << ((32 - rot) as u64))) & 0xffff_ffff) as u32)
}

/// Advancing the generator by one draw leaves this state behind.
pub open spec fn spec_advance(r: Pcg32) -> Pcg32 {
    Pcg32 { state: spec_lcg_step(r.state, r.inc), inc: r.inc }
}

/// The 32-bit word produced by the next draw.
pub open spec fn spec_gen(r: Pcg32) -> u32 {
    spec_output(r.state)
}

/// The fixed-point uniform draw in [0, 1): the top 24 bits of the next word,
/// read at scale 2^24.
pub open spec fn spec_uniform(r: Pcg32) -> u32 {
    spec_gen(r) >> 8
}

/// One round of the seed expander: advance a bare counter state first, then
/// permute it into an output word.
pub open spec fn spec_seed_round(state: u64) -> (u64, u32) {
    let s2 = spec_lcg_step(state, PCG_SEED_INCREMENT);
    (s2, spec_output(s2))
}

/// The generator produced from a 64-bit seed: four expander rounds yield four
/// words; the first two become the seed state, the last two the stream; the
/// increment is forced odd and the state is advanced twice away from the seed.
pub open spec fn spec_seeded(seed: u64) -> Pcg32 {
    let r1 = spec_seed_round(seed);
    let r2 = spec_seed_round(r1.0);
    let r3 = spec_seed_round(r2.0);
    let r4 = spec_seed_round(r3.0);
    let state_seed: u64 = (r1.1 as u64) | ((r2.1 as u64) << 32);
    let stream: u64 = (r3.1 as u64) | ((r4.1 as u64) << 32);
    let inc: u64 = stream | 1;
    let entered: u64 = (((state_seed as int) + (inc as int)) % (U64_MODULUS as int)) as u64;
    Pcg32 { state: spec_lcg_step(entered, inc), inc }
}

impl Pcg32 {
    /// Creates a generator seeded with 0.
    pub fn new() -> (r: Pcg32)
        ensures
            r == spec_seeded(0),
    {
        Pcg32::from(0)
    }

    /// Creates a generator from a specific 64-bit seed.
    pub fn from(seed: u64) -> (r: Pcg32)
        ensures
            r == spec_seeded(seed),
    {
        let r1 = seed_round(seed);
        let r2 = seed_round(r1.0);
        let r3 = seed_round(r2.0);
        let r4 = seed_round(r3.0);
        let state_seed: u64 = (r1.1 as u64) | ((r2.1 as u64) << 32);
        let stream: u64 = (r3.1 as u64) | ((r4.1 as u64) << 32);
        let inc: u64 = stream | 1;
        let entered: u64 = ((state_seed as u128 + inc as u128) % U64_MODULUS) as u64;
        Pcg32 { state: lcg_step(entered, inc), inc }
    }

    /// Returns the next 32-bit word of the stream and advances the state.
    pub fn gen(&mut self) -> (r: u32)
        ensures
            r == spec_gen(*old(self)),
            *final(self) == spec_advance(*old(self)),
    {
        let r = output(self.state);
        self.state = lcg_step(self.state, self.inc);
        r
    }

    /// Returns the next uniform fixed-point draw: a value in [0, 2^24),
    /// standing for a real in [0, 1) at scale 2^24.
    pub fn next_uniform(&mut self) -> (r: u32)
        ensures
            r == spec_uniform(*old(self)),
            r < crate::FIXED_ONE,
            *final(self) == spec_advance(*old(self)),
    {
        let g = self.gen();
        let r = g >> 8;
        proof {
            assert(g >> 8 < 0x100_0000u32) by (bit_vector);
        }
        r
    }
}

impl Default for Pcg32 {
    /// The default generator is the one seeded with 0.
    fn default() -> (r: Pcg32)
        ensures
            r == spec_seeded(0),
    {
        Pcg32::new()
    }
}

/// One congruential step, computed exactly in 128-bit arithmetic.
fn lcg_step(state: u64, inc: u64) -> (r: u64)
    ensures
        r == spec_lcg_step(state, inc),
{
    proof {
        assert((state as int) * (PCG_MULTIPLIER as int)
            <= 0xffff_ffff_ffff_ffff * (PCG_MULTIPLIER as int)) by (nonlinear_arith)
            requires state <= 0xffff_ffff_ffff_ffff;
    }
    let wide: u128 = (state as u128) * (PCG_MULTIPLIER as u128) + (inc as u128);
    (wide % U64_MODULUS) as u64
}

/// The XSH-RR output permutation.
fn output(state: u64) -> (r: u32)
    ensures
        r == spec_output(state),
{
    proof {
        reveal(spec_output);
    }
    let rot: u64 = state >> 59;
    proof {
        assert(state >> 59 < 32) by (bit_vector);
    }
    let xsh: u64 = (((state >> 18) ^ state) >> 27) & 0xffff_ffff;
    let rotated: u64 = ((xsh >> rot) | (xsh << (32 - rot))) & 0xffff_ffff;
    proof {
        assert(((((((state >> 18) ^ state) >> 27) & 0xffff_ffff) >> rot)
            | ((((state >> 18) ^ state) >> 27) & 0xffff_ffff) << ((32 - rot) as u64))
            & 0xffff_ffff < 0x1_0000_0000) by (bit_vector)
            requires rot < 32;
    }
    rotated as u32
}

/// One seed-expander round: advance, then output.
fn seed_round(state: u64) -> (r: (u64, u32))
    ensures
        r == spec_seed_round(state),
{
    let s2 = lcg_step(state, PCG_SEED_INCREMENT);
    (s2, output(s2))
}

} // verus!
