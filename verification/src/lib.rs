//! One-dimensional Metropolis-Hastings sampling over a fixed-point domain.
//!
//! All real quantities are carried as integers scaled by `FIXED_ONE` (2^24),
//! the granularity of the generator's uniform draws, so every computation in
//! this crate is exact integer arithmetic.

use vstd::prelude::*;

pub mod functions;
pub mod metropolis;
pub mod pcg32;

verus! {

/// The fixed-point scale: the integer `FIXED_ONE` stands for the real number 1.
/// It equals 2^24, the granularity of the generator's uniform draws.
pub const FIXED_ONE: u64 = 0x100_0000;

/// The fixed-point image of one half.
pub const FIXED_HALF: u64 = 0x80_0000;

} // verus!
