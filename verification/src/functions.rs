//! The target densities the sampler can draw from.
//!
//! Each target couples an unnormalized density over the unit interval with the
//! precomputed integral of that density (its normalization constant), kept as
//! an exact rational.  Positions are fixed-point reals at scale 2^24; density
//! values are fixed-point reals at scale 2^48 (`DENSITY_ONE`), the natural
//! scale of a product of two positions.

use vstd::prelude::*;
use vstd::arithmetic::div_mod::lemma_div_is_ordered;
use crate::FIXED_ONE;
use crate::FIXED_HALF;

verus! {

/// The fixed-point scale of density values: `DENSITY_ONE` stands for the real
/// density value 1.
pub const DENSITY_ONE: u64 = 0x1_0000_0000_0000;

/// The angle pi at scale 2^24, rounded to the nearest integer.
pub const PI_FIXED: u64 = 52707179;

/// The selectable target densities.  `NoTarget` selects no target: its density is
/// identically zero.
#[derive(Clone, Copy, Debug, PartialEq, Eq, Structural)]
pub enum FunctionType {
    ShiftedSquare,
    Sinus,
    NoTarget,
}

/// The fixed-point sine on [0, pi/2], folded from any non-negative angle `u`
/// at scale 2^24 by the period and symmetry of |sin|, and evaluated by the
/// degree-seven Taylor polynomial `z - z^3/6 + z^5/120 - z^7/5040`, clamped
/// into [0, 1].
#[verifier::opaque]
pub open spec fn spec_sin_fixed(u: int) -> int {
    let q = u % (PI_FIXED as int);
    let z = if 2 * q > PI_FIXED { PI_FIXED - q } else { q };
    let z2 = (z * z) / (FIXED_ONE as int);
    let z3 = (z2 * z) / (FIXED_ONE as int);
    let z5 = (z3 * z2) / (FIXED_ONE as int);
    let z7 = (z5 * z2) / (FIXED_ONE as int);
    let pos = z + z5 / 120;
    let neg = z3 / 6 + z7 / 5040;
    if pos > neg {
        if pos - neg > FIXED_ONE {
            FIXED_ONE as int
        } else {
            pos - neg
        }
    } else {
        0
    }
}

/// The density of each target at fixed-point position `x`, at scale 2^48.
///
/// - `ShiftedSquare`: `(x - 1/2)^2` on [0, 1], zero elsewhere.
/// - `Sinus`: `|sin(10 x)|` on [0, 1] (by the fixed-point sine), zero elsewhere.
/// - `NoTarget`: zero everywhere.
pub open spec fn spec_density(ft: FunctionType, x: int) -> int {
    match ft {
        FunctionType::ShiftedSquare => {
            if 0 <= x <= FIXED_ONE {
                (x - FIXED_HALF) * (x - FIXED_HALF)
            } else {
                0
            }
        }
        FunctionType::Sinus => {
            if 0 <= x <= FIXED_ONE {
                spec_sin_fixed(10 * x) * (FIXED_ONE as int)
            } else {
                0
            }
        }
        FunctionType::NoTarget => 0,
    }
}

/// Numerator of the normalization constant of each target.
pub open spec fn spec_norm_num(ft: FunctionType) -> int {
    match ft {
        FunctionType::ShiftedSquare => 12,
        FunctionType::Sinus => 125,
        FunctionType::NoTarget => 1,
    }
}

/// Denominator of the normalization constant of each target.
pub open spec fn spec_norm_den(ft: FunctionType) -> int {
    match ft {
        FunctionType::ShiftedSquare => 1,
        FunctionType::Sinus => 77,
        FunctionType::NoTarget => 1,
    }
}

/// The fixed-point sine, executable form.
fn sin_fixed(u: u64) -> (r: u64)
    requires
        u <= 10 * FIXED_ONE,
    ensures
        r == spec_sin_fixed(u as int),
        r <= FIXED_ONE,
{
    proof {
        reveal(spec_sin_fixed);
    }
    let q: u64 = u % PI_FIXED;
    let z: u64 = if 2 * q > PI_FIXED {
        PI_FIXED - q
    } else {
        q
    };
    proof {
        assert(z * z <= 0x10_0000_0000_0000) by (nonlinear_arith)
            requires z <= 0x400_0000;
    }
    let z2: u64 = (z * z) / FIXED_ONE;
    proof {
        lemma_div_is_ordered((z * z) as int, 0x10_0000_0000_0000, FIXED_ONE as int);
        assert(z2 * z <= 0x40_0000_0000_0000) by (nonlinear_arith)
            requires z2 <= 0x1000_0000 && z <= 0x400_0000;
    }
    let z3: u64 = (z2 * z) / FIXED_ONE;
    proof {
        lemma_div_is_ordered((z2 * z) as int, 0x40_0000_0000_0000, FIXED_ONE as int);
        assert(z3 * z2 <= 0x400_0000_0000_0000) by (nonlinear_arith)
            requires z3 <= 0x4000_0000 && z2 <= 0x1000_0000;
    }
    let z5: u64 = (z3 * z2) / FIXED_ONE;
    proof {
        lemma_div_is_ordered((z3 * z2) as int, 0x400_0000_0000_0000, FIXED_ONE as int);
        assert(z5 * z2 <= 0x4000_0000_0000_0000) by (nonlinear_arith)
            requires z5 <= 0x4_0000_0000 && z2 <= 0x1000_0000;
    }
    let z7: u64 = (z5 * z2) / FIXED_ONE;
    let pos: u64 = z + z5 / 120;
    let neg: u64 = z3 / 6 + z7 / 5040;
    if pos > neg {
        let d = pos - neg;
        if d > FIXED_ONE {
            FIXED_ONE
        } else {
            d
        }
    } else {
        0
    }
}

impl FunctionType {
    /// The density of this target at fixed-point position `x`, at scale 2^48.
    pub fn density(&self, x: i64) -> (r: u64)
        ensures
            r == spec_density(*self, x as int),
            r <= DENSITY_ONE,
    {
        match self {
            FunctionType::ShiftedSquare => {
                if 0 <= x && x <= FIXED_ONE as i64 {
                    let d: i64 = x - FIXED_HALF as i64;
                    proof {
                        assert(d * d <= 0x80_0000 * 0x80_0000 && d * d >= 0) by (nonlinear_arith)
                            requires -0x80_0000 <= d <= 0x80_0000;
                    }
                    (d * d) as u64
                } else {
                    0
                }
            }
            FunctionType::Sinus => {
                if 0 <= x && x <= FIXED_ONE as i64 {
                    let s = sin_fixed((10 * x) as u64);
                    s * FIXED_ONE
                } else {
                    0
                }
            }
            FunctionType::NoTarget => 0,
        }
    }

    /// Numerator of this target's normalization constant: the integral of the
    /// unnormalized density (12 for the shifted square; 1/0.616 = 125/77 for
    /// the sine target).
    pub fn norm_num(&self) -> (r: u64)
        ensures
            r == spec_norm_num(*self),
    {
        match self {
            FunctionType::ShiftedSquare => 12,
            FunctionType::Sinus => 125,
            FunctionType::NoTarget => 1,
        }
    }

    /// Denominator of this target's normalization constant.
    pub fn norm_den(&self) -> (r: u64)
        ensures
            r == spec_norm_den(*self),
    {
        match self {
            FunctionType::ShiftedSquare => 1,
            FunctionType::Sinus => 77,
            FunctionType::NoTarget => 1,
        }
    }
}

} // verus!
