//! The Metropolis-Hastings sampler.
//!
//! The chain state is a fixed-point position at scale 2^24.  Each iteration
//! proposes a mutation (a local step or an independent redraw), computes the
//! fixed-point acceptance probability from the target's density ratio, and
//! either accepts or keeps the current position according to a fresh uniform
//! draw.  The whole run is specified as a pure function of the configuration,
//! so a sequence produced from the same parameters is always the same.

use vstd::prelude::*;
use vstd::arithmetic::div_mod::lemma_multiply_divide_lt;
use vstd::arithmetic::mul::lemma_mul_strict_inequality;
use crate::FIXED_ONE;
use crate::FIXED_HALF;
use crate::functions::DENSITY_ONE;
use crate::functions::FunctionType;
use crate::functions::spec_density;
use crate::functions::spec_norm_den;
use crate::functions::spec_norm_num;
use crate::pcg32::Pcg32;
use crate::pcg32::spec_advance;
use crate::pcg32::spec_seeded;
use crate::pcg32::spec_uniform;

verus! {

/// The farthest a small mutation can move, in fixed-point units: 0.05.
pub const SMALL_STEP_MAX: u64 = 0x100_0000 / 20;

/// One recorded sample: a fixed-point position (scale 2^24) and a fixed-point
/// weight in [0, 1] (scale 2^24).
#[derive(Clone, Copy, Debug, PartialEq, Eq, Structural)]
pub struct Sample {
    pub value: i64,
    pub weight: u64,
}

/// The mathematical reading of a recorded sequence: each sample as a pair
/// (position, weight) of unbounded integers.
pub open spec fn spec_model(s: Seq<Sample>) -> Seq<(int, int)> {
    s.map_values(|smp: Sample| (smp.value as int, smp.weight as int))
}

/// The signed distance a small mutation moves for the uniform draw `k`:
/// the fixed-point image of `(k - 1/2) / 10`, rounded toward zero.
pub open spec fn spec_small_step(k: u32) -> int {
    if k >= FIXED_HALF {
        (k - FIXED_HALF) / 10
    } else {
        -((FIXED_HALF - k) / 10)
    }
}

/// The proposal drawn from a position: two uniform draws decide the kind of
/// mutation and its destination.  With probability `small_mutate_prob` (fixed
/// point, scale 2^24) the proposal is a local step of at most 0.05 away;
/// otherwise it is an independent uniform position in [0, 1).
pub open spec fn spec_mutate(x: int, rng: Pcg32, small_mutate_prob: u32) -> (int, Pcg32) {
    let k1 = spec_uniform(rng);
    let r1 = spec_advance(rng);
    let k2 = spec_uniform(r1);
    let r2 = spec_advance(r1);
    if k1 < small_mutate_prob {
        (x + spec_small_step(k2), r2)
    } else {
        (k2 as int, r2)
    }
}

/// The fixed-point acceptance probability `min(1, f_new / f_cur)`, taken as 1
/// when the current density is zero (the degenerate case of a chain standing
/// where the target vanishes).
pub open spec fn spec_accept_fixed(f_new: int, f_cur: int) -> int {
    if f_cur == 0 || f_new >= f_cur {
        FIXED_ONE as int
    } else {
        (f_new * (FIXED_ONE as int)) / f_cur
    }
}

/// The acceptance probability lies in [0, 1].
pub proof fn lemma_accept_fixed_bounds(f_new: int, f_cur: int)
    requires
        0 <= f_new,
        0 <= f_cur,
    ensures
        0 <= spec_accept_fixed(f_new, f_cur) <= FIXED_ONE,
{
    if f_cur != 0 && f_new < f_cur {
        lemma_mul_strict_inequality(f_new, f_cur, FIXED_ONE as int);
        lemma_multiply_divide_lt(f_new * (FIXED_ONE as int), f_cur, FIXED_ONE as int);
        vstd::arithmetic::div_mod::lemma_div_pos_is_pos(f_new * (FIXED_ONE as int), f_cur);
        assert(f_new * (FIXED_ONE as int) >= 0) by (nonlinear_arith)
            requires f_new >= 0;
    }
}

/// A small mutation: `x + (u - 1/2) / 10` for a fresh uniform draw `u`.
pub fn mutate_small(prev_sample: i64, pcg_rand: &mut Pcg32) -> (r: i64)
    requires
        -0x4000_0000_0000_0000 <= prev_sample <= 0x4000_0000_0000_0000,
    ensures
        r == prev_sample + spec_small_step(spec_uniform(*old(pcg_rand))),
        prev_sample - SMALL_STEP_MAX <= r <= prev_sample + SMALL_STEP_MAX,
        *final(pcg_rand) == spec_advance(*old(pcg_rand)),
{
    let k = pcg_rand.next_uniform();
    let step_up: bool = k as u64 >= FIXED_HALF;
    if step_up {
        let mag: u64 = (k as u64 - FIXED_HALF) / 10;
        prev_sample + mag as i64
    } else {
        let mag: u64 = (FIXED_HALF - k as u64) / 10;
        prev_sample - mag as i64
    }
}

/// A large mutation: an independent uniform redraw in [0, 1).
pub fn mutate_large(_prev_sample: i64, pcg_rand: &mut Pcg32) -> (r: i64)
    ensures
        r == spec_uniform(*old(pcg_rand)),
        0 <= r < FIXED_ONE,
        *final(pcg_rand) == spec_advance(*old(pcg_rand)),
{
    pcg_rand.next_uniform() as i64
}

/// Draws a proposal: a small mutation with probability `small_mutate_prob`
/// (fixed point in [0, 1]), otherwise a large one.
pub fn mutate(prev_sample: i64, pcg_rand: &mut Pcg32, small_mutate_prob: u32) -> (r: i64)
    requires
        -0x4000_0000_0000_0000 <= prev_sample <= 0x4000_0000_0000_0000,
    ensures
        r == spec_mutate(prev_sample as int, *old(pcg_rand), small_mutate_prob).0,
        *final(pcg_rand) == spec_mutate(prev_sample as int, *old(pcg_rand), small_mutate_prob).1,
        prev_sample - SMALL_STEP_MAX <= r <= prev_sample + SMALL_STEP_MAX || 0 <= r < FIXED_ONE,
        small_mutate_prob == 0 ==> 0 <= r < FIXED_ONE,
        small_mutate_prob >= FIXED_ONE ==>
            prev_sample - SMALL_STEP_MAX <= r <= prev_sample + SMALL_STEP_MAX,
{
    let k1 = pcg_rand.next_uniform();
    if k1 < small_mutate_prob {
        mutate_small(prev_sample, pcg_rand)
    } else {
        mutate_large(prev_sample, pcg_rand)
    }
}

/// The clamped small-mutation probability: values above 1 are silently pulled
/// down to 1 (fixed point, scale 2^24).
pub open spec fn spec_clamp_prob(p: u32) -> u32 {
    if p > FIXED_ONE {
        FIXED_ONE as u32
    } else {
        p
    }
}

/// One chain iteration from position `x`: propose a mutation, weigh it by the
/// acceptance probability, record according to the mode when `record` is set,
/// and accept or keep the position by a fresh uniform draw.
///
/// In expected-value mode both the current and the proposed position are
/// recorded, weighted by the complement of the acceptance probability and by
/// the probability itself; otherwise the position that survives the draw is
/// recorded with weight one.
pub open spec fn spec_step(
    ft: FunctionType,
    p: u32,
    evt: bool,
    record: bool,
    x: int,
    rng: Pcg32,
    seq: Seq<(int, int)>,
) -> (int, Pcg32, Seq<(int, int)>) {
    let m = spec_mutate(x, rng, p);
    let x_prime = m.0;
    let r2 = m.1;
    let a = spec_accept_fixed(spec_density(ft, x_prime), spec_density(ft, x));
    let seq1 = if record && evt {
        seq.push((x, FIXED_ONE - a)).push((x_prime, a))
    } else {
        seq
    };
    let k = spec_uniform(r2);
    let r3 = spec_advance(r2);
    let x2 = if k < a {
        x_prime
    } else {
        x
    };
    let seq2 = if record && !evt {
        seq1.push((x2, FIXED_ONE as int))
    } else {
        seq1
    };
    (x2, r3, seq2)
}

/// The chain after `steps` iterations: current position, generator state, and
/// the recorded sequence.  The initial position is a uniform draw, recorded
/// unconditionally with weight one; an iteration records only once the
/// burn-in iterations are past.
pub open spec fn spec_chain(
    seed: u64,
    ft: FunctionType,
    p: u32,
    burn_in: nat,
    evt: bool,
    steps: nat,
) -> (int, Pcg32, Seq<(int, int)>)
    decreases steps,
{
    if steps == 0 {
        let rng0 = spec_seeded(seed);
        let x0 = spec_uniform(rng0) as int;
        (x0, spec_advance(rng0), seq![(x0, FIXED_ONE as int)])
    } else {
        let prev = spec_chain(seed, ft, p, burn_in, evt, (steps - 1) as nat);
        spec_step(ft, p, evt, steps - 1 >= burn_in, prev.0, prev.1, prev.2)
    }
}

/// The density of every target is non-negative.
pub proof fn lemma_density_nonneg(ft: FunctionType, x: int)
    ensures
        0 <= spec_density(ft, x),
{
    match ft {
        FunctionType::ShiftedSquare => {
            if 0 <= x <= FIXED_ONE {
                assert((x - FIXED_HALF) * (x - FIXED_HALF) >= 0) by (nonlinear_arith);
            }
        }
        FunctionType::Sinus => {
            if 0 <= x <= FIXED_ONE {
                reveal(crate::functions::spec_sin_fixed);
                assert(crate::functions::spec_sin_fixed(10 * x) * (FIXED_ONE as int) >= 0)
                    by (nonlinear_arith)
                    requires crate::functions::spec_sin_fixed(10 * x) >= 0;
            }
        }
        FunctionType::NoTarget => {}
    }
}

/// Reading a sequence with one more sample appends one more pair.
proof fn lemma_model_push(s: Seq<Sample>, smp: Sample)
    ensures
        spec_model(s.push(smp)) == spec_model(s).push((smp.value as int, smp.weight as int)),
{
    assert(spec_model(s.push(smp)) =~= spec_model(s).push((smp.value as int, smp.weight as int)));
}

/// The length law: the recorded sequence holds the initial sample plus one
/// entry per post-burn-in iteration, or two in expected-value mode,
/// independently of how many burn-in iterations have run.
pub proof fn lemma_chain_len(seed: u64, ft: FunctionType, p: u32, burn_in: nat, evt: bool, steps: nat)
    ensures
        spec_chain(seed, ft, p, burn_in, evt, steps).2.len() == 1 + (if steps > burn_in {
            (if evt { 2int } else { 1int }) * (steps - burn_in)
        } else {
            0int
        }),
    decreases steps,
{
    if steps > 0 {
        lemma_chain_len(seed, ft, p, burn_in, evt, (steps - 1) as nat);
    }
}

/// The weight laws: every recorded weight lies in [0, 1]; outside
/// expected-value mode every weight is exactly 1; and the first entry is
/// always the initial uniform draw with weight 1, in either mode.
pub proof fn lemma_chain_weights(seed: u64, ft: FunctionType, p: u32, burn_in: nat, evt: bool, steps: nat)
    ensures
        ({
            let s = spec_chain(seed, ft, p, burn_in, evt, steps).2;
            &&& s.len() >= 1
            &&& s[0] == (spec_uniform(spec_seeded(seed)) as int, FIXED_ONE as int)
            &&& forall|i: int| 0 <= i < s.len() ==> 0 <= (#[trigger] s[i]).1 <= FIXED_ONE
            &&& !evt ==> forall|i: int| 0 <= i < s.len() ==> (#[trigger] s[i]).1 == FIXED_ONE
        }),
    decreases steps,
{
    if steps > 0 {
        lemma_chain_weights(seed, ft, p, burn_in, evt, (steps - 1) as nat);
        let prev = spec_chain(seed, ft, p, burn_in, evt, (steps - 1) as nat);
        let m = spec_mutate(prev.0, prev.1, p);
        lemma_density_nonneg(ft, m.0);
        lemma_density_nonneg(ft, prev.0);
        lemma_accept_fixed_bounds(spec_density(ft, m.0), spec_density(ft, prev.0));
    }
}

/// One executable chain iteration, exactly the specified step.
fn chain_step(
    target: FunctionType,
    p: u32,
    evt: bool,
    record: bool,
    x: i64,
    pcg_rand: &mut Pcg32,
    sample_sequence: &mut Vec<Sample>,
) -> (r: i64)
    requires
        p <= FIXED_ONE,
        -0x4000_0000_0000_0000 <= x <= 0x4000_0000_0000_0000,
    ensures
        ({
            let st = spec_step(
                target,
                p,
                evt,
                record,
                x as int,
                *old(pcg_rand),
                spec_model(old(sample_sequence)@),
            );
            &&& r == st.0
            &&& *final(pcg_rand) == st.1
            &&& spec_model(final(sample_sequence)@) == st.2
        }),
        x - SMALL_STEP_MAX <= r <= x + SMALL_STEP_MAX || 0 <= r < FIXED_ONE,
{
    let x_prime = mutate(x, pcg_rand, p);
    let f_new = target.density(x_prime);
    let f_cur = target.density(x);
    let acceptance = accept_fixed(f_new, f_cur);
    if evt && record {
        let s1 = Sample { value: x, weight: FIXED_ONE - acceptance };
        let s2 = Sample { value: x_prime, weight: acceptance };
        proof {
            lemma_model_push(sample_sequence@, s1);
            lemma_model_push(sample_sequence@.push(s1), s2);
        }
        sample_sequence.push(s1);
        sample_sequence.push(s2);
    }
    let k = pcg_rand.next_uniform();
    let r = if (k as u64) < acceptance {
        x_prime
    } else {
        x
    };
    if !evt && record {
        let s3 = Sample { value: r, weight: FIXED_ONE };
        proof {
            lemma_model_push(sample_sequence@, s3);
        }
        sample_sequence.push(s3);
    }
    r
}

/// A finished sampling run: the recorded sample sequence and the target's
/// normalization constant, kept as an exact rational.
pub struct Metropolis {
    pub sample_sequence: Vec<Sample>,
    pub f_norm_num: u64,
    pub f_norm_den: u64,
}

impl Metropolis {
    /// What every finished run satisfies: at least the initial sample, a
    /// bounded length, weights in [0, 1] with the initial weight 1, and a
    /// positive rational normalization constant with small parts.
    pub open spec fn wf(&self) -> bool {
        &&& 1 <= self.sample_sequence@.len() <= 0x2_0000_0000
        &&& (forall|i: int|
            0 <= i < self.sample_sequence@.len() ==> (#[trigger] self.sample_sequence@[i]).weight
                <= FIXED_ONE)
        &&& self.sample_sequence@[0].weight == FIXED_ONE
        &&& 1 <= self.f_norm_num <= 1000
        &&& 1 <= self.f_norm_den <= 1000
    }

    /// Runs the whole chain for `burn_in_samples + metropolis_samples`
    /// iterations from the given seed and returns the finished run.
    ///
    /// The recorded sequence is exactly the specified chain: the same
    /// configuration always yields the same sequence.  Its length obeys the
    /// length law, every weight lies in [0, 1], and outside expected-value
    /// mode every weight is exactly 1.  `small_mutate_prob` is a fixed-point
    /// probability; values above 1 are silently clamped.
    pub fn gen_sample_sequence(
        seed: u64,
        target: FunctionType,
        metropolis_samples: usize,
        burn_in_samples: usize,
        small_mutate_prob: u32,
        expected_value_technique: bool,
    ) -> (m: Metropolis)
        requires
            burn_in_samples + metropolis_samples < 0x1_0000_0000,
        ensures
            m.wf(),
            spec_model(m.sample_sequence@) == spec_chain(
                seed,
                target,
                spec_clamp_prob(small_mutate_prob),
                burn_in_samples as nat,
                expected_value_technique,
                (burn_in_samples + metropolis_samples) as nat,
            ).2,
            m.sample_sequence@.len() == 1 + (if expected_value_technique {
                2 * metropolis_samples
            } else {
                metropolis_samples as int
            }),
            m.sample_sequence@[0].value == spec_uniform(spec_seeded(seed)),
            m.sample_sequence@[0].weight == FIXED_ONE,
            !expected_value_technique ==> (forall|i: int|
                0 <= i < m.sample_sequence@.len() ==> (#[trigger] m.sample_sequence@[i]).weight
                    == FIXED_ONE),
            m.f_norm_num == spec_norm_num(target),
            m.f_norm_den == spec_norm_den(target),
    {
        let p: u32 = if small_mutate_prob > FIXED_ONE as u32 {
            FIXED_ONE as u32
        } else {
            small_mutate_prob
        };
        let ghost burn: nat = burn_in_samples as nat;
        let ghost evt: bool = expected_value_technique;

        let mut pcg_rand = Pcg32::from(seed);
        let x0 = pcg_rand.next_uniform();
        let mut x: i64 = x0 as i64;
        let mut sample_sequence: Vec<Sample> = Vec::new();
        sample_sequence.push(Sample { value: x, weight: FIXED_ONE });
        proof {
            assert(spec_model(sample_sequence@) =~= spec_chain(seed, target, p, burn, evt, 0).2);
        }

        let total: usize = burn_in_samples + metropolis_samples;
        let mut i: usize = 0;
        while i < total
            invariant
                total == burn_in_samples + metropolis_samples,
                total < 0x1_0000_0000,
                i <= total,
                p == spec_clamp_prob(small_mutate_prob),
                p <= FIXED_ONE,
                burn == burn_in_samples as nat,
                evt == expected_value_technique,
                -838860 * i <= x <= 0x100_0000 + 838860 * i,
                x as int == spec_chain(seed, target, p, burn, evt, i as nat).0,
                pcg_rand == spec_chain(seed, target, p, burn, evt, i as nat).1,
                spec_model(sample_sequence@) == spec_chain(seed, target, p, burn, evt, i as nat).2,
            decreases total - i,
        {
            let ghost pre = spec_chain(seed, target, p, burn, evt, i as nat);
            x = chain_step(
                target,
                p,
                expected_value_technique,
                i >= burn_in_samples,
                x,
                &mut pcg_rand,
                &mut sample_sequence,
            );
            i = i + 1;
            proof {
                assert(spec_chain(seed, target, p, burn, evt, i as nat) == spec_step(
                    target, p, evt, (i - 1) as nat >= burn, pre.0, pre.1, pre.2,
                ));
            }
        }

        proof {
            lemma_chain_len(seed, target, p, burn, evt, total as nat);
            lemma_chain_weights(seed, target, p, burn, evt, total as nat);
            assert forall|j: int| 0 <= j < sample_sequence@.len() implies
                (#[trigger] sample_sequence@[j]).weight
                    == spec_chain(seed, target, p, burn, evt, total as nat).2[j].1 by {
                assert(spec_model(sample_sequence@)[j]
                    == (sample_sequence@[j].value as int, sample_sequence@[j].weight as int));
            }
        }
        let f_norm_num = target.norm_num();
        let f_norm_den = target.norm_den();
        Metropolis { sample_sequence, f_norm_num, f_norm_den }
    }

    /// Returns the distribution of the recorded samples over `num_bins` equal
    /// bins covering [0, 1), rescaled to be directly comparable to the
    /// normalized target density (fixed point, scale 2^24).
    ///
    /// Each sample adds its weight to the bin its position falls into
    /// (positions outside [0, 1) are clamped into the edge bins); each bin is
    /// then divided by the average bin weight times the normalization
    /// constant.  The mass is thereby normalized exactly, up to one rounding
    /// unit per bin: the bins' sum times the constant's numerator equals
    /// `num_bins * den * 2^24` within `num_bins` units.
    pub fn sample_distribution(&self, num_bins: usize) -> (r: Vec<u64>)
        requires
            self.wf(),
            1 <= num_bins <= 0x100_0000,
        ensures
            r@.len() == num_bins,
            ({
                let model = spec_model(self.sample_sequence@);
                let total = spec_weight_sum(model);
                let bins = spec_bins(model, num_bins as int);
                let den = self.f_norm_den as int;
                let num = self.f_norm_num as int;
                &&& (forall|j: int|
                    0 <= j < num_bins ==> r@[j] == spec_rescaled(
                        bins[j],
                        num_bins as int,
                        den,
                        num,
                        total,
                    ))
                &&& spec_sum(spec_u64s(r@)) * num <= (num_bins as int) * den * (FIXED_ONE as int)
                &&& (num_bins as int) * den * (FIXED_ONE as int) < (spec_sum(spec_u64s(r@))
                    + num_bins) * num
            }),
    {
        let ghost model = spec_model(self.sample_sequence@);
        proof {
            assert forall|j: int| 0 <= j < model.len() implies 0 <= (#[trigger] model[j]).1
                <= 0x100_0000 by {
                assert(model[j] == (self.sample_sequence@[j].value as int,
                self.sample_sequence@[j].weight as int));
            }
        }
        let n = self.sample_sequence.len();

        let mut bins: Vec<u64> = Vec::new();
        let mut bi: usize = 0;
        while bi < num_bins
            invariant
                bi <= num_bins,
                bins@.len() == bi,
                forall|j: int| 0 <= j < bi ==> bins@[j] == 0,
            decreases num_bins - bi,
        {
            bins.push(0);
            bi = bi + 1;
        }
        proof {
            assert(model.take(0) =~= Seq::<(int, int)>::empty());
            assert(spec_u64s(bins@) =~= spec_bins(model.take(0), num_bins as int));
        }

        let mut total: u64 = 0;
        let mut si: usize = 0;
        while si < n
            invariant
                si <= n,
                n == self.sample_sequence@.len(),
                n <= 0x2_0000_0000,
                model == spec_model(self.sample_sequence@),
                model.len() == n,
                forall|j: int| 0 <= j < model.len() ==> 0 <= (#[trigger] model[j]).1 <= 0x100_0000,
                1 <= num_bins <= 0x100_0000,
                bins@.len() == num_bins,
                spec_u64s(bins@) == spec_bins(model.take(si as int), num_bins as int),
                total == spec_weight_sum(model.take(si as int)),
                total <= si * 0x100_0000,
            decreases n - si,
        {
            let s = self.sample_sequence[si];
            let idx = bin_index(s.value, num_bins);
            let ghost pre_bins = spec_u64s(bins@);
            let ghost pre_take = model.take(si as int);
            proof {
                assert(model[si as int] == (s.value as int, s.weight as int));
                lemma_elem_le_sum(pre_bins, idx as int);
                lemma_bins_shape(pre_take, num_bins as int);
            }
            let cur = bins[idx];
            bins[idx] = cur + s.weight;
            total = total + s.weight;
            si = si + 1;
            proof {
                let take_new = model.take(si as int);
                assert(take_new.drop_last() =~= pre_take);
                assert(take_new.last() == model[si - 1]);
                assert(spec_u64s(bins@) =~= pre_bins.update(
                    idx as int,
                    pre_bins[idx as int] + s.weight,
                ));
            }
        }
        proof {
            assert(model.take(n as int) =~= model);
            lemma_bins_shape(model, num_bins as int);
            lemma_first_le_weight_sum(model);
            assert(model[0] == (self.sample_sequence@[0].value as int,
            self.sample_sequence@[0].weight as int));
        }

        let den = self.f_norm_den;
        let num = self.f_norm_num;
        let ghost m: int = (num_bins as int) * (den as int) * (FIXED_ONE as int);
        let ghost d: int = (total as int) * (num as int);
        proof {
            assert(m >= 1) by (nonlinear_arith)
                requires
                    m == (num_bins as int) * (den as int) * (FIXED_ONE as int) && num_bins >= 1
                        && den >= 1;
        }
        let mut out: Vec<u64> = Vec::new();
        let mut oi: usize = 0;
        while oi < num_bins
            invariant
                oi <= num_bins,
                out@.len() == oi,
                den == self.f_norm_den,
                num == self.f_norm_num,
                1 <= den <= 1000,
                1 <= num <= 1000,
                1 <= total <= 0x200_0000_0000_0000,
                1 <= num_bins <= 0x100_0000,
                bins@.len() == num_bins,
                spec_u64s(bins@) == spec_bins(model, num_bins as int),
                spec_sum(spec_u64s(bins@)) == total,
                model == spec_model(self.sample_sequence@),
                m == (num_bins as int) * (den as int) * (FIXED_ONE as int),
                d == (total as int) * (num as int),
                forall|j: int|
                    0 <= j < oi ==> out@[j] == spec_rescaled(
                        spec_u64s(bins@)[j],
                        num_bins as int,
                        den as int,
                        num as int,
                        total as int,
                    ),
                spec_sum(spec_u64s(out@)) * d <= spec_sum(spec_u64s(bins@).take(oi as int)) * m,
                spec_sum(spec_u64s(bins@).take(oi as int)) * m <= (spec_sum(spec_u64s(out@)) + oi)
                    * d - oi,
            decreases num_bins - oi,
        {
            let w = bins[oi];
            proof {
                lemma_elem_le_sum(spec_u64s(bins@), oi as int);
            }
            let q = rescale_bin(w, num_bins, den, num, total);
            let ghost pre_out = spec_u64s(out@);
            let ghost pre_out_sum = spec_sum(pre_out);
            let ghost pre_take_sum = spec_sum(spec_u64s(bins@).take(oi as int));
            out.push(q);
            oi = oi + 1;
            proof {
                assert(spec_u64s(out@) =~= pre_out.push(q as int));
                lemma_sum_push(pre_out, q as int);
                assert(spec_u64s(bins@).take(oi as int) =~= spec_u64s(bins@).take(
                    oi - 1,
                ).push(w as int));
                lemma_sum_push(spec_u64s(bins@).take(oi - 1), w as int);
                assert((pre_out_sum + q) * d == pre_out_sum * d + (q as int) * d)
                    by (nonlinear_arith);
                assert((pre_take_sum + w) * m == pre_take_sum * m + (w as int) * m)
                    by (nonlinear_arith);
                assert((pre_out_sum + q + oi) * d == (pre_out_sum + (oi - 1)) * d + ((q as int) + 1)
                    * d) by (nonlinear_arith);
            }
        }
        proof {
            assert(spec_u64s(bins@).take(num_bins as int) =~= spec_u64s(bins@));
            let s_out = spec_sum(spec_u64s(out@));
            lemma_sum_nonneg(spec_u64s(out@));
            assert(s_out * (num as int) <= m) by (nonlinear_arith)
                requires
                    s_out * d <= (total as int) * m && d == (total as int) * (num as int) && total
                        >= 1 && s_out >= 0 && m >= 0;
            assert(m < (s_out + num_bins) * (num as int)) by (nonlinear_arith)
                requires
                    (total as int) * m <= (s_out + num_bins) * d - num_bins && d == (total as int)
                        * (num as int) && total >= 1 && num_bins >= 1 && num >= 1 && s_out >= 0
                        && m >= 0;
            assert(m == (num_bins as int) * (self.f_norm_den as int) * (FIXED_ONE as int));
        }
        out
    }
}

/// Determinism: the recorded sequence is a function of the configuration
/// alone, so two runs over the same configuration record the same sequence.
pub proof fn lemma_determinism(
    a: Metropolis,
    b: Metropolis,
    seed: u64,
    ft: FunctionType,
    p: u32,
    burn_in: nat,
    evt: bool,
    steps: nat,
)
    requires
        spec_model(a.sample_sequence@) == spec_chain(seed, ft, p, burn_in, evt, steps).2,
        spec_model(b.sample_sequence@) == spec_chain(seed, ft, p, burn_in, evt, steps).2,
    ensures
        a.sample_sequence@ == b.sample_sequence@,
{
    lemma_model_injective(a.sample_sequence@, b.sample_sequence@);
}

/// Two sample sequences that read as the same pairs are the same.
proof fn lemma_model_injective(sa: Seq<Sample>, sb: Seq<Sample>)
    requires
        spec_model(sa) == spec_model(sb),
    ensures
        sa == sb,
{
    assert(spec_model(sa).len() == sa.len() && spec_model(sb).len() == sb.len());
    assert forall|j: int| 0 <= j < sa.len() implies sa[j] == sb[j] by {
        assert(spec_model(sa)[j] == (sa[j].value as int, sa[j].weight as int));
        assert(spec_model(sb)[j] == (sb[j].value as int, sb[j].weight as int));
    }
    assert(sa =~= sb);
}

/// The mutation mixture at its extremes: with probability 0 every proposal is
/// an independent uniform draw in [0, 1); with probability 1 every proposal
/// is a local step of at most 0.05 away from the current position.
pub proof fn lemma_mutate_extremes(x: int, rng: Pcg32, p: u32)
    ensures
        p == 0 ==> spec_mutate(x, rng, p).0 == spec_uniform(spec_advance(rng))
            && 0 <= spec_mutate(x, rng, p).0 < FIXED_ONE,
        p >= FIXED_ONE ==> x - SMALL_STEP_MAX <= spec_mutate(x, rng, p).0 <= x + SMALL_STEP_MAX,
{
    let g2 = crate::pcg32::spec_gen(spec_advance(rng));
    let k2 = spec_uniform(spec_advance(rng));
    assert(k2 == g2 >> 8);
    assert(g2 >> 8 < 0x100_0000u32) by (bit_vector);
    if p >= FIXED_ONE {
        let g1 = crate::pcg32::spec_gen(rng);
        let k1 = spec_uniform(rng);
        assert(k1 == g1 >> 8);
        assert(g1 >> 8 < 0x100_0000u32) by (bit_vector);
        if k2 >= FIXED_HALF {
            vstd::arithmetic::div_mod::lemma_div_is_ordered(
                (k2 - FIXED_HALF) as int,
                0x7f_ffff,
                10,
            );
            vstd::arithmetic::div_mod::lemma_div_pos_is_pos((k2 - FIXED_HALF) as int, 10);
        } else {
            vstd::arithmetic::div_mod::lemma_div_is_ordered(
                (FIXED_HALF - k2) as int,
                0x80_0000,
                10,
            );
            vstd::arithmetic::div_mod::lemma_div_pos_is_pos((FIXED_HALF - k2) as int, 10);
        }
        assert(-(SMALL_STEP_MAX as int) <= spec_small_step(k2) <= SMALL_STEP_MAX as int);
    }
}

/// Toggling the expected-value recording mode changes the recorded sequence's
/// length as the length law says, but leaves the initial sample - the seed's
/// first uniform draw with weight one - the same in both modes.
pub proof fn lemma_mode_toggle(seed: u64, ft: FunctionType, p: u32, burn_in: nat, steps: nat)
    ensures
        spec_chain(seed, ft, p, burn_in, false, steps).2[0] == spec_chain(
            seed,
            ft,
            p,
            burn_in,
            true,
            steps,
        ).2[0],
        spec_chain(seed, ft, p, burn_in, false, steps).2[0] == (
            spec_uniform(spec_seeded(seed)) as int,
            FIXED_ONE as int,
        ),
        steps > burn_in ==> spec_chain(seed, ft, p, burn_in, true, steps).2.len() == spec_chain(
            seed,
            ft,
            p,
            burn_in,
            false,
            steps,
        ).2.len() + (steps - burn_in),
{
    lemma_chain_weights(seed, ft, p, burn_in, false, steps);
    lemma_chain_weights(seed, ft, p, burn_in, true, steps);
    lemma_chain_len(seed, ft, p, burn_in, false, steps);
    lemma_chain_len(seed, ft, p, burn_in, true, steps);
}

/// The reading of a sequence of bin contents as unbounded integers.
pub open spec fn spec_u64s(s: Seq<u64>) -> Seq<int> {
    s.map_values(|v: u64| v as int)
}

/// The sum of a sequence of integers.
pub open spec fn spec_sum(s: Seq<int>) -> int
    decreases s.len(),
{
    if s.len() == 0 {
        0
    } else {
        spec_sum(s.drop_last()) + s.last()
    }
}

/// The sum of the weights of a read sample sequence.
pub open spec fn spec_weight_sum(s: Seq<(int, int)>) -> int
    decreases s.len(),
{
    if s.len() == 0 {
        0
    } else {
        spec_weight_sum(s.drop_last()) + s.last().1
    }
}

/// The bin a fixed-point position falls into, among `num_bins` equal bins
/// covering [0, 1): positions below 0 land in bin 0, positions at or above 1
/// in the last bin.
pub open spec fn spec_bin_index(v: int, num_bins: int) -> int {
    if v <= 0 {
        0
    } else {
        let b = (v * num_bins) / (FIXED_ONE as int);
        if b >= num_bins {
            num_bins - 1
        } else {
            b
        }
    }
}

/// The bins accumulated from a read sample sequence: each sample adds its
/// weight to the bin its position falls into.
pub open spec fn spec_bins(s: Seq<(int, int)>, num_bins: int) -> Seq<int>
    decreases s.len(),
{
    if s.len() == 0 {
        Seq::new(num_bins as nat, |i: int| 0)
    } else {
        let prev = spec_bins(s.drop_last(), num_bins);
        let idx = spec_bin_index(s.last().0, num_bins);
        prev.update(idx, prev[idx] + s.last().1)
    }
}

/// One rescaled bin: the accumulated weight `w` divided by
/// `(total / num_bins) * (num / den)`, i.e. by the average bin weight times
/// the normalization constant, at fixed-point scale 2^24.
pub open spec fn spec_rescaled(w: int, num_bins: int, den: int, num: int, total: int) -> int {
    (w * num_bins * den * (FIXED_ONE as int)) / (total * num)
}

/// Replacing one element changes a sum by the difference.
proof fn lemma_sum_update(s: Seq<int>, i: int, v: int)
    requires
        0 <= i < s.len(),
    ensures
        spec_sum(s.update(i, v)) == spec_sum(s) - s[i] + v,
    decreases s.len(),
{
    if i == s.len() - 1 {
        assert(s.update(i, v).drop_last() =~= s.drop_last());
    } else {
        lemma_sum_update(s.drop_last(), i, v);
        assert(s.update(i, v).drop_last() =~= s.drop_last().update(i, v));
    }
}

/// A sum of non-negative integers is non-negative.
proof fn lemma_sum_nonneg(s: Seq<int>)
    requires
        forall|j: int| 0 <= j < s.len() ==> s[j] >= 0,
    ensures
        spec_sum(s) >= 0,
    decreases s.len(),
{
    if s.len() > 0 {
        lemma_sum_nonneg(s.drop_last());
    }
}

/// In a sequence of non-negative integers, each element is at most the sum.
proof fn lemma_elem_le_sum(s: Seq<int>, i: int)
    requires
        0 <= i < s.len(),
        forall|j: int| 0 <= j < s.len() ==> s[j] >= 0,
    ensures
        s[i] <= spec_sum(s),
    decreases s.len(),
{
    if i == s.len() - 1 {
        lemma_sum_nonneg(s.drop_last());
    } else {
        lemma_elem_le_sum(s.drop_last(), i);
    }
}

/// The bins of a sequence are as many as asked for, and hold its total
/// weight: binning only redistributes mass.
proof fn lemma_bins_shape(s: Seq<(int, int)>, num_bins: int)
    requires
        num_bins >= 1,
    ensures
        spec_bins(s, num_bins).len() == num_bins,
        spec_sum(spec_bins(s, num_bins)) == spec_weight_sum(s),
    decreases s.len(),
{
    if s.len() == 0 {
        assert(spec_bins(s, num_bins) =~= Seq::new(num_bins as nat, |i: int| 0));
        lemma_sum_zero(Seq::new(num_bins as nat, |i: int| 0));
    } else {
        lemma_bins_shape(s.drop_last(), num_bins);
        let prev = spec_bins(s.drop_last(), num_bins);
        let idx = spec_bin_index(s.last().0, num_bins);
        lemma_bin_index_range(s.last().0, num_bins);
        lemma_sum_update(prev, idx, prev[idx] + s.last().1);
    }
}

/// A sequence of zeros sums to zero.
proof fn lemma_sum_zero(s: Seq<int>)
    requires
        forall|j: int| 0 <= j < s.len() ==> s[j] == 0,
    ensures
        spec_sum(s) == 0,
    decreases s.len(),
{
    if s.len() > 0 {
        lemma_sum_zero(s.drop_last());
    }
}

/// A bin index is always within range.
proof fn lemma_bin_index_range(v: int, num_bins: int)
    requires
        num_bins >= 1,
    ensures
        0 <= spec_bin_index(v, num_bins) < num_bins,
{
    if v > 0 {
        let b = (v * num_bins) / (FIXED_ONE as int);
        assert(v * num_bins >= 0) by (nonlinear_arith)
            requires v > 0 && num_bins >= 1;
        vstd::arithmetic::div_mod::lemma_div_pos_is_pos(v * num_bins, FIXED_ONE as int);
    }
}

/// The bin a position falls into, executable form.  A position at or above 1
/// always lands in the last bin, never out of range.
pub fn bin_index(value: i64, num_bins: usize) -> (r: usize)
    requires
        1 <= num_bins <= 0x100_0000,
    ensures
        r == spec_bin_index(value as int, num_bins as int),
        r < num_bins,
        value >= FIXED_ONE ==> r == num_bins - 1,
{
    if value <= 0 {
        0
    } else {
        proof {
            assert((value as int) * (num_bins as int) <= 0x7fff_ffff_ffff_ffff * 0x100_0000)
                by (nonlinear_arith)
                requires 0 < value <= 0x7fff_ffff_ffff_ffff && num_bins <= 0x100_0000;
            if value >= FIXED_ONE {
                vstd::arithmetic::mul::lemma_mul_inequality(
                    FIXED_ONE as int,
                    value as int,
                    num_bins as int,
                );
                vstd::arithmetic::div_mod::lemma_div_multiples_vanish(
                    num_bins as int,
                    FIXED_ONE as int,
                );
                vstd::arithmetic::div_mod::lemma_div_is_ordered(
                    (FIXED_ONE as int) * (num_bins as int),
                    (value as int) * (num_bins as int),
                    FIXED_ONE as int,
                );
            }
        }
        let wide: u128 = (value as u128) * (num_bins as u128);
        let b: u128 = wide / (FIXED_ONE as u128);
        if b >= num_bins as u128 {
            num_bins - 1
        } else {
            b as usize
        }
    }
}

/// Appending an element adds it to the sum.
proof fn lemma_sum_push(s: Seq<int>, v: int)
    ensures
        spec_sum(s.push(v)) == spec_sum(s) + v,
{
    assert(s.push(v).drop_last() =~= s);
}

/// The total weight of a non-empty sequence with non-negative weights is at
/// least its first weight.
proof fn lemma_first_le_weight_sum(s: Seq<(int, int)>)
    requires
        s.len() >= 1,
        forall|j: int| 0 <= j < s.len() ==> (#[trigger] s[j]).1 >= 0,
    ensures
        s[0].1 <= spec_weight_sum(s),
    decreases s.len(),
{
    assert(s.last() == s[s.len() - 1]);
    if s.len() == 1 {
        assert(spec_weight_sum(s.drop_last()) == 0);
        assert(spec_weight_sum(s) == s[0].1);
    } else {
        assert forall|j: int| 0 <= j < s.drop_last().len() implies (#[trigger] s.drop_last()[j]).1
            >= 0 by {
            assert(s.drop_last()[j] == s[j]);
        }
        lemma_first_le_weight_sum(s.drop_last());
        assert(s.drop_last()[0] == s[0]);
        assert(s[s.len() - 1].1 >= 0);
    }
}

/// One rescaled output bin, with the exact division bounds its caller sums.
fn rescale_bin(w: u64, num_bins: usize, den: u64, num: u64, total: u64) -> (r: u64)
    requires
        1 <= num_bins <= 0x100_0000,
        1 <= den <= 1000,
        1 <= num <= 1000,
        1 <= total <= 0x200_0000_0000_0000,
        w <= total,
    ensures
        r == spec_rescaled(w as int, num_bins as int, den as int, num as int, total as int),
        r * ((total as int) * (num as int)) <= (w as int) * ((num_bins as int) * (den as int)
            * (FIXED_ONE as int)),
        (w as int) * ((num_bins as int) * (den as int) * (FIXED_ONE as int)) < (r + 1) * ((
        total as int) * (num as int)),
{
    let ghost m: int = (num_bins as int) * (den as int) * (FIXED_ONE as int);
    let ghost c: int = (w as int) * (num_bins as int) * (den as int) * (FIXED_ONE as int);
    let ghost d: int = (total as int) * (num as int);
    proof {
        assert((w as int) * (num_bins as int) <= 0x200_0000_0000_0000 * 0x100_0000)
            by (nonlinear_arith)
            requires w <= 0x200_0000_0000_0000 && num_bins <= 0x100_0000;
        assert((w as int) * (num_bins as int) * (den as int) <= 0x200_0000_0000_0000 * 0x100_0000
            * 1000) by (nonlinear_arith)
            requires
                (w as int) * (num_bins as int) <= 0x200_0000_0000_0000 * 0x100_0000 && 0 <= (
                w as int) * (num_bins as int) && den <= 1000;
        assert(c <= 0x200_0000_0000_0000 * 0x100_0000 * 1000 * 0x100_0000 && c >= 0)
            by (nonlinear_arith)
            requires
                (w as int) * (num_bins as int) * (den as int) <= 0x200_0000_0000_0000 * 0x100_0000
                    * 1000 && 0 <= (w as int) * (num_bins as int) * (den as int) && c == (w as int)
                    * (num_bins as int) * (den as int) * (FIXED_ONE as int);
        assert(1 <= d <= 0x200_0000_0000_0000 * 1000) by (nonlinear_arith)
            requires
                d == (total as int) * (num as int) && 1 <= total <= 0x200_0000_0000_0000 && 1 <= num
                    <= 1000;
        assert(c == (w as int) * m && m <= 0x100_0000 * 1000 * 0x100_0000 && m >= 1)
            by (nonlinear_arith)
            requires
                c == (w as int) * (num_bins as int) * (den as int) * (FIXED_ONE as int) && m == (
                num_bins as int) * (den as int) * (FIXED_ONE as int) && 1 <= num_bins <= 0x100_0000
                    && 1 <= den <= 1000;
    }
    let prod: u128 = (w as u128) * (num_bins as u128) * (den as u128) * (FIXED_ONE as u128);
    let dq: u128 = (total as u128) * (num as u128);
    let q: u128 = prod / dq;
    proof {
        vstd::arithmetic::div_mod::lemma_fundamental_div_mod(c, d);
        vstd::arithmetic::div_mod::lemma_mod_bound(c, d);
        assert(c / d <= m) by (nonlinear_arith)
            requires
                d * (c / d) + c % d == c && 0 <= c % d && c == (w as int) * m && w <= total && d == (
                total as int) * (num as int) && 1 <= num && 1 <= total && 0 <= c / d && m >= 1;
        assert(q == c / d && q * d <= c && c < (q + 1) * d) by {
            assert(d * (c / d) <= c && c < d * (c / d + 1)) by (nonlinear_arith)
                requires d * (c / d) + c % d == c && 0 <= c % d < d;
            assert(d * (c / d) == (c / d) * d && d * (c / d + 1) == (c / d + 1) * d)
                by (nonlinear_arith);
        }
    }
    q as u64
}

/// The executable acceptance probability.
fn accept_fixed(f_new: u64, f_cur: u64) -> (r: u64)
    requires
        f_new <= DENSITY_ONE,
        f_cur <= DENSITY_ONE,
    ensures
        r == spec_accept_fixed(f_new as int, f_cur as int),
        r <= FIXED_ONE,
{
    if f_cur == 0 || f_new >= f_cur {
        FIXED_ONE
    } else {
        proof {
            lemma_accept_fixed_bounds(f_new as int, f_cur as int);
        }
        (((f_new as u128) * (FIXED_ONE as u128)) / (f_cur as u128)) as u64
    }
}

} // verus!
