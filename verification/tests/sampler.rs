//! The sampler's laws on concrete runs: determinism, the length law, the
//! weight bounds, the mutation mixture at its extremes, and the two recording
//! modes.

use metropolis_sampling::functions::FunctionType;
use metropolis_sampling::metropolis::{mutate, mutate_large, mutate_small, Metropolis, Sample};
use metropolis_sampling::pcg32::Pcg32;
use metropolis_sampling::FIXED_ONE;

const HALF_PROB: u32 = 0x80_0000;

#[test]
fn determinism_standard_mode() {
    let a = Metropolis::gen_sample_sequence(99, FunctionType::ShiftedSquare, 200, 50, HALF_PROB, false);
    let b = Metropolis::gen_sample_sequence(99, FunctionType::ShiftedSquare, 200, 50, HALF_PROB, false);
    assert_eq!(a.sample_sequence, b.sample_sequence);
    assert_eq!(a.f_norm_num, b.f_norm_num);
    assert_eq!(a.f_norm_den, b.f_norm_den);
}

#[test]
fn determinism_expected_value_mode() {
    let a = Metropolis::gen_sample_sequence(7, FunctionType::Sinus, 150, 30, 4194304, true);
    let b = Metropolis::gen_sample_sequence(7, FunctionType::Sinus, 150, 30, 4194304, true);
    assert_eq!(a.sample_sequence, b.sample_sequence);
}

#[test]
fn length_law() {
    for &(m, b) in [(5usize, 0usize), (5, 7), (0, 3), (100, 100)].iter() {
        let std = Metropolis::gen_sample_sequence(1, FunctionType::ShiftedSquare, m, b, HALF_PROB, false);
        assert_eq!(std.sample_sequence.len(), 1 + m);
        let evt = Metropolis::gen_sample_sequence(1, FunctionType::ShiftedSquare, m, b, HALF_PROB, true);
        assert_eq!(evt.sample_sequence.len(), 1 + 2 * m);
    }
}

#[test]
fn weight_bounds() {
    let evt = Metropolis::gen_sample_sequence(7, FunctionType::Sinus, 300, 20, 4194304, true);
    for s in evt.sample_sequence.iter() {
        assert!(s.weight <= FIXED_ONE);
    }
    assert_eq!(evt.sample_sequence[0].weight, FIXED_ONE);
    let std = Metropolis::gen_sample_sequence(7, FunctionType::Sinus, 300, 20, 4194304, false);
    for s in std.sample_sequence.iter() {
        assert_eq!(s.weight, FIXED_ONE);
    }
}

#[test]
fn scenario_single_entry_run() {
    // No burn-in and no recorded iterations: the sequence is exactly the
    // initial draw with weight one, and the histogram has one loaded bin.
    let m = Metropolis::gen_sample_sequence(0, FunctionType::ShiftedSquare, 0, 0, HALF_PROB, false);
    assert_eq!(m.sample_sequence.len(), 1);
    assert_eq!(m.sample_sequence[0].value, 1166809);
    assert_eq!(m.sample_sequence[0].weight, FIXED_ONE);
    let bins = m.sample_distribution(8);
    let loaded: Vec<usize> = (0..8).filter(|&i| bins[i] != 0).collect();
    assert_eq!(loaded.len(), 1);
}

#[test]
fn mutation_extremes() {
    // Probability 0: every proposal is an independent uniform redraw, the
    // same whatever the current position.  Probability 1: every proposal
    // stays within 0.05 of the current position.
    let mut rng = Pcg32::from(5);
    for _ in 0..200 {
        let rng_copy_a = rng;
        let mut rng_copy_b = rng;
        let from_low = mutate(-7_000_000, &mut rng, 0);
        let mut a = rng_copy_a;
        let from_high = mutate(90_000_000, &mut a, 0);
        assert_eq!(from_low, from_high);
        assert!(0 <= from_low && from_low < FIXED_ONE as i64);

        let prev: i64 = 10_000_000;
        let stepped = mutate(prev, &mut rng_copy_b, FIXED_ONE as u32);
        assert!((stepped - prev).abs() <= 838860);
    }
}

#[test]
fn mutation_kernels_follow_the_uniform_stream() {
    let mut rng = Pcg32::from(13);
    for _ in 0..100 {
        let mut copy = rng;
        let draw = copy.next_uniform() as i64;
        let large = mutate_large(5_000_000, &mut rng);
        assert_eq!(large, draw);

        let mut copy = rng;
        let draw = copy.next_uniform() as i64;
        let half = 0x80_0000i64;
        let expected_step = if draw >= half { (draw - half) / 10 } else { -((half - draw) / 10) };
        let prev: i64 = 2_000_000;
        let small = mutate_small(prev, &mut rng);
        assert_eq!(small - prev, expected_step);
    }
}

#[test]
fn mode_toggle() {
    // Toggling the expected-value technique changes the length as the length
    // law says, but the initial sample is identical in both modes.
    let std = Metropolis::gen_sample_sequence(11, FunctionType::Sinus, 40, 10, HALF_PROB, false);
    let evt = Metropolis::gen_sample_sequence(11, FunctionType::Sinus, 40, 10, HALF_PROB, true);
    assert_eq!(std.sample_sequence[0], evt.sample_sequence[0]);
    assert_eq!(std.sample_sequence.len(), 41);
    assert_eq!(evt.sample_sequence.len(), 81);
}

#[test]
fn probability_above_one_is_clamped() {
    let clamped = Metropolis::gen_sample_sequence(3, FunctionType::ShiftedSquare, 50, 5, u32::MAX, false);
    let exact = Metropolis::gen_sample_sequence(3, FunctionType::ShiftedSquare, 50, 5, FIXED_ONE as u32, false);
    assert_eq!(clamped.sample_sequence, exact.sample_sequence);
}

#[test]
fn chain_regression_standard() {
    let m = Metropolis::gen_sample_sequence(0, FunctionType::ShiftedSquare, 5, 2, HALF_PROB, false);
    let expected: Vec<Sample> = vec![
        Sample { value: 1166809, weight: 16777216 },
        Sample { value: 220985, weight: 16777216 },
        Sample { value: 220985, weight: 16777216 },
        Sample { value: 220985, weight: 16777216 },
        Sample { value: 220985, weight: 16777216 },
        Sample { value: 144152, weight: 16777216 },
    ];
    assert_eq!(m.sample_sequence, expected);
    assert_eq!(m.f_norm_num, 12);
    assert_eq!(m.f_norm_den, 1);
}

#[test]
fn chain_regression_expected_value() {
    let m = Metropolis::gen_sample_sequence(0, FunctionType::ShiftedSquare, 5, 2, HALF_PROB, true);
    let expected: Vec<Sample> = vec![
        Sample { value: 1166809, weight: 16777216 },
        Sample { value: 1105534, weight: 0 },
        Sample { value: 220985, weight: 16777216 },
        Sample { value: 220985, weight: 16777216 },
        Sample { value: -572222, weight: 0 },
        Sample { value: 220985, weight: 16777216 },
        Sample { value: -220382, weight: 0 },
        Sample { value: 220985, weight: 5728839 },
        Sample { value: 1760570, weight: 11048377 },
        Sample { value: 220985, weight: 0 },
        Sample { value: 144152, weight: 16777216 },
    ];
    assert_eq!(m.sample_sequence, expected);
}

#[test]
fn chain_regression_sine_expected_value() {
    let m = Metropolis::gen_sample_sequence(7, FunctionType::Sinus, 6, 3, 4194304, true);
    let expected: Vec<Sample> = vec![
        Sample { value: 9539934, weight: 16777216 },
        Sample { value: 2254103, weight: 16044086 },
        Sample { value: 5199271, weight: 733130 },
        Sample { value: 2254103, weight: 15520151 },
        Sample { value: 10418857, weight: 1257065 },
        Sample { value: 10418857, weight: 0 },
        Sample { value: 4874509, weight: 16777216 },
        Sample { value: 4874509, weight: 8855936 },
        Sample { value: 5456431, weight: 7921280 },
        Sample { value: 5456431, weight: 0 },
        Sample { value: 11116930, weight: 16777216 },
        Sample { value: 11116930, weight: 0 },
        Sample { value: 6457513, weight: 16777216 },
    ];
    assert_eq!(m.sample_sequence, expected);
    assert_eq!(m.f_norm_num, 125);
    assert_eq!(m.f_norm_den, 77);
}
