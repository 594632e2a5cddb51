//! The built-in target densities: exact fixed-point values, vanishing
//! outside the unit interval, the fixed-point sine's accuracy against the
//! real sine, and the exact normalization constants.

use metropolis_sampling::functions::{FunctionType, DENSITY_ONE};
use metropolis_sampling::FIXED_ONE;

#[test]
fn shifted_square_exact_values() {
    let ft = FunctionType::ShiftedSquare;
    assert_eq!(ft.density(0), 1 << 46);
    assert_eq!(ft.density(FIXED_ONE as i64), 1 << 46);
    assert_eq!(ft.density(1 << 23), 0);
    let t: i64 = 123456;
    let d = t - (1 << 23);
    assert_eq!(ft.density(t), (d * d) as u64);
    assert_eq!(ft.density(-1), 0);
    assert_eq!(ft.density(FIXED_ONE as i64 + 1), 0);
}

#[test]
fn shifted_square_matches_real_function() {
    let ft = FunctionType::ShiftedSquare;
    for i in 0..=64 {
        let t: i64 = i * (FIXED_ONE as i64) / 64;
        let x = t as f64 / FIXED_ONE as f64;
        let real = (x - 0.5) * (x - 0.5);
        let fixed = ft.density(t) as f64 / DENSITY_ONE as f64;
        assert!((real - fixed).abs() < 1e-12);
    }
}

#[test]
fn sine_density_values() {
    let ft = FunctionType::Sinus;
    assert_eq!(ft.density(0), 0);
    assert_eq!(ft.density(-1), 0);
    assert_eq!(ft.density(FIXED_ONE as i64 + 1), 0);
    // regression: |sin(1.0)| at the fixed-point grid
    assert_eq!(ft.density(FIXED_ONE as i64 / 10), 236852212662272);
}

#[test]
fn sine_density_tracks_real_sine() {
    let ft = FunctionType::Sinus;
    let mut worst: f64 = 0.0;
    let mut t: i64 = 0;
    while t <= FIXED_ONE as i64 {
        let x = t as f64 / FIXED_ONE as f64;
        let real = (10.0 * t as f64 / FIXED_ONE as f64).sin().abs();
        let fixed = ft.density(t) as f64 / DENSITY_ONE as f64;
        let err = (real - fixed).abs();
        if err > worst {
            worst = err;
        }
        let _ = x;
        t += 1 << 14;
    }
    assert!(worst < 3e-4);
}

#[test]
fn normalization_constants() {
    assert_eq!(FunctionType::ShiftedSquare.norm_num(), 12);
    assert_eq!(FunctionType::ShiftedSquare.norm_den(), 1);
    // 1 / 0.616 is exactly 125 / 77
    assert_eq!(FunctionType::Sinus.norm_num(), 125);
    assert_eq!(FunctionType::Sinus.norm_den(), 77);
    assert!((125.0 / 77.0 - 1.0 / 0.616_f64).abs() < 1e-15);
}

#[test]
fn no_target_is_empty() {
    let ft = FunctionType::NoTarget;
    assert_eq!(ft.density(0), 0);
    assert_eq!(ft.density(FIXED_ONE as i64 / 2), 0);
    assert_eq!(ft.norm_num(), 1);
    assert_eq!(ft.norm_den(), 1);
}
