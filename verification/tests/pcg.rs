//! The generator must reproduce the published PCG-XSH-RR 64/32 stream: the
//! same algorithm as the `rand_pcg` crate's 32-bit generator, seeded the same
//! way, draw for draw.

use metropolis_sampling::pcg32::Pcg32;
use rand::Rng;
use rand::SeedableRng;

#[test]
fn stream_matches_rand_pcg() {
    let seeds: [u64; 6] = [0, 1, 42, 12345, 0x8000_0000_0000_0000, u64::MAX];
    for &seed in seeds.iter() {
        let mut ours = Pcg32::from(seed);
        let mut theirs = rand_pcg::Pcg32::seed_from_u64(seed);
        for _ in 0..64 {
            assert_eq!(ours.gen(), theirs.gen::<u32>());
        }
    }
}

#[test]
fn uniform_matches_rand_f32() {
    // rand's uniform f32 in [0, 1) is exactly (next_u32 >> 8) / 2^24: the
    // fixed-point draw converts to it with no rounding at all.
    let seeds: [u64; 3] = [0, 3, 999];
    for &seed in seeds.iter() {
        let mut ours = Pcg32::from(seed);
        let mut theirs = rand_pcg::Pcg32::seed_from_u64(seed);
        for _ in 0..64 {
            let k = ours.next_uniform();
            let f = theirs.gen::<f32>();
            assert_eq!((k as f32 / 16777216.0).to_bits(), f.to_bits());
            assert!(k < 0x100_0000);
        }
    }
}

#[test]
fn seed_zero_known_stream() {
    let mut rng = Pcg32::from(0);
    let expected: [u32; 5] = [298703107, 4236525527, 336081875, 1056616254, 1060453275];
    for &e in expected.iter() {
        assert_eq!(rng.gen(), e);
    }
}

#[test]
fn new_and_default_are_seed_zero() {
    let mut a = Pcg32::new();
    let mut b = Pcg32::default();
    let mut c = Pcg32::from(0);
    for _ in 0..16 {
        let x = c.gen();
        assert_eq!(a.gen(), x);
        assert_eq!(b.gen(), x);
    }
}

#[test]
fn distinct_seeds_distinct_streams() {
    let mut a = Pcg32::from(1);
    let mut b = Pcg32::from(2);
    let first_a: Vec<u32> = (0..8).map(|_| a.gen()).collect();
    let first_b: Vec<u32> = (0..8).map(|_| b.gen()).collect();
    assert_ne!(first_a, first_b);
}
