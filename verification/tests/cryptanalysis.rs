//! The cryptanalysis suite.

use lngap::n4bit::cryptanalysis::{
    algebraic_degrees, ddt, differential_branch_number, differential_uniformity, diffusion_profile,
    full_diffusion_rounds, hamming_weight, lat, nonlinearity,
};
use lngap::n4bit::sampling::{
    avalanche_weights, bic_joint_counts, birthday_collision_search, nibble_counts, preimage_search,
    sac_flip_counts,
};
use lngap::n4bit::{
    spn_round, CAPACITY_NIBBLES, RATE_NIBBLES, ROUNDS, SBOX, SBOX_INV, STATE_NIBBLES,
};

fn sac_test(num_samples: usize, input_len: usize) -> Vec<f64> {
    sac_flip_counts(num_samples, input_len).iter().map(|&c| c as f64 / num_samples as f64).collect()
}

fn bic_test(num_samples: usize, input_len: usize) -> f64 {
    let n = num_samples as f64;
    let mut max_corr = 0.0f64;
    for pair in bic_joint_counts(num_samples, input_len) {
        let p01 = pair.joint[1] as f64 / n;
        let p10 = pair.joint[2] as f64 / n;
        let p11 = pair.joint[3] as f64 / n;
        let pi = p10 + p11;
        let pj = p01 + p11;
        let expected_11 = pi * pj;
        let corr =
            (p11 - expected_11).abs() / (pi * pj * (1.0 - pi) * (1.0 - pj)).sqrt().max(1e-10);
        max_corr = max_corr.max(corr);
    }
    max_corr
}

fn avalanche_distribution(num_samples: usize, input_len: usize) -> (f64, f64) {
    let weights = avalanche_weights(num_samples, input_len);
    let mean = weights.iter().map(|&w| w as f64).sum::<f64>() / num_samples as f64;
    let variance =
        weights.iter().map(|&w| (w as f64 - mean).powi(2)).sum::<f64>() / num_samples as f64;
    (mean, variance.sqrt())
}

fn chi_square_nibbles(num_samples: usize) -> f64 {
    let expected = num_samples as f64 / 16.0;
    let mut max_chi = 0.0f64;
    for counts in nibble_counts(num_samples) {
        let chi: f64 = counts
            .iter()
            .map(|&c| {
                let diff = c as f64 - expected;
                diff * diff / expected
            })
            .sum();
        max_chi = max_chi.max(chi);
    }
    max_chi
}

#[test]
fn ddt_analysis() {
    let table = ddt(&SBOX);
    let du = differential_uniformity(&SBOX);
    println!("\n=== DDT of PRESENT S-box ===");
    for dx in 0..16 {
        println!("{:3}: {:?}", dx, table[dx]);
    }
    println!("\nDifferential uniformity: {} (optimal for 4-bit: 4)", du);
    assert!(du <= 4, "differential uniformity {} should be <= 4", du);
}

#[test]
fn lat_analysis() {
    let table = lat(&SBOX);
    let nl = nonlinearity(&SBOX);
    println!("\n=== LAT of PRESENT S-box (showing bias = |count - 8|) ===");
    for alpha in 0..16 {
        let biases: Vec<i32> = table[alpha].iter().map(|v| (v - 8).abs()).collect();
        println!("{:3}: {:?}", alpha, biases);
    }
    println!("\nNonlinearity: {} (optimal for 4-bit: 4)", nl);
    assert!(nl >= 4, "nonlinearity {} should be >= 4", nl);
}

#[test]
fn algebraic_degree_analysis() {
    let degrees = algebraic_degrees(&SBOX);
    println!("\n=== Algebraic degrees of S-box output bits ===");
    for (bit, &deg) in degrees.iter().enumerate() {
        println!("  bit {}: degree {} (max possible: 3)", bit, deg);
    }
    let min_deg = *degrees.iter().min().unwrap();
    assert!(min_deg >= 2, "min algebraic degree {} should be >= 2", min_deg);
}

#[test]
fn branch_number_analysis() {
    let bn = differential_branch_number(&SBOX);
    println!("\nDifferential branch number: {} (good: >= 3)", bn);
    assert!(bn >= 3, "differential branch number {} should be >= 3", bn);
}

#[test]
fn full_diffusion_analysis() {
    let profile = diffusion_profile();
    let full = full_diffusion_rounds();
    println!("\n=== Diffusion profile (1-nibble difference → affected nibbles) ===");
    for (r, &count) in profile.iter().enumerate() {
        let bar = "#".repeat(count);
        println!("  round {:2}: {}/40 {}", r + 1, count, bar);
    }
    println!("\nFull diffusion: {} rounds (to affect all 40 nibbles)", full);
    println!("ROUNDS per absorb/squeeze: {}", ROUNDS);
    if full > ROUNDS {
        println!("  WARNING: full diffusion ({} rounds) > ROUNDS ({}).", full, ROUNDS);
    }
}

#[test]
fn sac_analysis() {
    let probs = sac_test(10_000, 48);
    let max_dev = probs.iter().map(|&p| (p - 0.5).abs()).fold(0.0f64, f64::max);
    let mean_dev = probs.iter().map(|&p| (p - 0.5).abs()).sum::<f64>() / probs.len() as f64;
    println!("\n=== SAC test (10,000 samples, flip input bit 0) ===");
    println!("  max deviation from 0.5: {:.4} (threshold: 0.05)", max_dev);
    println!("  mean deviation from 0.5: {:.4}", mean_dev);
    assert!(max_dev < 0.1, "SAC max deviation {} should be < 0.1", max_dev);
}

#[test]
fn bic_analysis() {
    let corr = bic_test(10_000, 48);
    println!("\n=== BIC test (10,000 samples, 190 bit pairs) ===");
    println!("  max correlation: {:.4} (threshold: 0.1)", corr);
    assert!(corr < 0.15, "BIC max correlation {} should be < 0.15", corr);
}

#[test]
fn avalanche_weight_analysis() {
    let (mean, std) = avalanche_distribution(10_000, 48);
    let expected_mean = 80.0;
    let expected_std = (160.0 * 0.25f64).sqrt();
    println!("\n=== Avalanche weight distribution (10,000 samples) ===");
    println!("  mean: {:.2} (expected: {:.1})", mean, expected_mean);
    println!("  std:  {:.2} (expected: {:.2})", std, expected_std);
    println!("  mean deviation: {:.2}", (mean - expected_mean).abs());
    assert!((mean - expected_mean).abs() < 5.0, "avalanche mean {} should be near 80", mean);
    assert!(
        (std - expected_std).abs() < 2.0,
        "avalanche std {} should be near {}",
        std,
        expected_std
    );
}

#[test]
fn chi_square_analysis() {
    let max_chi = chi_square_nibbles(10_000);
    let critical_001 = 30.58; // chi-square critical value, df=15, p=0.01
    println!("\n=== Chi-square test on nibble values (10,000 samples) ===");
    println!("  max chi-square across 40 nibble positions: {:.2}", max_chi);
    println!("  degrees of freedom: 15, critical value (p=0.01): {}", critical_001);
    println!("  pass: {}", if max_chi < critical_001 { "yes" } else { "FAIL" });
}

#[test]
fn birthday_collision_analysis() {
    // 20-bit truncated hash: expect collision in ~1024 hashes
    let (found, expected) = birthday_collision_search(20, 100_000);
    println!("\n=== Birthday collision search (20-bit truncation) ===");
    println!("  hashes to collision: {} (expected ~{})", found, expected);
    println!("  ratio: {:.2} (should be near 1.0)", found as f64 / expected as f64);
    // Allow a factor of 4 either way (birthday bound is probabilistic)
    assert!(found > 100, "collision found too easily: {} hashes", found);
    assert!(found < 10_000, "collision took too long: {} hashes", found);
}

#[test]
fn preimage_resistance_analysis() {
    // 16-bit truncated hash: expect preimage in ~65536 hashes
    let (found, expected) = preimage_search(16, 200_000);
    println!("\n=== Preimage search (16-bit truncation) ===");
    println!("  hashes to preimage: {} (expected ~{})", found, expected);
    println!("  ratio: {:.2} (should be near 1.0)", found as f64 / expected as f64);
    // Allow a factor of 8 either way
    assert!(found > 5_000, "preimage found too easily: {} hashes", found);
    assert!(found < 200_000, "preimage search should succeed within 200k hashes");
}

#[test]
fn sponge_capacity_analysis() {
    println!("\n=== Sponge construction analysis ===");
    println!("  State: {} nibbles ({} bits)", STATE_NIBBLES, STATE_NIBBLES * 4);
    println!("  Rate:  {} nibbles ({} bits)", RATE_NIBBLES, RATE_NIBBLES * 4);
    println!("  Capacity: {} nibbles ({} bits)", CAPACITY_NIBBLES, CAPACITY_NIBBLES * 4);
    println!("    Collision resistance:  2^(c/2) = 2^{}", CAPACITY_NIBBLES * 2);
    println!("    Preimage resistance:   2^c    = 2^{}", CAPACITY_NIBBLES * 4);
    assert_eq!(RATE_NIBBLES + CAPACITY_NIBBLES, STATE_NIBBLES);
    if (CAPACITY_NIBBLES * 2) < 80 {
        println!("  CRITICAL: collision resistance 2^{} < 2^80 target!", CAPACITY_NIBBLES * 2);
    }
}

#[test]
fn summary() {
    println!("\n{}", "=".repeat(60));
    println!("n4bit CRYPTANALYSIS SUMMARY");
    println!("{}", "=".repeat(60));
    println!("S-box (PRESENT):");
    println!("  Differential uniformity: {} (optimal: 4)", differential_uniformity(&SBOX));
    println!("  Nonlinearity: {} (optimal: 4)", nonlinearity(&SBOX));
    println!("  Algebraic degrees: {:?} (optimal: [3,3,3,3])", algebraic_degrees(&SBOX));
    println!("  Branch number: {}", differential_branch_number(&SBOX));
    println!("Round function:");
    println!("  Diffusion profile: {:?}", diffusion_profile());
    println!("  Full diffusion: {} rounds", full_diffusion_rounds());
    println!("  ROUNDS per absorb/squeeze: {}", ROUNDS);
    println!("Sponge construction:");
    println!(
        "  Capacity: {} bits → 2^{} collision resistance",
        CAPACITY_NIBBLES * 4,
        CAPACITY_NIBBLES * 2
    );
    println!("Statistical tests (10,000 samples each):");
    let (av_mean, av_std) = avalanche_distribution(10_000, 48);
    println!("  Avalanche: mean={:.2} (exp 80.0), std={:.2} (exp 6.32)", av_mean, av_std);
    let sac = sac_test(10_000, 48);
    let sac_max = sac.iter().map(|&p| (p - 0.5).abs()).fold(0.0f64, f64::max);
    println!("  SAC: max deviation = {:.4} (threshold 0.1)", sac_max);
    println!("  BIC: max correlation = {:.4} (threshold 0.15)", bic_test(10_000, 48));
    println!("  Chi-square: max = {:.2} (critical 30.58)", chi_square_nibbles(10_000));
    let (coll, _) = birthday_collision_search(20, 100_000);
    println!("  Birthday (20-bit): {} hashes (expected ~1024)", coll);
    let (pre, _) = preimage_search(16, 200_000);
    println!("  Preimage (16-bit): {} hashes (expected ~65536)", pre);
}

#[test]
fn exact_values_of_the_sbox() {
    let table = ddt(&SBOX);
    assert_eq!(table[0][0], 16);
    for dx in 0..16 {
        assert_eq!(table[dx].iter().sum::<u32>(), 16, "row {}", dx);
        if dx > 0 {
            assert_eq!(table[0][dx], 0);
            assert_eq!(table[dx][0], 0);
        }
    }
    assert_eq!(lat(&SBOX)[0][0], 16);
    assert_eq!(differential_uniformity(&SBOX), 4);
    assert_eq!(nonlinearity(&SBOX), 4);
    assert_eq!(differential_branch_number(&SBOX), 3);
    assert_eq!(hamming_weight(0b1011), 3);
    assert!(algebraic_degrees(&SBOX).iter().all(|&d| d <= 3));
}

#[test]
fn searches_stop_at_their_bound() {
    // no two of the first three digests share their first 120 bits
    assert_eq!(birthday_collision_search(120, 3), (3, 1 << 60));
    assert_eq!(preimage_search(60, 2), (2, 1 << 60));
    // digests of no bits agree at once
    assert_eq!(birthday_collision_search(0, 10), (2, 1));
    assert_eq!(preimage_search(0, 10), (1, 1));
    assert_eq!(birthday_collision_search(8, 0), (0, 16));
}

#[test]
fn samples_are_counted_once() {
    let counts = nibble_counts(50);
    assert_eq!(counts.len(), 40);
    assert!(counts.iter().all(|c| c.iter().sum::<u64>() == 50));
    let pairs = bic_joint_counts(30, 48);
    assert_eq!(pairs.len(), 190);
    assert!(pairs.iter().all(|p| p.joint.iter().sum::<u64>() == 30 && p.i < p.j));
    assert_eq!(avalanche_weights(7, 48).len(), 7);
    assert!(sac_flip_counts(20, 48).iter().all(|&c| c <= 20));
}

/// A permutation with uneven tables.
const UNEVEN: [u8; 16] = [10, 14, 5, 1, 9, 2, 3, 11, 13, 7, 8, 4, 0, 6, 15, 12];

/// The nibbles as they are.
const IDENTITY: [u8; 16] = [0, 1, 2, 3, 4, 5, 6, 7, 8, 9, 10, 11, 12, 13, 14, 15];

#[test]
fn tables_of_permutations() {
    for sbox in [SBOX, SBOX_INV, UNEVEN, IDENTITY] {
        let table = ddt(&sbox);
        for d in 0..16 {
            assert_eq!((0..16).map(|dx| table[dx][d]).sum::<u32>(), 16, "column {}", d);
            assert!(table[d].iter().all(|n| n % 2 == 0));
        }
        assert!(differential_uniformity(&sbox) >= 4);
        assert!([0, 2, 4].contains(&nonlinearity(&sbox)));
    }
    assert_eq!((differential_uniformity(&UNEVEN), nonlinearity(&UNEVEN)), (6, 2));
    assert_eq!((differential_uniformity(&IDENTITY), nonlinearity(&IDENTITY)), (16, 0));
}

#[test]
fn the_inverse_transposes_the_differences() {
    let (table, inverse) = (ddt(&SBOX), ddt(&SBOX_INV));
    for dx in 0..16 {
        for dy in 0..16 {
            assert_eq!(table[dx][dy], inverse[dy][dx]);
        }
    }
}

#[test]
fn a_round_at_most_doubles_a_difference() {
    let base: [u8; STATE_NIBBLES] = std::array::from_fn(|i| (7 * i % 16) as u8);
    for place in 0..STATE_NIBBLES {
        for delta in 1..16 {
            let (mut a, mut b) = (base, base);
            b[place] = (b[place] + delta) % 16;
            let mut before = 1;
            for round in 0..8 {
                spn_round(&mut a, round);
                spn_round(&mut b, round);
                let after = (0..STATE_NIBBLES).filter(|&i| a[i] != b[i]).count();
                assert!(1 <= after && after <= 2 * before, "{} to {}", before, after);
                before = after;
            }
        }
    }
}

#[test]
fn the_diffusion_profile() {
    let profile = diffusion_profile();
    let full = full_diffusion_rounds();
    assert_eq!(profile[..8], [2, 4, 8, 16, 28, 35, 36, 38]);
    assert_eq!(full, 41);
    assert_eq!(profile.len(), full.min(30));
    for k in 1..profile.len() {
        assert!(profile[k] <= 2 * profile[k - 1]);
        assert!(profile[k - 1] < STATE_NIBBLES);
    }
    assert_eq!(profile[profile.len() - 1] == STATE_NIBBLES, full <= 30);
}
