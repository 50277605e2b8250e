use powhll::{HyperLogLog, DEFAULT_HLL_BITS, EMPTY_REGISTER, MAX_HLL_BITS};

/// Simple splitmix64 hash for testing
fn splitmix(mut x: u64) -> u64 {
    x = x.wrapping_add(0x9e3779b97f4a7c15);
    x = (x ^ (x >> 30)).wrapping_mul(0xbf58476d1ce4e5b9);
    x = (x ^ (x >> 27)).wrapping_mul(0x94d049bb133111eb);
    x ^ (x >> 31)
}

/// The estimate `alpha_m * m^2 / Z` from the sketch's scaled sum `Z * 2^64`.
fn estimate(hll: &HyperLogLog) -> f64 {
    let m = (1u64 << hll.bits()) as f64;
    let alpha = match hll.bits() {
        4 => 0.673,
        5 => 0.697,
        6 => 0.709,
        _ => 0.7213 / (1.0 + 1.079 / m),
    };
    let scaled = hll.scaled_harmonic_sum();
    if scaled == 0 {
        0.0
    } else {
        let z = scaled as f64 / 18446744073709551616.0;
        alpha * m * m / z
    }
}

#[test]
fn test_new_creates_correct_size() {
    let hll = HyperLogLog::new(4);
    assert_eq!(hll.bits(), 4);
    assert_eq!(hll.hashes().len(), 16);
    assert_eq!(hll.seeds().len(), 16);
}

#[test]
fn test_new_normalizes_bits() {
    let hll = HyperLogLog::new(0);
    assert_eq!(hll.bits(), 1);
    assert_eq!(hll.hashes().len(), 2);

    let hll = HyperLogLog::new(30);
    assert_eq!(hll.bits(), MAX_HLL_BITS);
    assert_eq!(hll.hashes().len(), 1 << MAX_HLL_BITS);
}

#[test]
fn test_add_returns_true_on_improvement() {
    let mut hll = HyperLogLog::new(4);
    assert!(hll.add(1, 0xFFFF_0000));
    assert!(hll.add(2, 0x0000_0000));
    assert!(!hll.add(3, 0xFFFF_0000));
}

#[test]
fn test_add_tracks_seed() {
    let mut hll = HyperLogLog::new(4);
    hll.add(42, 0x0013);
    assert_eq!(hll.seeds()[3], 42);
    hll.add(99, 0x0003);
    assert_eq!(hll.seeds()[3], 99);
}

#[test]
fn test_add_hash_sets_seed_to_zero() {
    let mut hll = HyperLogLog::new(4);
    hll.add_hash(0x0005);
    assert_eq!(hll.seeds()[5], 0);
}

#[test]
fn test_count_empty_returns_zero() {
    let hll = HyperLogLog::new(12);
    assert_eq!(estimate(&hll), 0.0);
}

#[test]
fn test_count_estimates_cardinality() {
    let mut hll = HyperLogLog::new(12);
    let n = 10_000u64;
    for seed in 0..n {
        let hash = splitmix(seed);
        hll.add(seed, hash);
    }
    let estimate = estimate(&hll);
    let lower = n as f64 * 0.5;
    let upper = n as f64 * 1.5;
    assert!(
        estimate > lower && estimate < upper,
        "Expected estimate near {}, got {}",
        n,
        estimate
    );
}

#[test]
fn test_count_handles_single_item() {
    let mut hll = HyperLogLog::new(12);
    let hash = splitmix(0);
    hll.add(0, hash);
    let estimate = estimate(&hll);
    assert!(estimate > 0.0, "Estimate should be positive");
}

#[test]
fn test_json_roundtrip() {
    let mut hll = HyperLogLog::new(4);
    hll.add(1, 0x1234);
    hll.add(2, 0x5678_0002);
    let json = hll.to_json();
    let restored = HyperLogLog::from_json(4, &json);
    assert_eq!(hll.hashes(), restored.hashes());
    assert_eq!(restored.seeds(), &[0u64; 16]);
}

#[test]
fn test_json_handles_invalid_input() {
    let hll = HyperLogLog::from_json(4, "not valid json");
    assert_eq!(hll.hashes().len(), 16);
    assert!(hll.hashes().iter().all(|&h| h == u64::MAX));
}

#[test]
fn test_json_handles_partial_data() {
    let json = r#"["100", "200"]"#;
    let hll = HyperLogLog::from_json(4, json);
    assert_eq!(hll.hashes()[0], 100);
    assert_eq!(hll.hashes()[1], 200);
    assert_eq!(hll.hashes()[2], u64::MAX);
}

#[test]
fn test_clone() {
    let mut hll = HyperLogLog::new(4);
    hll.add(42, 0x1234);
    let cloned = hll.clone();
    assert_eq!(hll, cloned);
}

#[test]
fn test_default_bits_constant() {
    assert_eq!(DEFAULT_HLL_BITS, 5);
    let hll = HyperLogLog::new(DEFAULT_HLL_BITS);
    assert_eq!(hll.hashes().len(), 32);
}

#[test]
fn test_max_bits_constant() {
    assert_eq!(MAX_HLL_BITS, 20);
    let hll = HyperLogLog::new(MAX_HLL_BITS);
    assert_eq!(hll.hashes().len(), 1_048_576);
}

#[test]
fn test_leading_zeros_safe_for_edge_cases() {
    let mut hll = HyperLogLog::new(12);
    hll.add(1, 0x0000_0000_0000_0001);
    hll.add(2, 0xFFFF_FFFF_FFFF_FFFE);
    let _ = estimate(&hll);
}

#[test]
fn add_lowers_only_the_selected_register() {
    let mut hll = HyperLogLog::new(4);
    let before: Vec<u64> = hll.hashes().to_vec();
    hll.add(7, 0x1235);
    for (i, (&now, &was)) in hll.hashes().iter().zip(before.iter()).enumerate() {
        assert!(now <= was);
        if i != 5 {
            assert_eq!(now, was);
        }
    }
    assert_eq!(hll.hashes()[5], 0x1235);
}

#[test]
fn adding_twice_equals_adding_once() {
    let mut once = HyperLogLog::new(4);
    once.add(9, 0xABCD);
    let mut twice = HyperLogLog::new(4);
    twice.add(9, 0xABCD);
    assert!(!twice.add(9, 0xABCD));
    assert_eq!(once, twice);
}

#[test]
fn reordered_adds_give_same_registers() {
    let hashes = [0x10u64, 0x22, 0x30, 0x12, 0xF1, 0x01];
    let mut forward = HyperLogLog::new(4);
    for &h in hashes.iter() {
        forward.add_hash(h);
    }
    let mut backward = HyperLogLog::new(4);
    for &h in hashes.iter().rev() {
        backward.add_hash(h);
    }
    assert_eq!(forward.hashes(), backward.hashes());
    assert_eq!(forward.scaled_harmonic_sum(), backward.scaled_harmonic_sum());
}

#[test]
fn fresh_sketch_has_zero_sum() {
    let hll = HyperLogLog::new(7);
    assert_eq!(hll.scaled_harmonic_sum(), 0);
    assert!(hll.hashes().iter().all(|&h| h == EMPTY_REGISTER));
}

#[test]
fn normalize_bits_clamps() {
    assert_eq!(HyperLogLog::normalize_bits(0), 1);
    assert_eq!(HyperLogLog::normalize_bits(1), 1);
    assert_eq!(HyperLogLog::normalize_bits(20), 20);
    assert_eq!(HyperLogLog::normalize_bits(21), 20);
    assert_eq!(HyperLogLog::normalize_bits(255), 20);
}

#[test]
fn rho_values() {
    // hash >> 4 == 1: 63 leading zeros, less 4, plus 1.
    assert_eq!(HyperLogLog::register_rho(0x10, 4), 60);
    // top bit set after the shift is impossible; 0 gives 64 - 4 + 1.
    assert_eq!(HyperLogLog::register_rho(0x0, 4), 61);
    assert_eq!(HyperLogLog::register_rho(u64::MAX - 1, 1), 1);
}

#[test]
fn scaled_sum_of_one_register() {
    let mut hll = HyperLogLog::new(4);
    hll.add_hash(0x10);
    // rho = 60, weight 2^(64 - 60)
    assert_eq!(hll.scaled_harmonic_sum(), 16);
}

#[test]
fn to_json_writes_decimal_strings() {
    let mut hll = HyperLogLog::new(1);
    hll.add_hash(0x1234);
    assert_eq!(hll.to_json(), "[\"4660\",\"18446744073709551615\"]");
}

#[test]
fn from_values_ignores_bad_and_extra_entries() {
    let values = vec!["5".to_string(), "x".to_string(), "+7".to_string(), "9".to_string()];
    let hll = HyperLogLog::from_values(1, &values);
    assert_eq!(hll.hashes(), &[5, u64::MAX]);
    let hll = HyperLogLog::from_values(2, &values);
    assert_eq!(hll.hashes(), &[5, u64::MAX, 7, 9]);
}
