use bucketing::binary64::{exponent_bits, fraction_bits, is_above_one, sign_bit, truncate};

#[test]
fn truncation_drops_the_fraction() {
    assert_eq!(truncate(0.0f64.to_bits()), 0);
    assert_eq!(truncate(0.5f64.to_bits()), 0);
    assert_eq!(truncate(0.999_999_999_999_999_9f64.to_bits()), 0);
    assert_eq!(truncate(1.0f64.to_bits()), 1);
    assert_eq!(truncate(1.999_999_999_999_999_8f64.to_bits()), 1);
    assert_eq!(truncate(2.0f64.to_bits()), 2);
    assert_eq!(truncate(2.5f64.to_bits()), 2);
    assert_eq!(truncate(98.701_492_826_108_36f64.to_bits()), 98);
    assert_eq!(truncate(1e15f64.to_bits()), 1_000_000_000_000_000);
}

#[test]
fn truncation_of_given_patterns() {
    // 1.0, 2.0, 3.0 and 1.5 written out bit by bit.
    assert_eq!(truncate(0x3ff0_0000_0000_0000), 1);
    assert_eq!(truncate(0x4000_0000_0000_0000), 2);
    assert_eq!(truncate(0x4008_0000_0000_0000), 3);
    assert_eq!(truncate(0x3ff8_0000_0000_0000), 1);
    // The largest double below one, and the smallest above zero.
    assert_eq!(truncate(0x3fef_ffff_ffff_ffff), 0);
    assert_eq!(truncate(0x0000_0000_0000_0001), 0);
}

#[test]
fn truncation_is_exact_where_the_fraction_ends() {
    // 2^52 and 2^53 hold no fraction bits behind the binary point.
    assert_eq!(truncate(4_503_599_627_370_496f64.to_bits()), 4_503_599_627_370_496);
    assert_eq!(truncate(4_503_599_627_370_497f64.to_bits()), 4_503_599_627_370_497);
    assert_eq!(truncate(4_503_599_627_370_496.5f64.to_bits()), 4_503_599_627_370_496);
    assert_eq!(truncate(9_007_199_254_740_992f64.to_bits()), 9_007_199_254_740_992);
    assert_eq!(truncate(9_007_199_254_740_994f64.to_bits()), 9_007_199_254_740_994);
    assert_eq!(truncate(0x43e0_0000_0000_0000), 1u64 << 63);
}

#[test]
fn truncation_saturates_at_the_top() {
    // The largest double below 2^64 is 2^64 - 2048.
    assert_eq!(truncate(0x43ef_ffff_ffff_ffff), u64::MAX - 2047);
    // 2^64 itself is one too many.
    assert_eq!(truncate(0x43f0_0000_0000_0000), u64::MAX);
    assert_eq!(truncate(18_446_744_073_709_551_616f64.to_bits()), u64::MAX);
    assert_eq!(truncate(1e300f64.to_bits()), u64::MAX);
    assert_eq!(truncate(f64::MAX.to_bits()), u64::MAX);
    assert_eq!(truncate(f64::INFINITY.to_bits()), u64::MAX);
}

#[test]
fn truncation_saturates_at_zero() {
    assert_eq!(truncate((-0.0f64).to_bits()), 0);
    assert_eq!(truncate((-0.5f64).to_bits()), 0);
    assert_eq!(truncate((-1.0f64).to_bits()), 0);
    assert_eq!(truncate((-1e300f64).to_bits()), 0);
    assert_eq!(truncate(f64::NEG_INFINITY.to_bits()), 0);
}

#[test]
fn truncation_of_nan_is_zero() {
    assert_eq!(truncate(f64::NAN.to_bits()), 0);
    assert_eq!(truncate(0x7ff0_0000_0000_0001), 0);
    assert_eq!(truncate(0x7fff_ffff_ffff_ffff), 0);
    assert_eq!(truncate(0xfff8_0000_0000_0000), 0);
}

#[test]
fn truncation_of_subnormals_is_zero() {
    assert_eq!(truncate(f64::MIN_POSITIVE.to_bits()), 0);
    assert_eq!(truncate(0x000f_ffff_ffff_ffff), 0);
    assert_eq!(truncate(5e-324f64.to_bits()), 0);
}

#[test]
fn truncation_agrees_with_the_cast() {
    // Walk over the doubles in steps that visit every exponent many times.
    let mut bits: u64 = 0;
    let mut visited: u32 = 0;
    loop {
        let value = f64::from_bits(bits);
        assert_eq!(truncate(bits), value as u64, "pattern {:#018x}", bits);
        visited += 1;
        match bits.checked_add(0x0000_7f3b_91c5_d1e7) {
            Some(next) => bits = next,
            None => break,
        }
    }
    assert!(visited > 100_000);
}

#[test]
fn truncation_agrees_with_the_cast_near_whole_numbers() {
    for whole in 0u64..5_000 {
        let value = whole as f64;
        let pattern = value.to_bits();
        assert_eq!(truncate(pattern), whole);
        if whole > 0 {
            // The double just below a whole number truncates to the one before.
            assert_eq!(truncate(pattern - 1), whole - 1);
        }
        assert_eq!(truncate(pattern + 1), whole);
    }
}

#[test]
fn truncation_keeps_the_order() {
    let mut previous = 0u64;
    let mut bits: u64 = 0;
    while bits <= 0x7ff0_0000_0000_0000 {
        let whole = truncate(bits);
        assert!(previous <= whole, "pattern {:#018x}", bits);
        previous = whole;
        bits += 0x0000_3a5f_07c1_9e83;
    }
    assert_eq!(truncate(0x7ff0_0000_0000_0000), u64::MAX);
}

#[test]
fn fields_of_a_pattern() {
    let pattern = 1.5f64.to_bits();
    assert!(!sign_bit(pattern));
    assert_eq!(exponent_bits(pattern), 1023);
    assert_eq!(fraction_bits(pattern), 1u64 << 51);

    let pattern = (-2.0f64).to_bits();
    assert!(sign_bit(pattern));
    assert_eq!(exponent_bits(pattern), 1024);
    assert_eq!(fraction_bits(pattern), 0);

    assert_eq!(exponent_bits(f64::INFINITY.to_bits()), 0x7ff);
    assert_eq!(exponent_bits(0), 0);
    assert_eq!(fraction_bits(u64::MAX), (1u64 << 52) - 1);
}

#[test]
fn numbers_above_one() {
    assert!(is_above_one(1.000_000_000_000_000_2f64.to_bits()));
    assert!(is_above_one(0x3ff0_0000_0000_0001));
    assert!(is_above_one(1.090_507_732_665_257_7f64.to_bits()));
    assert!(is_above_one(2.0f64.to_bits()));
    assert!(is_above_one(f64::MAX.to_bits()));
    assert!(is_above_one(f64::INFINITY.to_bits()));
}

#[test]
fn numbers_not_above_one() {
    assert!(!is_above_one(1.0f64.to_bits()));
    assert!(!is_above_one(0.999_999_999_999_999_9f64.to_bits()));
    assert!(!is_above_one(0.5f64.to_bits()));
    assert!(!is_above_one(0.0f64.to_bits()));
    assert!(!is_above_one(f64::MIN_POSITIVE.to_bits()));
    assert!(!is_above_one((-0.0f64).to_bits()));
    assert!(!is_above_one((-2.0f64).to_bits()));
    assert!(!is_above_one(f64::NEG_INFINITY.to_bits()));
    assert!(!is_above_one(f64::NAN.to_bits()));
    assert!(!is_above_one(0x7ff0_0000_0000_0001));
    assert!(!is_above_one(u64::MAX));
}

#[test]
fn above_one_agrees_with_the_comparison() {
    let mut bits: u64 = 0;
    loop {
        assert_eq!(is_above_one(bits), f64::from_bits(bits) > 1.0, "pattern {:#018x}", bits);
        match bits.checked_add(0x0000_9d2c_5680_3b11) {
            Some(next) => bits = next,
            None => break,
        }
    }
}
