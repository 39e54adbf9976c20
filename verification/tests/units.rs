use necko3::amount::Amount;
use necko3::units::{format_units, parse_units, UnitsError};

#[test]
fn parse_units_whole_and_fraction() {
    assert_eq!(parse_units("25.37", 6), Ok(Amount::from_u64(25_370_000)));
    assert_eq!(parse_units("25", 6), Ok(Amount::from_u64(25_000_000)));
    assert_eq!(parse_units("0.5", 2), Ok(Amount::from_u64(50)));
    assert_eq!(parse_units(".5", 1), Ok(Amount::from_u64(5)));
    assert_eq!(parse_units("25.", 0), Ok(Amount::from_u64(25)));
    assert_eq!(parse_units("0", 18), Ok(Amount::from_u64(0)));
    assert_eq!(
        parse_units("1", 18),
        Ok(Amount::from_u128(1_000_000_000_000_000_000))
    );
}

#[test]
fn parse_units_rejects_malformed() {
    assert_eq!(parse_units("", 6), Err(UnitsError::Malformed));
    assert_eq!(parse_units(".", 6), Err(UnitsError::Malformed));
    assert_eq!(parse_units("abc", 6), Err(UnitsError::Malformed));
    assert_eq!(parse_units("1.2.3", 6), Err(UnitsError::Malformed));
    assert_eq!(parse_units("-5", 6), Err(UnitsError::Malformed));
    // More fractional digits than the token has.
    assert_eq!(parse_units("25.371", 2), Err(UnitsError::Malformed));
}

#[test]
fn parse_units_rejects_overflow() {
    // Seventy-eight nines exceed 2^256.
    let big = "9".repeat(78);
    assert_eq!(parse_units(&big, 0), Err(UnitsError::Overflow));
    // 2^256 itself is one too many.
    let bound = "115792089237316195423570985008687907853269984665640564039457584007913129639936";
    assert_eq!(parse_units(bound, 0), Err(UnitsError::Overflow));
    let max = "115792089237316195423570985008687907853269984665640564039457584007913129639935";
    let parsed = parse_units(max, 0).unwrap();
    assert_eq!(
        parsed,
        Amount { l0: u64::MAX, l1: u64::MAX, l2: u64::MAX, l3: u64::MAX }
    );
}

#[test]
fn format_units_renders_fixed_fractions() {
    assert_eq!(format_units(&Amount::from_u64(25_370_000), 6), "25.370000");
    assert_eq!(format_units(&Amount::from_u64(0), 2), "0.00");
    assert_eq!(format_units(&Amount::from_u64(5), 0), "5");
    assert_eq!(format_units(&Amount::from_u64(5), 1), "0.5");
    assert_eq!(
        format_units(&Amount::from_u128(1_000_000_000_000_000_000), 18),
        "1.000000000000000000"
    );
}

#[test]
fn units_round_trip_on_samples() {
    let samples: Vec<(Amount, u8)> = vec![
        (Amount::from_u64(0), 0),
        (Amount::from_u64(0), 6),
        (Amount::from_u64(25_370_000), 6),
        (Amount::from_u64(1), 18),
        (Amount::from_u128(123_456_789_012_345_678_901_234_567_890), 30),
        (Amount { l0: u64::MAX, l1: u64::MAX, l2: u64::MAX, l3: u64::MAX }, 77),
        (Amount { l0: u64::MAX, l1: u64::MAX, l2: u64::MAX, l3: u64::MAX }, 0),
    ];
    for (v, d) in samples {
        let text = format_units(&v, d);
        assert_eq!(parse_units(&text, d), Ok(v), "round trip failed for {}", text);
    }
}

#[test]
fn amount_arithmetic() {
    let a = Amount::from_u64(10);
    let b = Amount::from_u64(32);
    assert_eq!(a.checked_add(&b), Some(Amount::from_u64(42)));
    assert_eq!(b.checked_sub(&a), Some(Amount::from_u64(22)));
    assert_eq!(a.checked_sub(&b), None);
    assert!(a.lt(&b));
    assert!(b.ge(&a));
    assert!(a.le(&a));
    assert!(Amount::from_u64(0).is_zero());
    let max = Amount { l0: u64::MAX, l1: u64::MAX, l2: u64::MAX, l3: u64::MAX };
    assert_eq!(max.checked_add(&Amount::from_u64(1)), None);
    assert_eq!(max.checked_add(&Amount::from_u64(0)), Some(max));
    // A carry must ripple through all four limbs.
    let low = Amount { l0: u64::MAX, l1: u64::MAX, l2: u64::MAX, l3: 0 };
    assert_eq!(
        low.checked_add(&Amount::from_u64(1)),
        Some(Amount { l0: 0, l1: 0, l2: 0, l3: 1 })
    );
}
