use abi_bridge::error::BridgeError;
use abi_bridge::number::AbiInt;
use abi_bridge::wide::U256;

#[test]
fn decimal_literal_round_trip() {
    let v = AbiInt::parse_decimal("-0012345678901234567890123456789").unwrap();
    assert_eq!(v.to_decimal(), "-12345678901234567890123456789");
    assert!(v.is_negative());
}

#[test]
fn decimal_literal_accepts_plus_sign_and_leading_zeros() {
    assert_eq!(AbiInt::parse_decimal("+007").unwrap().to_decimal(), "7");
    assert_eq!(AbiInt::parse_decimal("000").unwrap().to_decimal(), "0");
}

#[test]
fn negative_zero_is_zero() {
    let zero = AbiInt::parse_decimal("-0").unwrap();
    assert!(!zero.is_negative());
    assert_eq!(zero.to_decimal(), "0");
    assert!(zero.same_value(&AbiInt::from_i64(0)));
    assert_eq!(zero, AbiInt::from_i64(0));
}

#[test]
fn decimal_literal_rejects_non_numeric() {
    assert_eq!(AbiInt::parse_decimal("12a"), Err(BridgeError::TypeMismatch));
    assert_eq!(AbiInt::parse_decimal(""), Err(BridgeError::TypeMismatch));
    assert_eq!(AbiInt::parse_decimal("-"), Err(BridgeError::TypeMismatch));
    assert_eq!(AbiInt::parse_decimal("+"), Err(BridgeError::TypeMismatch));
    assert_eq!(AbiInt::parse_decimal(" 1"), Err(BridgeError::TypeMismatch));
    assert_eq!(AbiInt::parse_decimal("0x10"), Err(BridgeError::TypeMismatch));
    assert_eq!(AbiInt::parse_decimal("١٢"), Err(BridgeError::TypeMismatch));
}

#[test]
fn decimal_literal_of_257_bits_is_out_of_range() {
    let limit = "115792089237316195423570985008687907853269984665640564039457584007913129639936";
    assert_eq!(AbiInt::parse_decimal(limit), Err(BridgeError::OutOfRange));
    let negative = "-115792089237316195423570985008687907853269984665640564039457584007913129639936";
    assert_eq!(AbiInt::parse_decimal(negative), Err(BridgeError::OutOfRange));
    // A digit that overflows is no excuse for a later character that is no digit.
    let broken = "115792089237316195423570985008687907853269984665640564039457584007913129639936x";
    assert_eq!(AbiInt::parse_decimal(broken), Err(BridgeError::TypeMismatch));
}

#[test]
fn largest_magnitude_round_trips() {
    let max = "115792089237316195423570985008687907853269984665640564039457584007913129639935";
    let v = AbiInt::parse_decimal(max).unwrap();
    assert_eq!(v.to_decimal(), max);
    assert!(v.fits(256, false));
    assert!(!v.fits(255, false));
    assert!(!v.fits(256, true));
}

#[test]
fn eight_bit_unsigned_boundaries() {
    assert!(AbiInt::parse_decimal("255").unwrap().fits(8, false));
    assert!(AbiInt::parse_decimal("0").unwrap().fits(8, false));
    assert!(!AbiInt::parse_decimal("256").unwrap().fits(8, false));
    assert!(!AbiInt::parse_decimal("-1").unwrap().fits(8, false));
}

#[test]
fn eight_bit_signed_boundaries() {
    assert!(AbiInt::parse_decimal("127").unwrap().fits(8, true));
    assert!(AbiInt::parse_decimal("-128").unwrap().fits(8, true));
    assert!(!AbiInt::parse_decimal("128").unwrap().fits(8, true));
    assert!(!AbiInt::parse_decimal("-129").unwrap().fits(8, true));
}

#[test]
fn signed_256_bit_boundaries() {
    let max = "57896044618658097711785492504343953926634992332820282019728792003956564819967";
    let min = "-57896044618658097711785492504343953926634992332820282019728792003956564819968";
    let above = "57896044618658097711785492504343953926634992332820282019728792003956564819968";
    let below = "-57896044618658097711785492504343953926634992332820282019728792003956564819969";
    assert!(AbiInt::parse_decimal(max).unwrap().fits(256, true));
    assert!(AbiInt::parse_decimal(min).unwrap().fits(256, true));
    assert!(!AbiInt::parse_decimal(above).unwrap().fits(256, true));
    assert!(!AbiInt::parse_decimal(below).unwrap().fits(256, true));
}

#[test]
fn widths_across_limb_boundaries() {
    let two_64 = AbiInt::parse_decimal("18446744073709551616").unwrap();
    assert!(!two_64.fits(64, false));
    assert!(two_64.fits(65, false));
    let two_128 = AbiInt::parse_decimal("340282366920938463463374607431768211456").unwrap();
    assert!(!two_128.fits(128, false));
    assert!(two_128.fits(129, false));
    assert!(AbiInt::parse_decimal("340282366920938463463374607431768211455").unwrap().fits(128, false));
}

#[test]
fn degenerate_widths() {
    assert!(AbiInt::from_i64(0).fits(0, false));
    assert!(!AbiInt::from_i64(1).fits(0, false));
    assert!(!AbiInt::from_i64(0).fits(0, true));
    assert!(AbiInt::from_i64(-1).fits(1, true));
    assert!(!AbiInt::from_i64(1).fits(1, true));
    assert!(AbiInt::from_i64(i64::MIN).fits(300, true));
}

#[test]
fn machine_numbers() {
    assert_eq!(AbiInt::from_i64(i64::MIN).to_decimal(), "-9223372036854775808");
    assert_eq!(AbiInt::from_i64(i64::MAX).to_decimal(), "9223372036854775807");
    assert_eq!(AbiInt::from_i64(-128).to_i8(), Some(-128));
    assert_eq!(AbiInt::from_i64(127).to_i8(), Some(127));
    assert_eq!(AbiInt::from_i64(128).to_i8(), None);
    assert_eq!(AbiInt::from_i64(-129).to_i8(), None);
}

#[test]
fn magnitudes() {
    let ten = U256::from_u64(10);
    assert_eq!(ten.div_rem10(), (U256::from_u64(1), 0));
    assert_eq!(U256::from_u64(7).mul10_add(3), Some(U256::from_u64(73)));
    assert_eq!(U256::pow2(10), U256::from_u64(1024));
    assert!(U256::zero().is_zero());
    assert!(U256::from_u64(3).lt(&U256::pow2(200)));
    assert_eq!(U256::pow2(64).to_u64(), None);
    assert_eq!(U256::pow2(63).to_u64(), Some(1u64 << 63));
    assert_eq!(AbiInt::new(true, U256::pow2(255)).to_decimal(),
        "-57896044618658097711785492504343953926634992332820282019728792003956564819968");
}
