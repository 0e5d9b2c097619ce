use poolsim::parse::{
    parse_fixed, parse_i32, parse_u128, parse_u256, parse_u32, NumErr, FIXED_SCALE,
};
use poolsim::u256::U256;

#[test]
fn parse_u256_plain() {
    assert_eq!(parse_u256("0"), Ok(U256::from_u128(0)));
    assert_eq!(parse_u256("1000"), Ok(U256::from_u128(1000)));
    // 2^128, one above the low half
    assert_eq!(
        parse_u256("340282366920938463463374607431768211456"),
        Ok(U256 { lo: 0, hi: 1 })
    );
}

#[test]
fn parse_u256_largest_and_beyond() {
    // 2^256 - 1 parses; 2^256 does not fit.
    let max =
        "115792089237316195423570985008687907853269984665640564039457584007913129639935";
    assert_eq!(parse_u256(max), Ok(U256 { lo: u128::MAX, hi: u128::MAX }));
    let too_big =
        "115792089237316195423570985008687907853269984665640564039457584007913129639936";
    assert_eq!(parse_u256(too_big), Err(NumErr::TooLarge));
}

#[test]
fn parse_u256_rejects_malformed() {
    assert_eq!(parse_u256(""), Err(NumErr::Malformed));
    assert_eq!(parse_u256("12a"), Err(NumErr::Malformed));
    assert_eq!(parse_u256("-5"), Err(NumErr::Malformed));
    assert_eq!(parse_u256("1.5"), Err(NumErr::Malformed));
    assert_eq!(parse_u256("１２"), Err(NumErr::Malformed));
}

#[test]
fn parse_u256_leading_zeros() {
    assert_eq!(parse_u256("007"), Ok(U256::from_u128(7)));
    assert_eq!(parse_u256("000"), Ok(U256::from_u128(0)));
}

#[test]
fn parse_u128_bounds() {
    assert_eq!(parse_u128("340282366920938463463374607431768211455"), Ok(u128::MAX));
    assert_eq!(
        parse_u128("340282366920938463463374607431768211456"),
        Err(NumErr::TooLarge)
    );
    assert_eq!(parse_u128("x"), Err(NumErr::Malformed));
}

#[test]
fn parse_u32_bounds() {
    assert_eq!(parse_u32("18"), Some(18));
    assert_eq!(parse_u32("4294967295"), Some(u32::MAX));
    assert_eq!(parse_u32("4294967296"), None);
    assert_eq!(parse_u32("eighteen"), None);
}

#[test]
fn parse_i32_signs_and_bounds() {
    assert_eq!(parse_i32("0"), Some(0));
    assert_eq!(parse_i32("-887220"), Some(-887220));
    assert_eq!(parse_i32("887272"), Some(887272));
    assert_eq!(parse_i32("2147483647"), Some(i32::MAX));
    assert_eq!(parse_i32("-2147483648"), Some(i32::MIN));
    assert_eq!(parse_i32("2147483648"), None);
    assert_eq!(parse_i32("-2147483649"), None);
    assert_eq!(parse_i32("-"), None);
    assert_eq!(parse_i32("+5"), None);
    assert_eq!(parse_i32(""), None);
}

#[test]
fn parse_fixed_integers_and_fractions() {
    assert_eq!(parse_fixed("0"), Ok(0));
    assert_eq!(parse_fixed("1000"), Ok(1000 * FIXED_SCALE));
    assert_eq!(parse_fixed("2"), Ok(2 * FIXED_SCALE));
    assert_eq!(parse_fixed("0.003"), Ok(3_000_000_000_000_000));
    assert_eq!(parse_fixed("1.5"), Ok(1_500_000_000_000_000_000));
    assert_eq!(parse_fixed("123.000000000000000001"), Ok(123 * FIXED_SCALE + 1));
}

#[test]
fn parse_fixed_truncates_beyond_eighteen_places() {
    // the nineteenth fractional digit is below the resolution
    assert_eq!(parse_fixed("0.0000000000000000001"), Ok(0));
    assert_eq!(parse_fixed("0.0000000000000000019"), Ok(1));
}

#[test]
fn parse_fixed_rejects_malformed() {
    assert_eq!(parse_fixed(""), Err(NumErr::Malformed));
    assert_eq!(parse_fixed("."), Err(NumErr::Malformed));
    assert_eq!(parse_fixed(".5"), Err(NumErr::Malformed));
    assert_eq!(parse_fixed("5."), Err(NumErr::Malformed));
    assert_eq!(parse_fixed("1.2.3"), Err(NumErr::Malformed));
    assert_eq!(parse_fixed("-1.0"), Err(NumErr::Malformed));
    assert_eq!(parse_fixed("1e3"), Err(NumErr::Malformed));
}

#[test]
fn parse_fixed_overflow() {
    // 2^128 / 10^18 < 10^21, so a 22-digit integer part cannot fit
    assert_eq!(parse_fixed("1000000000000000000000"), Err(NumErr::TooLarge));
}
