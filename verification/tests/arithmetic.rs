use poolsim::errors::CoreError;
use poolsim::math::{
    decode_sqrt_price_x96, encode_sqrt_price_x96, expand_decimals, isqrt, mul_div, mul_div_q128,
    pow10,
};
use poolsim::u256::{mul_u128, U256};

#[test]
fn u256_from_u128_roundtrip() {
    let x = U256::from_u128(12345);
    assert_eq!(x.to_u128(), Some(12345));
    assert!(!x.is_zero());
    assert!(U256::zero().is_zero());
}

#[test]
fn u256_checked_add_carries_across_halves() {
    let a = U256 { lo: u128::MAX, hi: 0 };
    let b = U256 { lo: 1, hi: 0 };
    let s = a.checked_add(&b).unwrap();
    assert_eq!(s, U256 { lo: 0, hi: 1 });
}

#[test]
fn u256_checked_add_detects_overflow() {
    let a = U256 { lo: u128::MAX, hi: u128::MAX };
    let b = U256 { lo: 1, hi: 0 };
    assert_eq!(a.checked_add(&b), None);
}

#[test]
fn u256_sub_borrows_across_halves() {
    let a = U256 { lo: 0, hi: 1 };
    let b = U256 { lo: 1, hi: 0 };
    assert_eq!(a.sub(&b), U256 { lo: u128::MAX, hi: 0 });
}

#[test]
fn u256_wrapping_sub_wraps_modulo_two_to_256() {
    // 0 - 1 wraps to the largest 256-bit value.
    let zero = U256::zero();
    let one = U256::from_u128(1);
    assert_eq!(zero.wrapping_sub(&one), U256 { lo: u128::MAX, hi: u128::MAX });
    // A non-wrapping difference is the plain difference.
    let ten = U256::from_u128(10);
    let three = U256::from_u128(3);
    assert_eq!(ten.wrapping_sub(&three), U256::from_u128(7));
    assert_eq!(ten.wrapping_sub(&ten), U256::zero());
}

#[test]
fn u256_mul_u128_exact_product() {
    // (2^64 + 1)^2 == 2^128 + 2^65 + 1
    let f: u128 = (1u128 << 64) + 1;
    let p = mul_u128(f, f);
    assert_eq!(p, U256 { lo: (1u128 << 65) + 1, hi: 1 });
}

#[test]
fn u256_checked_mul_u64_and_overflow() {
    let x = U256 { lo: 0, hi: 1 };
    let y = x.checked_mul_u64(10).unwrap();
    assert_eq!(y, U256 { lo: 0, hi: 10 });
    let big = U256 { lo: u128::MAX, hi: u128::MAX };
    assert_eq!(big.checked_mul_u64(2), None);
}

#[test]
fn u256_div_rem_exact() {
    let (q, r) = U256::from_u128(1000).div_rem(&U256::from_u128(7));
    assert_eq!(q, U256::from_u128(142));
    assert_eq!(r, U256::from_u128(6));
}

#[test]
fn u256_div_rem_wide_divisor() {
    // divisor above 2^255: quotient is 0 or 1
    let d = U256 { lo: 0, hi: 1u128 << 127 };
    let n = U256 { lo: 5, hi: 1u128 << 127 };
    let (q, r) = n.div_rem(&d);
    assert_eq!(q, U256::from_u128(1));
    assert_eq!(r, U256::from_u128(5));
}

#[test]
fn u256_div_rem_shifts_out_high_half() {
    // (liquidity * 2^128 + junk) / 2^128 == liquidity
    let n = U256 { lo: 77, hi: 4242 };
    let d = U256 { lo: 0, hi: 1 };
    let (q, r) = n.div_rem(&d);
    assert_eq!(q, U256::from_u128(4242));
    assert_eq!(r, U256::from_u128(77));
}

#[test]
fn mul_div_uses_wide_intermediate() {
    // a * b overflows 128 bits, yet the quotient is exact: 2^200 / 2^90 == 2^110.
    let a = 1u128 << 100;
    let b = 1u128 << 100;
    let q = mul_div(a, b, 1u128 << 90).unwrap();
    assert_eq!(q, U256 { lo: 1u128 << 110, hi: 0 });
    // and a quotient above 128 bits keeps its high half: 2^200 / 2^60 == 2^140
    let w = mul_div(a, b, 1u128 << 60).unwrap();
    assert_eq!(w, U256 { lo: 0, hi: 1u128 << 12 });
}

#[test]
fn mul_div_divide_by_zero() {
    assert_eq!(mul_div(1, 1, 0), Err(CoreError::DivideByZero));
}

#[test]
fn mul_div_q128_scales_down() {
    let q128 = U256 { lo: 0, hi: 1 };
    assert_eq!(mul_div_q128(1000, &q128), U256::from_u128(1000));
    // floor behaviour below the scale
    assert_eq!(mul_div_q128(3, &U256::from_u128(u128::MAX)), U256::from_u128(2));
}

#[test]
fn expand_decimals_and_pow10() {
    let n = U256::from_u128(7);
    assert_eq!(expand_decimals(&n, 3), Some(U256::from_u128(7000)));
    assert_eq!(pow10(0), Some(U256::from_u128(1)));
    assert_eq!(pow10(18), Some(U256::from_u128(1_000_000_000_000_000_000)));
    // 10^78 leaves 256 bits
    assert_eq!(pow10(78), None);
    assert!(pow10(77).is_some());
}

#[test]
fn isqrt_exact_and_floor() {
    assert_eq!(isqrt(&U256::from_u128(0)), 0);
    assert_eq!(isqrt(&U256::from_u128(1)), 1);
    assert_eq!(isqrt(&U256::from_u128(15)), 3);
    assert_eq!(isqrt(&U256::from_u128(16)), 4);
    let big = mul_u128(u128::MAX, u128::MAX);
    assert_eq!(isqrt(&big), u128::MAX);
}

#[test]
fn encode_sqrt_price_of_integer_prices() {
    // floor(sqrt(1) * 2^96) == 2^96
    assert_eq!(encode_sqrt_price_x96(1), 1u128 << 96);
    // floor(sqrt(4) * 2^96) == 2^97
    assert_eq!(encode_sqrt_price_x96(4), 2u128 << 96);
    // a non-square price rounds down: r == floor(sqrt(2) * 2^96), so
    // r^2 <= 2 * 2^192 < (r + 1)^2
    let r = encode_sqrt_price_x96(2);
    let price_x192 = U256 { lo: 0, hi: 2u128 << 64 };
    assert!(mul_u128(r, r).le(&price_x192));
    assert!(price_x192.lt(&mul_u128(r + 1, r + 1)));
}

#[test]
fn sqrt_price_round_trip_is_exact() {
    // decode keeps the price at full precision, so encoding it again
    // returns the original value.
    for x in [1u128, 2, 12345, 1u128 << 96, (1u128 << 96) + 5, 112045541949572279837463876454] {
        let price_x192 = decode_sqrt_price_x96(x);
        assert_eq!(isqrt(&price_x192), x);
    }
}
