//! Wide multiply/divide primitives and the scaled-decimal helpers.

use shadeswap::math::{
    checked_mul_div, mul_div_floor, mul_u128_full, multiply, substraction, Decimal,
    DECIMAL_FRACTIONAL,
};
use shadeswap::types::Error;

#[test]
fn full_multiply_small_values() {
    let (hi, lo) = mul_u128_full(6, 7);
    assert_eq!(hi, 0);
    assert_eq!(lo, 42);
}

#[test]
fn full_multiply_overflows_into_high_half() {
    let (hi, lo) = mul_u128_full(1u128 << 127, 4);
    assert_eq!(hi, 2);
    assert_eq!(lo, 0);
}

#[test]
fn mul_div_floor_wide_intermediate() {
    // The 130-bit product only fits after the division.
    let a = 1u128 << 100;
    let b = 1u128 << 30;
    let d = 1u128 << 31;
    assert_eq!(mul_div_floor(a, b, d), 1u128 << 99);
}

#[test]
fn mul_div_floor_truncates() {
    assert_eq!(mul_div_floor(7, 3, 2), 10);
    assert_eq!(mul_div_floor(999, 3, 100), 29);
}

#[test]
fn checked_mul_div_exact() {
    assert_eq!(checked_mul_div(6, 7, 2), Ok(21));
}

#[test]
fn checked_mul_div_overflow() {
    assert_eq!(checked_mul_div(u128::MAX, u128::MAX, 1), Err(Error::Overflow));
}

#[test]
fn substraction_subtracts_scaled_values() {
    let a = Decimal(5_500_000_000);
    let b = Decimal(1_500_000_000);
    let r = substraction(a, b).unwrap();
    assert_eq!(r.0, 4_000_000_000);
}

#[test]
fn substraction_underflow() {
    let a = Decimal(1);
    let b = Decimal(2);
    assert_eq!(substraction(a, b), Err(Error::Underflow));
}

#[test]
fn multiply_rescales_by_one_factor() {
    // 2.5 * 4.0 == 10.0 in nine-digit fixed point.
    let a = Decimal(2_500_000_000);
    let b = Decimal(4 * DECIMAL_FRACTIONAL);
    let r = multiply(a, b);
    assert_eq!(r.0, 10 * DECIMAL_FRACTIONAL);
}

#[test]
fn multiply_truncates_toward_zero() {
    // 0.000000001 * 0.5 truncates to zero.
    let a = Decimal(1);
    let b = Decimal(500_000_000);
    assert_eq!(multiply(a, b).0, 0);
}
