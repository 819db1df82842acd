//! Tests of the fixed-point arithmetic layer: full-precision
//! multiply-divide, the integer square root, bit scans, liquidity deltas and
//! the checked signed operations.

use clamm_sim::u256::U256;
use clamm_sim::i256::I256;
use clamm_sim::errors::Error;
use clamm_sim::full_math::{mul_div, mul_div_rounding_up, div_rounding_up};
use clamm_sim::bit_math::{most_significant_bit, least_significant_bits};
use clamm_sim::liquidity_math::add_delta;
use clamm_sim::low_gas_safe_math::{unsigned_add, signed_add, signed_sub};
use clamm_sim::safe_cast::to_int256;
use clamm_sim::swap::{sqrt, calc_sqrt_price_limit_from_price_impact};

fn u(x: u64) -> U256 {
    U256::from_u64(x)
}

#[test]
fn sqrt_test() {
    let a = U256::from_u64(529);
    assert_eq!(sqrt(&a).unwrap(), U256::from_u64(23));

    let a = U256::from_u64(100);
    assert_eq!(sqrt(&a).unwrap(), U256::from_u64(10));

    let a = U256::from_u64(1000);
    assert_eq!(sqrt(&a).unwrap(), U256::from_u64(31));

    let a = U256::from_u64(264257536);
    assert_eq!(sqrt(&a).unwrap(), U256::from_u64(16256));

    let a = U256::from_u64(103698759);
    assert_eq!(sqrt(&a).unwrap(), U256::from_u64(10183));

    let a = U256::from_u64(1);
    assert_eq!(sqrt(&a).unwrap(), U256::from_u64(1));
}

#[test]
fn sqrt_zero() {
    assert_eq!(sqrt(&U256::zero()).unwrap(), U256::zero());
}

#[test]
fn sqrt_wrapping_inputs_do_not_converge() {
    // from 2^128 upward the squaring in the iteration wraps; for most such
    // inputs the walk never reaches a fixed point, and the defensive checks
    // report the failure instead of a wrong root
    let a = U256::new(9, 6, 1, 0);
    assert_eq!(sqrt(&a), Err(Error::NotConverged));
}

#[test]
fn sqrt_large_values() {
    // (2^63 + 3)^2 = 2^126 + 6*2^63 + 9 is an exact square
    let root = U256::from_u128((1u128 << 63) + 3);
    let a = U256::new(9, 4611686018427387907u64, 0, 0);
    assert_eq!(sqrt(&a).unwrap(), root);
    // one less than a perfect square floors to the previous root
    let a = U256::new(8, 4611686018427387907u64, 0, 0);
    assert_eq!(sqrt(&a).unwrap(), U256::from_u128((1u128 << 63) + 2));
}

#[test]
fn calc_sqrt_price_limit_test() {
    let sqrt_price_x96 = U256::from_u64(1000000);
    assert_eq!(
        calc_sqrt_price_limit_from_price_impact(&sqrt_price_x96, 10, true).unwrap(),
        U256::from_u64(948600)
    );

    let sqrt_price_x96 = U256::new(u64::MAX, u64::MAX, 0xffffffffu64, 0);
    assert_eq!(
        calc_sqrt_price_limit_from_price_impact(&sqrt_price_x96, 100, true).unwrap(),
        U256::from_u64(0)
    );
}

#[test]
fn mul_div_small_values() {
    assert_eq!(mul_div(&u(6), &u(7), &u(2)).unwrap(), u(21));
    assert_eq!(mul_div(&u(10), &u(10), &u(3)).unwrap(), u(33));
    assert_eq!(mul_div_rounding_up(&u(10), &u(10), &u(3)).unwrap(), u(34));
    assert_eq!(mul_div_rounding_up(&u(10), &u(9), &u(3)).unwrap(), u(30));
}

#[test]
fn mul_div_full_precision() {
    // 2^128 * 2^128 / 2 = 2^255: the product alone needs more than 256 bits
    let big = U256::new(0, 0, 1, 0);
    let r = mul_div(&big, &big, &u(2)).unwrap();
    assert_eq!(r, U256::new(0, 0, 0, 0x8000000000000000u64));
}

#[test]
fn mul_div_errors() {
    let big = U256::new(0, 0, 1, 0);
    assert_eq!(mul_div(&big, &big, &u(1)), Err(Error::Overflow));
    assert_eq!(mul_div(&u(1), &u(1), &u(0)), Err(Error::DivisionByZero));
    assert_eq!(mul_div_rounding_up(&u(1), &u(1), &u(0)), Err(Error::DivisionByZero));
    let mx = U256::max_value();
    assert_eq!(mul_div_rounding_up(&mx, &mx, &mx).unwrap(), mx);
    assert_eq!(mul_div_rounding_up(&mx, &u(2), &u(1)), Err(Error::Overflow));
}

#[test]
fn div_rounding_up_values() {
    assert_eq!(div_rounding_up(&u(7), &u(2)), u(4));
    assert_eq!(div_rounding_up(&u(8), &u(2)), u(4));
    assert_eq!(div_rounding_up(&u(0), &u(5)), u(0));
}

#[test]
fn add_delta_cases() {
    assert_eq!(add_delta(100, -50), Ok(50));
    assert_eq!(add_delta(100, -150), Err(Error::LiquiditySubtractionUnderflow));
    assert_eq!(add_delta(u128::MAX - 10, 20), Err(Error::LiquidityAdditionOverflow));
    assert_eq!(add_delta(100, 50), Ok(150));
    assert_eq!(add_delta(0, 0), Ok(0));
}

#[test]
fn bit_scans() {
    assert_eq!(most_significant_bit(&u(1)).unwrap(), 0);
    assert_eq!(most_significant_bit(&u(255)).unwrap(), 7);
    assert_eq!(most_significant_bit(&U256::new(0, 0, 0, 0x8000000000000000u64)).unwrap(), 255);
    assert_eq!(most_significant_bit(&U256::zero()), Err(Error::ZeroInput));
    assert_eq!(least_significant_bits(&u(12)).unwrap(), 2);
    assert_eq!(least_significant_bits(&U256::new(0, 1, 0, 0)).unwrap(), 64);
    assert_eq!(least_significant_bits(&U256::zero()), Err(Error::ZeroInput));
}

#[test]
fn checked_word_arithmetic() {
    let mx = U256::max_value();
    assert_eq!(unsigned_add(&u(2), &u(3)).unwrap(), u(5));
    assert_eq!(unsigned_add(&mx, &u(1)), Err(Error::Overflow));

    let one = I256::from_i128(1);
    let m1 = I256::from_i128(-1);
    assert_eq!(signed_add(&one, &m1).unwrap(), I256::from_i128(0));
    assert_eq!(signed_add(&I256::max_value(), &one), Err(Error::Overflow));
    assert_eq!(signed_sub(&m1, &one).unwrap(), I256::from_i128(-2));
    assert_eq!(signed_sub(&I256::min_value(), &one), Err(Error::Overflow));
}

#[test]
fn to_int256_boundaries() {
    assert_eq!(to_int256(&u(7)).unwrap(), I256::from_i128(7));
    // 2^255 does not fit in the signed range
    let top = U256::new(0, 0, 0, 0x8000000000000000u64);
    assert_eq!(to_int256(&top), Err(Error::Overflow));
    let (below, _) = top.overflowing_sub(&u(1));
    assert!(to_int256(&below).is_ok());
}

#[test]
fn word_shifts_and_masks() {
    let v = U256::from_u64(0b101100);
    assert_eq!(v.shr(2), U256::from_u64(0b1011));
    assert_eq!(v.shl(1), U256::from_u64(0b1011000));
    assert_eq!(v.mod_pow2(4), U256::from_u64(0b1100));
    assert!(U256::from_u64(3).is_odd());
    assert!(!U256::from_u64(4).is_odd());
    let x = 123456789012345678901234567890u128;
    assert!(U256::from_u128(x).fits_u128());
    assert_eq!(U256::from_u128(x).to_u128(), x);
    assert!(!U256::new(0, 0, 1, 0).fits_u128());
}
