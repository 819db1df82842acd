//! Bit scans over 256-bit words.

use vstd::prelude::*;
use vstd::arithmetic::power2::pow2;
use crate::u256::U256;
use crate::errors::Error;

verus! {

/// The index of the most significant set bit: `2^r <= x < 2^(r+1)`.
///
/// Fails with `ZeroInput` exactly when `x` is zero.
pub fn most_significant_bit(x: &U256) -> (r: Result<u8, Error>)
    ensures
        x.as_nat() == 0 ==> r == Err::<u8, Error>(Error::ZeroInput),
        x.as_nat() != 0 ==> (r matches Ok(m) && pow2(m as nat) <= x.as_nat() < pow2((m + 1) as nat)),
{
    if x.is_zero() {
        return Err(Error::ZeroInput);
    }
    let z = x.count_leading_zeros();
    Ok((255 - z) as u8)
}

/// The index of the least significant set bit: `x` is divisible by `2^r` and
/// `x / 2^r` is odd.
///
/// Fails with `ZeroInput` exactly when `x` is zero.
pub fn least_significant_bits(x: &U256) -> (r: Result<u8, Error>)
    ensures
        x.as_nat() == 0 ==> r == Err::<u8, Error>(Error::ZeroInput),
        x.as_nat() != 0 ==> (r matches Ok(m) && x.as_nat() % pow2(m as nat) == 0
            && (x.as_nat() / pow2(m as nat)) % 2 == 1),
{
    if x.is_zero() {
        return Err(Error::ZeroInput);
    }
    let z = x.count_trailing_zeros();
    Ok(z as u8)
}

} // verus!
