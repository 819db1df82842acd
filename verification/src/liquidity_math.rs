//! Applying a signed liquidity delta to an unsigned liquidity amount.

use vstd::prelude::*;
use crate::errors::Error;

verus! {

/// `x + y` with the delta signed, failing with
/// `LiquiditySubtractionUnderflow` when the result would go below zero and
/// with `LiquidityAdditionOverflow` when it would not fit in 128 bits.
pub fn add_delta(x: u128, y: i128) -> (r: Result<u128, Error>)
    ensures
        y < 0 && x + y >= 0 ==> (r matches Ok(v) && v == x + y),
        y < 0 && x + y < 0 ==> r == Err::<u128, Error>(Error::LiquiditySubtractionUnderflow),
        y >= 0 && x + y <= u128::MAX ==> (r matches Ok(v) && v == x + y),
        y >= 0 && x + y > u128::MAX ==> r == Err::<u128, Error>(Error::LiquidityAdditionOverflow),
{
    if y < 0 {
        let m: u128 = ((-(y + 1)) as u128) + 1;
        if x >= m {
            Ok(x - m)
        } else {
            Err(Error::LiquiditySubtractionUnderflow)
        }
    } else {
        let m: u128 = y as u128;
        if x <= u128::MAX - m {
            Ok(x + m)
        } else {
            Err(Error::LiquidityAdditionOverflow)
        }
    }
}

} // verus!
