//! Checked conversion from unsigned to signed 256-bit integers.

use vstd::prelude::*;
use crate::u256::U256;
use crate::i256::{I256, p255};
use crate::errors::Error;

verus! {

/// Reads an unsigned word as a signed value, failing with `Overflow` exactly
/// when the value is `2^255` or more.
pub fn to_int256(a: &U256) -> (r: Result<I256, Error>)
    ensures
        a.as_nat() < p255() ==> (r matches Ok(v) && v.as_int() == a.as_nat()),
        a.as_nat() >= p255() ==> r == Err::<I256, Error>(Error::Overflow),
{
    let b = I256::from_raw(*a);
    if b.is_negative() {
        Err(Error::Overflow)
    } else {
        Ok(b)
    }
}

} // verus!
