//! Checked 256-bit arithmetic: failures are reported, never wrapped away.

use vstd::prelude::*;
use crate::u256::{U256, p256};
use crate::i256::{I256, p255};
use crate::errors::Error;

verus! {

/// Unsigned sum, failing with `Overflow` exactly when it does not fit.
pub fn unsigned_add(x: &U256, y: &U256) -> (r: Result<U256, Error>)
    ensures
        x.as_nat() + y.as_nat() < p256() ==> (r matches Ok(v) && v.as_nat() == x.as_nat()
            + y.as_nat()),
        x.as_nat() + y.as_nat() >= p256() ==> r == Err::<U256, Error>(Error::Overflow),
{
    match x.checked_add(y) {
        Some(v) => Ok(v),
        None => Err(Error::Overflow),
    }
}

/// Signed sum, failing with `Overflow` exactly when it leaves the signed
/// 256-bit range.
pub fn signed_add(x: &I256, y: &I256) -> (r: Result<I256, Error>)
    ensures
        -(p255() as int) <= x.as_int() + y.as_int() < p255() as int ==> (r matches Ok(v)
            && v.as_int() == x.as_int() + y.as_int()),
        !(-(p255() as int) <= x.as_int() + y.as_int() < p255() as int) ==> r == Err::<
            I256,
            Error,
        >(Error::Overflow),
{
    match x.checked_add(y) {
        Some(v) => Ok(v),
        None => Err(Error::Overflow),
    }
}

/// Signed difference, failing with `Overflow` exactly when it leaves the
/// signed 256-bit range.
pub fn signed_sub(x: &I256, y: &I256) -> (r: Result<I256, Error>)
    ensures
        -(p255() as int) <= x.as_int() - y.as_int() < p255() as int ==> (r matches Ok(v)
            && v.as_int() == x.as_int() - y.as_int()),
        !(-(p255() as int) <= x.as_int() - y.as_int() < p255() as int) ==> r == Err::<
            I256,
            Error,
        >(Error::Overflow),
{
    match x.checked_sub(y) {
        Some(v) => Ok(v),
        None => Err(Error::Overflow),
    }
}

} // verus!
