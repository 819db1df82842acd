//! Full-precision multiply-divide and rounding division.
//!
//! `mul_div` computes `floor(a*b/denominator)` through a 512-bit intermediate
//! product, failing when the true quotient does not fit in 256 bits;
//! `mul_div_rounding_up` is its ceiling counterpart.

use vstd::prelude::*;
use vstd::arithmetic::div_mod::{lemma_fundamental_div_mod, lemma_fundamental_div_mod_converse,
    lemma_div_is_ordered, lemma_div_is_ordered_by_denominator};
use vstd::arithmetic::mul::lemma_mul_inequality;
use crate::u256::{U256, p256};
use crate::errors::Error;

verus! {

/// `x / d` rounded toward positive infinity.
pub open spec fn ceil_div(x: nat, d: nat) -> nat
    recommends
        d != 0,
{
    ((x + d - 1) / d as int) as nat
}

/// The ceiling quotient is the floor quotient, plus one when the division
/// leaves a remainder.
pub proof fn lemma_ceil_div(x: nat, d: nat)
    requires
        d != 0,
    ensures
        ceil_div(x, d) == x / d + if x % d == 0 { 0int } else { 1int },
{
    let q = x as int / d as int;
    let r = x as int % d as int;
    lemma_fundamental_div_mod(x as int, d as int);
    if r == 0 {
        lemma_fundamental_div_mod_converse(x + d - 1, d as int, q, d - 1);
    } else {
        assert((q + 1) * d == q * d + d) by (nonlinear_arith);
        lemma_fundamental_div_mod_converse(x + d - 1, d as int, q + 1, r - 1);
    }
}

/// A result of words, seen at the value level.
pub open spec fn res_nat(r: Result<U256, Error>) -> Result<nat, Error> {
    match r {
        Ok(v) => Ok(v.as_nat()),
        Err(e) => Err(e),
    }
}

/// What `mul_div` returns, as a function of the values alone.
pub open spec fn spec_mul_div(a: nat, b: nat, d: nat) -> Result<nat, Error> {
    if d == 0 {
        Err(Error::DivisionByZero)
    } else if a * b / d < p256() {
        Ok(a * b / d)
    } else {
        Err(Error::Overflow)
    }
}

/// What `mul_div_rounding_up` returns, as a function of the values alone.
pub open spec fn spec_mul_div_rounding_up(a: nat, b: nat, d: nat) -> Result<nat, Error> {
    if d == 0 {
        Err(Error::DivisionByZero)
    } else if ceil_div(a * b, d) < p256() {
        Ok(ceil_div(a * b, d))
    } else {
        Err(Error::Overflow)
    }
}

/// `floor(a*b/denominator)` at full 512-bit intermediate precision.
///
/// Fails with `DivisionByZero` when `denominator` is zero and with
/// `Overflow` exactly when the true quotient needs more than 256 bits.
pub fn mul_div(a: &U256, b: &U256, denominator: &U256) -> (r: Result<U256, Error>)
    ensures
        denominator.as_nat() == 0 ==> r == Err::<U256, Error>(Error::DivisionByZero),
        denominator.as_nat() != 0 ==> {
            let q = a.as_nat() * b.as_nat() / denominator.as_nat();
            if q < p256() {
                r matches Ok(v) && v.as_nat() == q
            } else {
                r == Err::<U256, Error>(Error::Overflow)
            }
        },
        res_nat(r) == spec_mul_div(a.as_nat(), b.as_nat(), denominator.as_nat()),
{
    if denominator.is_zero() {
        return Err(Error::DivisionByZero);
    }
    let (hi, lo) = a.wide_mul(b);
    let (qh, ql, rem) = U256::div_rem_512(&hi, &lo, denominator);
    proof {
        lemma_fundamental_div_mod_converse(
            (a.as_nat() * b.as_nat()) as int,
            denominator.as_nat() as int,
            (qh.as_nat() * p256() + ql.as_nat()) as int,
            rem.as_nat() as int,
        );
    }
    if qh.is_zero() {
        Ok(ql)
    } else {
        proof {
            assert(qh.as_nat() * p256() >= p256());
        }
        Err(Error::Overflow)
    }
}

/// `ceil(a*b/denominator)` at full 512-bit intermediate precision.
///
/// Fails with `DivisionByZero` when `denominator` is zero and with
/// `Overflow` exactly when the rounded-up quotient needs more than 256 bits.
pub fn mul_div_rounding_up(a: &U256, b: &U256, denominator: &U256) -> (r: Result<U256, Error>)
    ensures
        denominator.as_nat() == 0 ==> r == Err::<U256, Error>(Error::DivisionByZero),
        denominator.as_nat() != 0 ==> {
            let q = ceil_div(a.as_nat() * b.as_nat(), denominator.as_nat());
            if q < p256() {
                r matches Ok(v) && v.as_nat() == q
            } else {
                r == Err::<U256, Error>(Error::Overflow)
            }
        },
        res_nat(r) == spec_mul_div_rounding_up(a.as_nat(), b.as_nat(), denominator.as_nat()),
{
    if denominator.is_zero() {
        return Err(Error::DivisionByZero);
    }
    let (hi, lo) = a.wide_mul(b);
    let (qh, ql, rem) = U256::div_rem_512(&hi, &lo, denominator);
    proof {
        lemma_fundamental_div_mod_converse(
            (a.as_nat() * b.as_nat()) as int,
            denominator.as_nat() as int,
            (qh.as_nat() * p256() + ql.as_nat()) as int,
            rem.as_nat() as int,
        );
        lemma_ceil_div(a.as_nat() * b.as_nat(), denominator.as_nat());
    }
    if !qh.is_zero() {
        proof {
            assert(qh.as_nat() * p256() >= p256());
        }
        return Err(Error::Overflow);
    }
    if rem.is_zero() {
        Ok(ql)
    } else {
        match ql.checked_add(&U256::one()) {
            Some(v) => Ok(v),
            None => Err(Error::Overflow),
        }
    }
}

/// `ceil(x/y)`.  The caller rules out a zero divisor, as the on-chain
/// arithmetic demands.
pub fn div_rounding_up(x: &U256, y: &U256) -> (r: U256)
    requires
        y.as_nat() != 0,
    ensures
        r.as_nat() == ceil_div(x.as_nat(), y.as_nat()),
{
    let (q, rm) = x.div_rem(y);
    proof {
        lemma_ceil_div(x.as_nat(), y.as_nat());
    }
    if rm.is_zero() {
        q
    } else {
        proof {
            if y.as_nat() == 1 {
                lemma_fundamental_div_mod(x.as_nat() as int, 1);
                assert(x.as_nat() % 1 == 0);
            }
            lemma_div_is_ordered(x.as_nat() as int, p256() as int - 1, 2);
            lemma_div_is_ordered_by_denominator(x.as_nat() as int, 2, y.as_nat() as int);
            assert(q.as_nat() + 1 < p256());
        }
        let (v, _) = q.overflowing_add(&U256::one());
        v
    }
}

} // verus!
