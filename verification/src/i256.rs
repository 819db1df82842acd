//! Signed 256-bit integers in two's complement, layered over [`U256`].
//!
//! The raw word is the two's-complement encoding; `as_int` is the
//! mathematical value.  All operations are verified against the unsigned
//! word's contracts — no outside code is involved.

use vstd::prelude::*;
use crate::u256::{U256, p256};

verus! {

/// `2^255`, the boundary between non-negative and negative encodings.
pub open spec fn p255() -> nat {
    0x8000000000000000000000000000000000000000000000000000000000000000nat
}

/// The two's-complement word encoding a signed value.
pub open spec fn raw_of(v: int) -> nat {
    if v >= 0 {
        v as nat
    } else {
        (v + p256()) as nat
    }
}

/// A signed 256-bit integer: the two's-complement reading of a word.
#[derive(Clone, Copy, Debug, PartialEq, Eq, Structural)]
pub struct I256 {
    pub raw: U256,
}

impl I256 {
    /// The mathematical value of the integer.
    pub open spec fn as_int(self) -> int {
        if self.raw.as_nat() >= p255() {
            self.raw.as_nat() - p256()
        } else {
            self.raw.as_nat() as int
        }
    }

    /// The value zero.
    pub fn zero() -> (r: I256)
        ensures
            r.as_int() == 0,
    {
        I256 { raw: U256::zero() }
    }

    /// The largest value, `2^255 - 1`.
    pub fn max_value() -> (r: I256)
        ensures
            r.as_int() == p255() - 1,
    {
        I256 { raw: U256::new(u64::MAX, u64::MAX, u64::MAX, 0x7fffffffffffffffu64) }
    }

    /// The smallest value, `-2^255`.
    pub fn min_value() -> (r: I256)
        ensures
            r.as_int() == -(p255() as int),
    {
        I256 { raw: U256::new(0, 0, 0, 0x8000000000000000u64) }
    }

    /// Reads a word as its two's-complement value.
    pub fn from_raw(raw: U256) -> (r: I256)
        ensures
            r.raw == raw,
    {
        I256 { raw }
    }

    /// Embeds a 128-bit signed value.
    pub fn from_i128(x: i128) -> (r: I256)
        ensures
            r.as_int() == x,
    {
        if x >= 0 {
            I256 { raw: U256::from_u128(x as u128) }
        } else {
            let m: u128 = ((-(x + 1)) as u128) + 1;
            let (v, _) = U256::zero().overflowing_sub(&U256::from_u128(m));
            I256 { raw: v }
        }
    }

    /// True exactly when the value is negative.
    pub fn is_negative(&self) -> (r: bool)
        ensures
            r <==> self.as_int() < 0,
    {
        self.raw.l3 >= 0x8000000000000000u64
    }

    /// True exactly when the value is zero.
    pub fn is_zero(&self) -> (r: bool)
        ensures
            r <==> self.as_int() == 0,
    {
        self.raw.is_zero()
    }

    /// Strict comparison of values.
    pub fn lt(&self, other: &I256) -> (r: bool)
        ensures
            r <==> self.as_int() < other.as_int(),
    {
        let sa = self.is_negative();
        let sb = other.is_negative();
        if sa != sb {
            sa
        } else {
            self.raw.lt(&other.raw)
        }
    }

    /// Non-strict comparison of values.
    pub fn le(&self, other: &I256) -> (r: bool)
        ensures
            r <==> self.as_int() <= other.as_int(),
    {
        !other.lt(self)
    }

    /// Sum, or `None` when it leaves the signed 256-bit range.
    pub fn checked_add(&self, other: &I256) -> (r: Option<I256>)
        ensures
            r is Some <==> -(p255() as int) <= self.as_int() + other.as_int() < p255() as int,
            match r {
                Some(v) => v.as_int() == self.as_int() + other.as_int(),
                None => true,
            },
    {
        let (s, _) = self.raw.overflowing_add(&other.raw);
        let res = I256 { raw: s };
        let sa = self.is_negative();
        let sb = other.is_negative();
        let sr = res.is_negative();
        if sa == sb && sr != sa {
            None
        } else {
            Some(res)
        }
    }

    /// Difference, or `None` when it leaves the signed 256-bit range.
    pub fn checked_sub(&self, other: &I256) -> (r: Option<I256>)
        ensures
            r is Some <==> -(p255() as int) <= self.as_int() - other.as_int() < p255() as int,
            match r {
                Some(v) => v.as_int() == self.as_int() - other.as_int(),
                None => true,
            },
    {
        let (d, _) = self.raw.overflowing_sub(&other.raw);
        let res = I256 { raw: d };
        let sa = self.is_negative();
        let sb = other.is_negative();
        let sr = res.is_negative();
        if sa != sb && sr != sa {
            None
        } else {
            Some(res)
        }
    }

    /// Negation, or `None` for the smallest value.
    pub fn checked_neg(&self) -> (r: Option<I256>)
        ensures
            r is Some <==> self.as_int() != -(p255() as int),
            match r {
                Some(v) => v.as_int() == -self.as_int(),
                None => true,
            },
    {
        I256::zero().checked_sub(self)
    }

    /// The raw word encodes the value in two's complement.
    pub proof fn lemma_raw(self)
        ensures
            self.raw.as_nat() == raw_of(self.as_int()),
    {
    }

    /// The absolute value, as an unsigned word.
    pub fn unsigned_abs(&self) -> (r: U256)
        ensures
            r.as_nat() as int == if self.as_int() < 0 { -self.as_int() } else { self.as_int() },
    {
        if self.is_negative() {
            let (v, _) = U256::zero().overflowing_sub(&self.raw);
            v
        } else {
            self.raw
        }
    }
}

} // verus!
