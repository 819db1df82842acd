//! Unsigned 256-bit words, the base type of all pool arithmetic.
//!
//! A word is four little-endian 64-bit limbs; `as_nat` is its mathematical
//! value and every contract in the crate speaks in terms of it.  Addition,
//! subtraction, comparison and the shift/mask helpers are verified here from
//! first principles; the full 512-bit multiply and divide are performed by
//! the `alloy` big-integer library behind trusted wrappers whose contracts
//! state exactly the Euclidean identities those operations satisfy.

use vstd::prelude::*;
use vstd::arithmetic::power2::{pow2, lemma2_to64, lemma2_to64_rest, lemma_pow2_adds, lemma_pow2_pos, lemma_pow2_strictly_increases};
use vstd::arithmetic::div_mod::{lemma_fundamental_div_mod, lemma_fundamental_div_mod_converse};
use vstd::arithmetic::mul::lemma_mul_inequality;
use vstd::bits::{lemma_u128_shr_is_div, lemma_u64_shl_is_mul};
use alloy::primitives::U512;

verus! {

/// One more than the largest value a word can hold: `2^256`.
pub open spec fn p256() -> nat {
    0x10000000000000000000000000000000000000000000000000000000000000000nat
}

/// `2^128`.
pub open spec fn p128() -> nat {
    0x100000000000000000000000000000000nat
}

/// `2^64`, the weight of one limb.
pub open spec fn p64() -> nat {
    0x10000000000000000nat
}

/// An unsigned 256-bit integer, stored as four 64-bit limbs, least
/// significant first.
#[derive(Clone, Copy, Debug, PartialEq, Eq, Structural)]
pub struct U256 {
    pub l0: u64,
    pub l1: u64,
    pub l2: u64,
    pub l3: u64,
}

impl U256 {
    /// The mathematical value of the word.
    pub open spec fn as_nat(self) -> nat {
        (self.l0 as nat)
        + (self.l1 as nat) * 0x10000000000000000nat
        + (self.l2 as nat) * 0x100000000000000000000000000000000nat
        + (self.l3 as nat) * 0x1000000000000000000000000000000000000000000000000nat
    }

    /// Builds a word from its four limbs, least significant first.
    pub fn new(l0: u64, l1: u64, l2: u64, l3: u64) -> (r: U256)
        ensures
            r.l0 == l0 && r.l1 == l1 && r.l2 == l2 && r.l3 == l3,
    {
        U256 { l0, l1, l2, l3 }
    }

    /// The word of value zero.
    pub fn zero() -> (r: U256)
        ensures
            r.as_nat() == 0,
    {
        U256 { l0: 0, l1: 0, l2: 0, l3: 0 }
    }

    /// The word of value one.
    pub fn one() -> (r: U256)
        ensures
            r.as_nat() == 1,
    {
        U256 { l0: 1, l1: 0, l2: 0, l3: 0 }
    }

    /// The largest representable word, `2^256 - 1`.
    pub fn max_value() -> (r: U256)
        ensures
            r.as_nat() == p256() - 1,
    {
        U256 { l0: u64::MAX, l1: u64::MAX, l2: u64::MAX, l3: u64::MAX }
    }

    /// Embeds a 64-bit value.
    pub fn from_u64(x: u64) -> (r: U256)
        ensures
            r.as_nat() == x,
    {
        U256 { l0: x, l1: 0, l2: 0, l3: 0 }
    }

    /// Embeds a 128-bit value.
    pub fn from_u128(x: u128) -> (r: U256)
        ensures
            r.as_nat() == x,
    {
        let lo: u64 = (x % 0x10000000000000000u128) as u64;
        let hi: u64 = (x >> 64) as u64;
        proof {
            lemma_u128_shr_is_div(x, 64);
            lemma2_to64();
            lemma2_to64_rest();
            lemma_fundamental_div_mod(x as int, p64() as int);
        }
        U256 { l0: lo, l1: hi, l2: 0, l3: 0 }
    }

    /// True exactly when the word is zero.
    pub fn is_zero(&self) -> (r: bool)
        ensures
            r <==> self.as_nat() == 0,
    {
        self.l0 == 0 && self.l1 == 0 && self.l2 == 0 && self.l3 == 0
    }

    /// True exactly when the value fits in 128 bits.
    pub fn fits_u128(&self) -> (r: bool)
        ensures
            r <==> self.as_nat() < p128(),
    {
        self.l2 == 0 && self.l3 == 0
    }

    /// The value as a 128-bit integer; the caller shows it fits.
    pub fn to_u128(&self) -> (r: u128)
        requires
            self.as_nat() < p128(),
        ensures
            r == self.as_nat(),
    {
        self.l0 as u128 + (self.l1 as u128) * 0x10000000000000000u128
    }

    /// Strict comparison of values.
    pub fn lt(&self, other: &U256) -> (r: bool)
        ensures
            r <==> self.as_nat() < other.as_nat(),
    {
        if self.l3 != other.l3 {
            self.l3 < other.l3
        } else if self.l2 != other.l2 {
            self.l2 < other.l2
        } else if self.l1 != other.l1 {
            self.l1 < other.l1
        } else {
            self.l0 < other.l0
        }
    }

    /// Non-strict comparison of values.
    pub fn le(&self, other: &U256) -> (r: bool)
        ensures
            r <==> self.as_nat() <= other.as_nat(),
    {
        !other.lt(self)
    }

    /// Sum modulo `2^256`, with the carry out.
    pub fn overflowing_add(&self, other: &U256) -> (r: (U256, bool))
        ensures
            r.0.as_nat() + (if r.1 { p256() } else { 0nat }) == self.as_nat() + other.as_nat(),
            r.1 <==> self.as_nat() + other.as_nat() >= p256(),
    {
        let s0: u128 = self.l0 as u128 + other.l0 as u128;
        let c1: u128 = if s0 >= 0x10000000000000000u128 { 1 } else { 0 };
        let r0: u64 = (s0 - c1 * 0x10000000000000000u128) as u64;
        let s1: u128 = self.l1 as u128 + other.l1 as u128 + c1;
        let c2: u128 = if s1 >= 0x10000000000000000u128 { 1 } else { 0 };
        let r1: u64 = (s1 - c2 * 0x10000000000000000u128) as u64;
        let s2: u128 = self.l2 as u128 + other.l2 as u128 + c2;
        let c3: u128 = if s2 >= 0x10000000000000000u128 { 1 } else { 0 };
        let r2: u64 = (s2 - c3 * 0x10000000000000000u128) as u64;
        let s3: u128 = self.l3 as u128 + other.l3 as u128 + c3;
        let c4: u128 = if s3 >= 0x10000000000000000u128 { 1 } else { 0 };
        let r3: u64 = (s3 - c4 * 0x10000000000000000u128) as u64;
        (U256 { l0: r0, l1: r1, l2: r2, l3: r3 }, c4 == 1)
    }

    /// Sum, or `None` when it would not fit.
    pub fn checked_add(&self, other: &U256) -> (r: Option<U256>)
        ensures
            match r {
                Some(v) => v.as_nat() == self.as_nat() + other.as_nat(),
                None => self.as_nat() + other.as_nat() >= p256(),
            },
            r is Some <==> self.as_nat() + other.as_nat() < p256(),
    {
        let (v, o) = self.overflowing_add(other);
        if o { None } else { Some(v) }
    }

    /// Difference modulo `2^256`, with the borrow out.
    pub fn overflowing_sub(&self, other: &U256) -> (r: (U256, bool))
        ensures
            r.0.as_nat() + other.as_nat() == self.as_nat() + (if r.1 { p256() } else { 0nat }),
            r.1 <==> self.as_nat() < other.as_nat(),
    {
        let t0: u128 = self.l0 as u128 + 0x10000000000000000u128 - other.l0 as u128;
        let b1: u128 = if t0 < 0x10000000000000000u128 { 1 } else { 0 };
        let r0: u64 = (t0 - (1 - b1) * 0x10000000000000000u128) as u64;
        let t1: u128 = self.l1 as u128 + 0x10000000000000000u128 - other.l1 as u128 - b1;
        let b2: u128 = if t1 < 0x10000000000000000u128 { 1 } else { 0 };
        let r1: u64 = (t1 - (1 - b2) * 0x10000000000000000u128) as u64;
        let t2: u128 = self.l2 as u128 + 0x10000000000000000u128 - other.l2 as u128 - b2;
        let b3: u128 = if t2 < 0x10000000000000000u128 { 1 } else { 0 };
        let r2: u64 = (t2 - (1 - b3) * 0x10000000000000000u128) as u64;
        let t3: u128 = self.l3 as u128 + 0x10000000000000000u128 - other.l3 as u128 - b3;
        let b4: u128 = if t3 < 0x10000000000000000u128 { 1 } else { 0 };
        let r3: u64 = (t3 - (1 - b4) * 0x10000000000000000u128) as u64;
        (U256 { l0: r0, l1: r1, l2: r2, l3: r3 }, b4 == 1)
    }

    /// Difference, or `None` when the subtrahend is larger.
    pub fn checked_sub(&self, other: &U256) -> (r: Option<U256>)
        ensures
            match r {
                Some(v) => v.as_nat() == self.as_nat() - other.as_nat(),
                None => self.as_nat() < other.as_nat(),
            },
            r is Some <==> self.as_nat() >= other.as_nat(),
    {
        let (v, b) = self.overflowing_sub(other);
        if b { None } else { Some(v) }
    }
}

/// The named powers of two agree with `pow2`.
pub proof fn lemma_pow2_consts()
    ensures
        pow2(64) == p64(),
        pow2(128) == p128(),
        pow2(192) == 0x1000000000000000000000000000000000000000000000000nat,
        pow2(256) == p256(),
{
    lemma2_to64();
    lemma2_to64_rest();
    lemma_pow2_adds(64, 64);
    lemma_pow2_adds(128, 64);
    lemma_pow2_adds(192, 64);
}

impl U256 {
    /// Full 512-bit product of two words, returned as (high, low) halves.
    ///
    /// Relies on `alloy`'s 512-bit `Uint` multiplication: both factors are
    /// below `2^256`, so the product fits in 512 bits and is exact.
    #[verifier::external_body]
    pub fn wide_mul(&self, other: &U256) -> (r: (U256, U256))
        ensures
            r.0.as_nat() * p256() + r.1.as_nat() == self.as_nat() * other.as_nat(),
    {
        let x = U512::from_limbs([self.l0, self.l1, self.l2, self.l3, 0, 0, 0, 0]);
        let y = U512::from_limbs([other.l0, other.l1, other.l2, other.l3, 0, 0, 0, 0]);
        let p = x * y;
        let l = p.as_limbs();
        (U256::new(l[4], l[5], l[6], l[7]), U256::new(l[0], l[1], l[2], l[3]))
    }

    /// Euclidean division of a 512-bit numerator (given as high and low
    /// words) by a nonzero word: quotient as (high, low) halves, then the
    /// remainder.
    ///
    /// Relies on `alloy`'s `Uint::div_rem`, which computes floor quotient and
    /// remainder and panics only on a zero divisor, which the precondition
    /// rules out.
    #[verifier::external_body]
    pub fn div_rem_512(hi: &U256, lo: &U256, d: &U256) -> (r: (U256, U256, U256))
        requires
            d.as_nat() != 0,
        ensures
            (r.0.as_nat() * p256() + r.1.as_nat()) * d.as_nat() + r.2.as_nat()
                == hi.as_nat() * p256() + lo.as_nat(),
            r.2.as_nat() < d.as_nat(),
    {
        let n = U512::from_limbs([lo.l0, lo.l1, lo.l2, lo.l3, hi.l0, hi.l1, hi.l2, hi.l3]);
        let dw = U512::from_limbs([d.l0, d.l1, d.l2, d.l3, 0, 0, 0, 0]);
        let (q, rem) = n.div_rem(dw);
        let a = q.as_limbs();
        let b = rem.as_limbs();
        (U256::new(a[4], a[5], a[6], a[7]), U256::new(a[0], a[1], a[2], a[3]),
            U256::new(b[0], b[1], b[2], b[3]))
    }

    /// The number of leading zero bits.
    ///
    /// Relies on `alloy`'s `Uint::leading_zeros`: for a nonzero word it
    /// locates the most significant set bit, so the value lies between
    /// `2^(255-r)` inclusive and `2^(256-r)` exclusive.
    #[verifier::external_body]
    pub fn count_leading_zeros(&self) -> (r: u32)
        ensures
            self.as_nat() == 0 ==> r == 256,
            self.as_nat() != 0 ==> r < 256 && pow2((255 - r) as nat) <= self.as_nat()
                && self.as_nat() < pow2((256 - r) as nat),
    {
        alloy::primitives::U256::from_limbs([self.l0, self.l1, self.l2, self.l3]).leading_zeros() as u32
    }

    /// The number of trailing zero bits.
    ///
    /// Relies on `alloy`'s `Uint::trailing_zeros`: for a nonzero word it
    /// locates the least significant set bit, so the value is divisible by
    /// `2^r` and the quotient is odd.
    #[verifier::external_body]
    pub fn count_trailing_zeros(&self) -> (r: u32)
        ensures
            self.as_nat() == 0 ==> r == 256,
            self.as_nat() != 0 ==> r < 256 && self.as_nat() % pow2(r as nat) == 0
                && (self.as_nat() / pow2(r as nat)) % 2 == 1,
    {
        alloy::primitives::U256::from_limbs([self.l0, self.l1, self.l2, self.l3]).trailing_zeros() as u32
    }

    /// Floor quotient and remainder by a nonzero word.
    pub fn div_rem(&self, d: &U256) -> (r: (U256, U256))
        requires
            d.as_nat() != 0,
        ensures
            r.0.as_nat() == self.as_nat() / d.as_nat(),
            r.1.as_nat() == self.as_nat() % d.as_nat(),
    {
        let z = U256::zero();
        let (qh, ql, rem) = U256::div_rem_512(&z, self, d);
        proof {
            lemma_mul_inequality(1, d.as_nat() as int, (qh.as_nat() * p256() + ql.as_nat()) as int);
            if qh.as_nat() != 0 {
                assert(qh.as_nat() * p256() >= p256());
                assert(false);
            }
            lemma_fundamental_div_mod_converse(
                self.as_nat() as int, d.as_nat() as int, ql.as_nat() as int, rem.as_nat() as int);
        }
        (ql, rem)
    }

    /// Floor quotient by a nonzero word.
    pub fn div(&self, d: &U256) -> (r: U256)
        requires
            d.as_nat() != 0,
        ensures
            r.as_nat() == self.as_nat() / d.as_nat(),
    {
        self.div_rem(d).0
    }

    /// Remainder by a nonzero word.
    pub fn rem(&self, d: &U256) -> (r: U256)
        requires
            d.as_nat() != 0,
        ensures
            r.as_nat() == self.as_nat() % d.as_nat(),
    {
        self.div_rem(d).1
    }

    /// Product modulo `2^256`.
    pub fn wrapping_mul(&self, other: &U256) -> (r: U256)
        ensures
            r.as_nat() == (self.as_nat() * other.as_nat()) % p256(),
    {
        let (hi, lo) = self.wide_mul(other);
        proof {
            lemma_fundamental_div_mod_converse(
                (self.as_nat() * other.as_nat()) as int, p256() as int,
                hi.as_nat() as int, lo.as_nat() as int);
        }
        lo
    }

    /// Product, or `None` when it would not fit.
    pub fn checked_mul(&self, other: &U256) -> (r: Option<U256>)
        ensures
            match r {
                Some(v) => v.as_nat() == self.as_nat() * other.as_nat(),
                None => self.as_nat() * other.as_nat() >= p256(),
            },
            r is Some <==> self.as_nat() * other.as_nat() < p256(),
    {
        let (hi, lo) = self.wide_mul(other);
        if hi.is_zero() {
            Some(lo)
        } else {
            proof {
                assert(hi.as_nat() * p256() >= p256());
            }
            None
        }
    }

    /// The word of value `2^n`.
    pub fn pow2_exec(n: u32) -> (r: U256)
        requires
            n < 256,
        ensures
            r.as_nat() == pow2(n as nat),
    {
        let q: u32 = n / 64;
        let s: u32 = n % 64;
        let limb: u64 = 1u64 << s;
        proof {
            lemma_pow2_strictly_increases(s as nat, 64);
            lemma2_to64();
            lemma2_to64_rest();
            lemma_u64_shl_is_mul(1u64, s as u64);
            lemma_pow2_consts();
            lemma_pow2_adds(64, s as nat);
            lemma_pow2_adds(128, s as nat);
            lemma_pow2_adds(192, s as nat);
        }
        if q == 0 {
            U256 { l0: limb, l1: 0, l2: 0, l3: 0 }
        } else if q == 1 {
            U256 { l0: 0, l1: limb, l2: 0, l3: 0 }
        } else if q == 2 {
            U256 { l0: 0, l1: 0, l2: limb, l3: 0 }
        } else {
            U256 { l0: 0, l1: 0, l2: 0, l3: limb }
        }
    }

    /// Left shift: the value times `2^n`, modulo `2^256`.
    pub fn shl(&self, n: u32) -> (r: U256)
        requires
            n < 256,
        ensures
            r.as_nat() == (self.as_nat() * pow2(n as nat)) % p256(),
    {
        let p = U256::pow2_exec(n);
        self.wrapping_mul(&p)
    }

    /// Right shift: the floor of the value divided by `2^n`.
    pub fn shr(&self, n: u32) -> (r: U256)
        requires
            n < 256,
        ensures
            r.as_nat() == self.as_nat() / pow2(n as nat),
    {
        let p = U256::pow2_exec(n);
        proof {
            lemma_pow2_pos(n as nat);
        }
        self.div(&p)
    }

    /// True exactly when the value is odd.
    pub fn is_odd(&self) -> (r: bool)
        ensures
            r <==> self.as_nat() % 2 == 1,
    {
        proof {
            let h = (self.l1 as nat) * 0x8000000000000000nat
                + (self.l2 as nat) * 0x80000000000000000000000000000000nat
                + (self.l3 as nat) * 0x800000000000000000000000000000000000000000000000nat;
            assert(self.as_nat() == 2 * h + self.l0);
            vstd::arithmetic::div_mod::lemma_mod_multiples_vanish(
                h as int, self.l0 as int, 2);
        }
        self.l0 % 2 == 1
    }

    /// Equality of values (equivalently, of limbs).
    pub fn eq_val(&self, other: &U256) -> (r: bool)
        ensures
            r <==> self.as_nat() == other.as_nat(),
    {
        proof {
            if self.as_nat() == other.as_nat() {
                lemma_as_nat_injective(*self, *other);
            }
        }
        self.l0 == other.l0 && self.l1 == other.l1 && self.l2 == other.l2 && self.l3 == other.l3
    }

    /// Left shift known not to overflow: exactly the value times `2^n`.
    pub fn shl_exact(&self, n: u32) -> (r: U256)
        requires
            n < 256,
            self.as_nat() * pow2(n as nat) < p256(),
        ensures
            r.as_nat() == self.as_nat() * pow2(n as nat),
    {
        proof {
            vstd::arithmetic::div_mod::lemma_small_mod(self.as_nat() * pow2(n as nat), p256());
        }
        self.shl(n)
    }

    /// The value modulo `2^n`: the low `n` bits.
    pub fn mod_pow2(&self, n: u32) -> (r: U256)
        requires
            n < 256,
        ensures
            r.as_nat() == self.as_nat() % pow2(n as nat),
    {
        let p = U256::pow2_exec(n);
        proof {
            lemma_pow2_pos(n as nat);
        }
        self.rem(&p)
    }
}

/// Two words of equal value have equal limbs: the representation is unique.
pub proof fn lemma_as_nat_injective(a: U256, b: U256)
    requires
        a.as_nat() == b.as_nat(),
    ensures
        a == b,
{
    let ha = (a.l1 as nat) + (a.l2 as nat) * 0x10000000000000000nat
        + (a.l3 as nat) * 0x100000000000000000000000000000000nat;
    let hb = (b.l1 as nat) + (b.l2 as nat) * 0x10000000000000000nat
        + (b.l3 as nat) * 0x100000000000000000000000000000000nat;
    lemma_fundamental_div_mod_converse(a.as_nat() as int, p64() as int, ha as int, a.l0 as int);
    lemma_fundamental_div_mod_converse(b.as_nat() as int, p64() as int, hb as int, b.l0 as int);
    assert(ha == hb);
    let ha2 = (a.l2 as nat) + (a.l3 as nat) * 0x10000000000000000;
    let hb2 = (b.l2 as nat) + (b.l3 as nat) * 0x10000000000000000;
    lemma_fundamental_div_mod_converse(ha as int, p64() as int, ha2 as int, a.l1 as int);
    lemma_fundamental_div_mod_converse(hb as int, p64() as int, hb2 as int, b.l1 as int);
    assert(ha2 == hb2);
    lemma_fundamental_div_mod_converse(ha2 as int, p64() as int, a.l3 as int, a.l2 as int);
    lemma_fundamental_div_mod_converse(hb2 as int, p64() as int, b.l3 as int, b.l2 as int);
}

} // verus!
