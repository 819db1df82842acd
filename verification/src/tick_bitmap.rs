//! The sparse bitmap of initialized ticks: addressing, flipping, and the
//! scan for the next initialized tick within one word.

use vstd::prelude::*;
use std::collections::HashMap;
use vstd::arithmetic::power2::{pow2, lemma2_to64, lemma2_to64_rest, lemma_pow2_adds,
    lemma_pow2_pos, lemma_pow2_strictly_increases, lemma_pow2_unfold};
use vstd::arithmetic::div_mod::{lemma_fundamental_div_mod, lemma_fundamental_div_mod_converse,
    lemma_mod_bound, lemma_small_mod, lemma_div_is_ordered};
use vstd::arithmetic::mul::{lemma_mul_inequality, lemma_mul_is_commutative};
use crate::u256::{U256, p256, lemma_pow2_consts};
use crate::pool::PoolState;
use crate::bit_math;
use crate::tick_math::{log2floor, lemma_log2floor_unique, lemma_div_strict_bound, MIN_TICK,
    MAX_TICK};
use crate::errors::Error;

verus! {

broadcast use vstd::std_specs::hash::group_hash_axioms;

/// The number of trailing zero bits of a value (zero for zero).
pub open spec fn tz(x: nat) -> nat
    decreases x,
{
    if x == 0 || x % 2 == 1 {
        0
    } else {
        1 + tz(x / 2)
    }
}

/// `tz` is pinned down by divisibility and an odd quotient.
pub proof fn lemma_tz_unique(x: nat, r: nat)
    requires
        x % pow2(r) == 0,
        (x / pow2(r)) % 2 == 1,
    ensures
        tz(x) == r,
    decreases r,
{
    lemma2_to64();
    lemma_pow2_pos(r);
    lemma_fundamental_div_mod(x as int, pow2(r) as int);
    lemma_mod_bound(x as int, pow2(r) as int);
    let k = x / pow2(r);
    if r == 0 {
        lemma_fundamental_div_mod_converse(x as int, 1, x as int, 0);
        assert(x == k);
    } else {
        lemma_pow2_unfold(r);
        assert(pow2(r) == 2 * pow2((r - 1) as nat));
        assert(x == pow2(r) * k);
        assert(x == 2 * (pow2((r - 1) as nat) * k)) by (nonlinear_arith)
            requires
                x == pow2(r) * k,
                pow2(r) == 2 * pow2((r - 1) as nat),
        ;
        let h = pow2((r - 1) as nat) * k;
        lemma_fundamental_div_mod_converse(x as int, 2, h as int, 0);
        assert(x % 2 == 0);
        assert(x / 2 == h);
        lemma_pow2_pos((r - 1) as nat);
        assert(h % pow2((r - 1) as nat) == 0 && h / pow2((r - 1) as nat) == k) by {
            lemma_mul_is_commutative(pow2((r - 1) as nat) as int, k as int);
            lemma_fundamental_div_mod_converse(
                h as int, pow2((r - 1) as nat) as int, k as int, 0);
        }
        assert(x != 0) by {
            if x == 0 {
                lemma_fundamental_div_mod_converse(0, pow2(r) as int, 0, 0);
            }
        }
        lemma_tz_unique(h, (r - 1) as nat);
    }
}

/// Floor division of a bounded tick by a positive divisor.
pub fn floor_div_i32(a: i32, b: i32) -> (r: i32)
    requires
        1 <= b,
        -8388608 <= a < 8388608,
    ensures
        r as int == a as int / b as int,
        a >= 0 ==> 0 <= r <= a,
        a < 0 ==> a <= r < 0,
{
    proof {
        lemma_fundamental_div_mod(a as int, b as int);
        lemma_mod_bound(a as int, b as int);
    }
    if a >= 0 {
        let q: u32 = (a as u32) / (b as u32);
        proof {
            lemma_div_is_ordered(a as int, a as int, b as int);
            if b == 1 {
                lemma_fundamental_div_mod_converse(a as int, 1, a as int, 0);
            } else {
                lemma_mul_inequality(1, b as int, a as int + 1);
                lemma_mul_is_commutative(b as int, a as int + 1);
                lemma_div_strict_bound(a as nat, b as nat, a as nat + 1);
            }
        }
        q as i32
    } else {
        let u: u32 = (-(a + 1)) as u32;
        let qp: u32 = u / (b as u32);
        proof {
            lemma_fundamental_div_mod(u as int, b as int);
            lemma_mod_bound(u as int, b as int);
            let qq = u as int / b as int;
            let rr = u as int % b as int;
            assert((-(qq + 1)) * b as int == -(qq * b as int) - b) by (nonlinear_arith);
            assert(b as int * qq == qq * b as int) by (nonlinear_arith);
            lemma_fundamental_div_mod_converse(a as int, b as int, -(qq + 1), b - 1 - rr);
            if b == 1 {
                lemma_fundamental_div_mod_converse(u as int, 1, u as int, 0);
            } else {
                lemma_mul_inequality(1, b as int, u as int + 1);
                lemma_mul_is_commutative(b as int, u as int + 1);
                lemma_div_strict_bound(u as nat, b as nat, u as nat + 1);
            }
        }
        -((qp + 1) as i32)
    }
}

/// The word index and bit index addressing a tick in the bitmap: the tick's
/// floor quotient and remainder by 256.
pub open spec fn spec_position(tick: int) -> (int, int) {
    (tick / 256, tick % 256)
}

/// Computes the position in the bitmap where the initialized bit for a tick
/// lives: the word key, and the bit within that word.
pub fn position(tick: i32) -> (r: (i16, u8))
    requires
        -8388608 <= tick < 8388608,
    ensures
        r.0 as int == spec_position(tick as int).0,
        r.1 as int == spec_position(tick as int).1,
{
    let word32 = floor_div_i32(tick, 256);
    let word_pos: i16 = word32 as i16;
    proof {
        lemma_fundamental_div_mod(tick as int, 256);
        lemma_mod_bound(tick as int, 256);
    }
    let bit_pos: u8 = (tick - word32 * 256) as u8;
    (word_pos, bit_pos)
}

/// Whether `tick` is a multiple of `spacing`.
pub fn is_spaced(tick: i32, spacing: i32) -> (r: bool)
    requires
        1 <= spacing,
        -8388608 <= tick < 8388608,
    ensures
        r <==> (tick as int) % (spacing as int) == 0,
{
    let q = floor_div_i32(tick, spacing);
    proof {
        lemma_fundamental_div_mod(tick as int, spacing as int);
        lemma_mod_bound(tick as int, spacing as int);
        lemma_mul_is_commutative(q as int, spacing as int);
        assert((q as int) * (spacing as int) == tick as int - (tick as int) % (spacing as int));
        assert(-8388608 * 2147483647 <= (q as int) * (spacing as int) <= 8388608 * 2147483647)
            by (nonlinear_arith)
            requires
                -8388608 <= q as int <= 8388608,
                1 <= spacing as int <= 2147483647,
        ;
    }
    (tick as i64) == (q as i64) * (spacing as i64)
}

/// What one bit flip does to a bitmap word.
pub open spec fn spec_flip_word(word: nat, bp: nat) -> nat {
    if (word / pow2(bp)) % 2 == 1 {
        (word - pow2(bp)) as nat
    } else {
        (word + pow2(bp)) as nat
    }
}

/// Flips the initialized bit for a tick, creating the word if it was not
/// loaded yet.
///
/// Fails with `TickNotSpaced` exactly when the tick is not a multiple of the
/// tick spacing; the mapping is then unchanged.
#[verifier::rlimit(100)]
pub fn flip_tick(mapping: &mut HashMap<i16, U256>, tick: i32, tick_spacing: i32) -> (r: Result<
    (),
    Error,
>)
    requires
        1 <= tick_spacing,
        MIN_TICK <= tick <= MAX_TICK,
    ensures
        (tick as int) % (tick_spacing as int) != 0 ==> r == Err::<(), Error>(Error::TickNotSpaced)
            && final(mapping)@ == old(mapping)@,
        (tick as int) % (tick_spacing as int) == 0 ==> r == Ok::<(), Error>(()) && ({
            let (wp, bp) = spec_position(tick as int);
            let old_word = if old(mapping)@.contains_key(wp as i16) {
                old(mapping)@[wp as i16].as_nat()
            } else {
                0nat
            };
            final(mapping)@.contains_key(wp as i16) && final(mapping)@ == old(mapping)@.insert(
                wp as i16, final(mapping)@[wp as i16]) && final(mapping)@[wp as i16].as_nat()
                == spec_flip_word(old_word, bp as nat)
        }),
{
    if !is_spaced(tick, tick_spacing) {
        return Err(Error::TickNotSpaced);
    }
    let (word_pos, bit_pos) = position(tick);
    let word = match mapping.get(&word_pos) {
        Some(w) => *w,
        None => U256::zero(),
    };
    proof {
        lemma_pow2_pos(bit_pos as nat);
        lemma_fundamental_div_mod(word.as_nat() as int, pow2(bit_pos as nat) as int);
        lemma_mod_bound(word.as_nat() as int, pow2(bit_pos as nat) as int);
    }
    let mask = U256::pow2_exec(bit_pos as u32);
    let shifted = word.shr(bit_pos as u32);
    let new_word = if shifted.is_odd() {
        proof {
            assert(word.as_nat() >= pow2(bit_pos as nat)) by {
                let q = word.as_nat() / pow2(bit_pos as nat);
                assert(q >= 1);
                lemma_mul_inequality(1, q as int, pow2(bit_pos as nat) as int);
                lemma_mul_is_commutative(q as int, pow2(bit_pos as nat) as int);
            }
        }
        let (w, _) = word.overflowing_sub(&mask);
        w
    } else {
        proof {
            // the bit is clear, so setting it cannot carry out of the word
            let bp = bit_pos as nat;
            lemma_pow2_consts();
            lemma_pow2_adds((256 - bp) as nat, bp);
            if word.as_nat() + pow2(bp) >= p256() {
                let q = word.as_nat() / pow2(bp);
                assert(word.as_nat() < pow2((256 - bp) as nat) * pow2(bp));
                lemma_div_strict_bound(word.as_nat(), pow2(bp), pow2((256 - bp) as nat));
                assert((p256() - pow2(bp)) as int == (pow2((256 - bp) as nat) - 1) * pow2(bp))
                    by (nonlinear_arith)
                    requires
                        p256() == pow2((256 - bp) as nat) * pow2(bp),
                ;
                lemma_fundamental_div_mod_converse(
                    ((pow2((256 - bp) as nat) - 1) * pow2(bp)) as int, pow2(bp) as int,
                    pow2((256 - bp) as nat) as int - 1, 0);
                lemma_div_is_ordered(
                    ((pow2((256 - bp) as nat) - 1) * pow2(bp)) as int, word.as_nat() as int,
                    pow2(bp) as int);
                assert(q == pow2((256 - bp) as nat) - 1);
                // an all-ones upper field is odd, contradicting the clear bit
                assert(256 - bp >= 1);
                lemma_pow2_unfold((256 - bp) as nat);
                lemma_fundamental_div_mod_converse(
                    q as int, 2, pow2((256 - bp - 1) as nat) as int - 1, 1);
                assert(false);
            }
        }
        let (w, _) = word.overflowing_add(&mask);
        w
    };
    mapping.insert(word_pos, new_word);
    Ok(())
}

/// What the one-word scan returns: the nearest initialized tick at or below
/// (`lte`) or strictly above the given tick within its bitmap word, or the
/// word's edge when no bit is set there.
#[verifier::opaque]
pub open spec fn spec_next_initialized_tick(bitmap: Map<i16, U256>, tick_spacing: int, tick: int,
    lte: bool) -> Result<(int, bool), Error> {
    let compressed = tick / tick_spacing;
    if lte {
        let (wp, bp) = spec_position(compressed);
        if !bitmap.contains_key(wp as i16) {
            Err(Error::WordNotLoaded)
        } else {
            let word = bitmap[wp as i16].as_nat();
            let masked = word % pow2((bp + 1) as nat);
            if masked != 0 {
                Ok(((compressed - (bp - log2floor(masked))) * tick_spacing, true))
            } else {
                Ok(((compressed - bp) * tick_spacing, false))
            }
        }
    } else {
        let c1 = compressed + 1;
        let (wp, bp) = spec_position(c1);
        if !bitmap.contains_key(wp as i16) {
            Err(Error::WordNotLoaded)
        } else {
            let word = bitmap[wp as i16].as_nat();
            let masked = (word - (word % pow2(bp as nat))) as nat;
            if masked != 0 {
                Ok(((c1 + (tz(masked) - bp)) * tick_spacing, true))
            } else {
                Ok(((c1 + (255 - bp)) * tick_spacing, false))
            }
        }
    }
}

/// The downward half of the one-word scan.
#[verifier::rlimit(100)]
fn scan_word_lte(pool: &PoolState, tick: i32) -> (r: Result<(i32, bool), Error>)
    requires
        pool.wf(),
        -8388607 <= tick <= 8388606,
    ensures
        ({
            let s = spec_next_initialized_tick(
                pool.tick_bitmap@, pool.tick_spacing as int, tick as int, true);
            match r {
                Ok(v) => s == Ok::<(int, bool), Error>((v.0 as int, v.1)),
                Err(e) => s == Err::<(int, bool), Error>(e),
            }
        }),
{
    proof {
        reveal(spec_next_initialized_tick);
    }
    let spacing = pool.tick_spacing;
    let compressed = floor_div_i32(tick, spacing);
    let ghost cc = compressed as int;
    let ghost ss = spacing as int;
    proof {
        lemma_fundamental_div_mod(tick as int, spacing as int);
        lemma_mod_bound(tick as int, spacing as int);
        lemma2_to64();
        lemma2_to64_rest();
        // the product of the floor quotient with the divisor stays within
        // one spacing below the tick, so all candidates fit in 32 bits
        assert(cc * ss <= tick as int && (tick as int) < cc * ss + ss) by (nonlinear_arith)
            requires
                tick as int == ss * cc + (tick as int) % ss,
                0 <= (tick as int) % ss < ss,
        ;
    }
        let (word_pos, bit_pos) = position(compressed);
        let word = match pool.tick_bitmap.get(&word_pos) {
            Some(w) => *w,
            None => {
                return Err(Error::WordNotLoaded);
            },
        };
        let masked = if bit_pos == 255 {
            proof {
                lemma_pow2_consts();
                lemma_small_mod(word.as_nat(), pow2(256));
            }
            word
        } else {
            word.mod_pow2(bit_pos as u32 + 1)
        };
        if !masked.is_zero() {
            let msb = match bit_math::most_significant_bit(&masked) {
                Ok(m) => m,
                Err(_) => {
                    proof {
                        assert(false);
                    }
                    0
                },
            };
            proof {
                lemma_log2floor_unique(masked.as_nat(), msb as nat);
                if msb > bit_pos {
                    if msb as nat > bit_pos as nat + 1 {
                        lemma_pow2_strictly_increases((bit_pos + 1) as nat, msb as nat);
                    }
                    lemma_pow2_pos((bit_pos + 1) as nat);
                    if bit_pos != 255 {
                        lemma_mod_bound(word.as_nat() as int, pow2((bit_pos + 1) as nat) as int);
                    }
                    assert(false);
                }
            }
            let j: u8 = bit_pos - msb;
            proof {
                let jj = j as int;
                assert(cc * ss - jj * ss == (cc - jj) * ss) by (nonlinear_arith);
                assert(0 <= jj * ss <= 255 * 887272) by (nonlinear_arith)
                    requires
                        0 <= jj <= 255,
                        1 <= ss <= 887272,
                ;
            }
            let next64: i64 = (compressed as i64 - (j as i64)) * (spacing as i64);
            proof {
                assert(next64 == (cc - j as int) * ss);
                assert(-2147483648 <= next64 <= 2147483647);
                assert(spec_next_initialized_tick(pool.tick_bitmap@, ss, tick as int, true)
                    == Ok::<(int, bool), Error>(((cc - (compressed as int % 256
                    - log2floor(masked.as_nat()))) * ss, true)));
                assert(cc - j as int == cc - (compressed as int % 256 - log2floor(
                    masked.as_nat())));
            }
            Ok((next64 as i32, true))
        } else {
            proof {
                let jj = bit_pos as int;
                assert(cc * ss - jj * ss == (cc - jj) * ss) by (nonlinear_arith);
                assert(0 <= jj * ss <= 255 * 887272) by (nonlinear_arith)
                    requires
                        0 <= jj <= 255,
                        1 <= ss <= 887272,
                ;
            }
            let next64: i64 = (compressed as i64 - (bit_pos as i64)) * (spacing as i64);
            proof {
                assert(next64 == (cc - bit_pos as int) * ss);
                assert(-2147483648 <= next64 <= 2147483647);
                assert(spec_next_initialized_tick(pool.tick_bitmap@, ss, tick as int, true)
                    == Ok::<(int, bool), Error>(((cc - compressed as int % 256) * ss, false)));
            }
            Ok((next64 as i32, false))
        }
}

/// The upward half of the one-word scan.
#[verifier::rlimit(100)]
fn scan_word_gt(pool: &PoolState, tick: i32) -> (r: Result<(i32, bool), Error>)
    requires
        pool.wf(),
        -8388607 <= tick <= 8388606,
    ensures
        ({
            let s = spec_next_initialized_tick(
                pool.tick_bitmap@, pool.tick_spacing as int, tick as int, false);
            match r {
                Ok(v) => s == Ok::<(int, bool), Error>((v.0 as int, v.1)),
                Err(e) => s == Err::<(int, bool), Error>(e),
            }
        }),
{
    proof {
        reveal(spec_next_initialized_tick);
    }
    let spacing = pool.tick_spacing;
    let compressed = floor_div_i32(tick, spacing);
    let ghost cc = compressed as int;
    let ghost ss = spacing as int;
    proof {
        lemma_fundamental_div_mod(tick as int, spacing as int);
        lemma_mod_bound(tick as int, spacing as int);
        lemma2_to64();
        lemma2_to64_rest();
        // the product of the floor quotient with the divisor stays within
        // one spacing below the tick, so all candidates fit in 32 bits
        assert(cc * ss <= tick as int && (tick as int) < cc * ss + ss) by (nonlinear_arith)
            requires
                tick as int == ss * cc + (tick as int) % ss,
                0 <= (tick as int) % ss < ss,
        ;
    }
        let (word_pos, bit_pos) = position(compressed + 1);
        let word = match pool.tick_bitmap.get(&word_pos) {
            Some(w) => *w,
            None => {
                return Err(Error::WordNotLoaded);
            },
        };
        let low = word.mod_pow2(bit_pos as u32);
        proof {
            lemma_pow2_pos(bit_pos as nat);
            lemma_mod_bound(word.as_nat() as int, pow2(bit_pos as nat) as int);
            lemma_fundamental_div_mod(word.as_nat() as int, pow2(bit_pos as nat) as int);
            vstd::arithmetic::mul::lemma_mul_nonnegative(pow2(bit_pos as nat) as int,
                (word.as_nat() / pow2(bit_pos as nat)) as int);
        }
        let (masked, _) = word.overflowing_sub(&low);
        if !masked.is_zero() {
            let lsb = match bit_math::least_significant_bits(&masked) {
                Ok(m) => m,
                Err(_) => {
                    proof {
                        assert(false);
                    }
                    0
                },
            };
            proof {
                lemma_tz_unique(masked.as_nat(), lsb as nat);
                // the masked word is divisible by 2^bit_pos, so its lowest
                // set bit is at or above bit_pos
                let bp = bit_pos as nat;
                let w = word.as_nat();
                assert(masked.as_nat() % pow2(bp) == 0 && masked.as_nat() / pow2(bp) == w / pow2(
                    bp)) by {
                    lemma_fundamental_div_mod(w as int, pow2(bp) as int);
                    lemma_mul_is_commutative(pow2(bp) as int, (w / pow2(bp)) as int);
                    lemma_fundamental_div_mod_converse(
                        masked.as_nat() as int, pow2(bp) as int, (w / pow2(bp)) as int, 0);
                }
                if (lsb as nat) < bp {
                    let l = lsb as nat;
                    let k = masked.as_nat() / pow2(bp);
                    lemma_fundamental_div_mod(masked.as_nat() as int, pow2(bp) as int);
                    assert(masked.as_nat() == pow2(bp) * k);
                    lemma_pow2_adds(l, (bp - l) as nat);
                    assert(masked.as_nat() == pow2(l) * (pow2((bp - l) as nat) * k))
                        by (nonlinear_arith)
                        requires
                            masked.as_nat() == pow2(bp) * k,
                            pow2(bp) == pow2(l) * pow2((bp - l) as nat),
                    ;
                    lemma_pow2_pos(l);
                    lemma_mul_is_commutative(pow2(l) as int, (pow2((bp - l) as nat) * k) as int);
                    lemma_fundamental_div_mod_converse(masked.as_nat() as int, pow2(l) as int,
                        (pow2((bp - l) as nat) * k) as int, 0);
                    assert(masked.as_nat() / pow2(l) == pow2((bp - l) as nat) * k);
                    lemma_pow2_unfold((bp - l) as nat);
                    assert(pow2((bp - l) as nat) * k == 2 * (pow2((bp - l - 1) as nat) * k))
                        by (nonlinear_arith)
                        requires
                            pow2((bp - l) as nat) == 2 * pow2((bp - l - 1) as nat),
                    ;
                    lemma_fundamental_div_mod_converse(
                        (pow2((bp - l) as nat) * k) as int, 2,
                        (pow2((bp - l - 1) as nat) * k) as int, 0);
                    assert(false);
                }
            }
            let j: u8 = lsb - bit_pos;
            proof {
                let jj = j as int;
                assert(cc * ss + (1 + jj) * ss == (cc + 1 + jj) * ss) by (nonlinear_arith);
                assert(0 <= (1 + jj) * ss <= 256 * 887272) by (nonlinear_arith)
                    requires
                        0 <= jj <= 255,
                        1 <= ss <= 887272,
                ;
            }
            let next64: i64 = (compressed as i64 + 1 + (j as i64)) * (spacing as i64);
            proof {
                assert(next64 == (cc + 1 + j as int) * ss);
                assert(-2147483648 <= next64 <= 2147483647);
                assert(spec_next_initialized_tick(pool.tick_bitmap@, ss, tick as int, false)
                    == Ok::<(int, bool), Error>(((cc + 1 + (tz(masked.as_nat()) - (cc + 1)
                    % 256)) * ss, true)));
            }
            Ok((next64 as i32, true))
        } else {
            proof {
                let jj = 255 - bit_pos as int;
                assert(cc * ss + (1 + jj) * ss == (cc + 1 + jj) * ss) by (nonlinear_arith);
                assert(0 <= (1 + jj) * ss <= 256 * 887272) by (nonlinear_arith)
                    requires
                        0 <= jj <= 255,
                        1 <= ss <= 887272,
                ;
            }
            let next64: i64 = (compressed as i64 + 1 + (255 - bit_pos as i64)) * (
            spacing as i64);
            proof {
                assert(next64 == (cc + 1 + (255 - bit_pos as int)) * ss);
                assert(-2147483648 <= next64 <= 2147483647);
                assert(spec_next_initialized_tick(pool.tick_bitmap@, ss, tick as int, false)
                    == Ok::<(int, bool), Error>(((cc + 1 + (255 - (cc + 1) % 256)) * ss,
                    false)));
            }
            Ok((next64 as i32, false))
        }
}

/// The next initialized tick within one bitmap word, searching down when
/// `lte` holds and up otherwise, together with whether an initialized tick
/// was found (else the word's edge is returned).
///
/// Fails with `WordNotLoaded` exactly when the needed word is outside the
/// loaded window: the caller should widen the window and retry.
pub fn next_initialized_tick_within_one_word(pool: &PoolState, tick: i32, lte: bool) -> (r: Result<
    (i32, bool),
    Error,
>)
    requires
        pool.wf(),
        -8388607 <= tick <= 8388606,
    ensures
        ({
            let s = spec_next_initialized_tick(
                pool.tick_bitmap@, pool.tick_spacing as int, tick as int, lte);
            match r {
                Ok(v) => s == Ok::<(int, bool), Error>((v.0 as int, v.1)),
                Err(e) => s == Err::<(int, bool), Error>(e),
            }
        }),
{
    if lte {
        scan_word_lte(pool, tick)
    } else {
        scan_word_gt(pool, tick)
    }
}

} // verus!
