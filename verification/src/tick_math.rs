//! Conversion between tick indices and Q64.96 square-root prices.
//!
//! `get_sqrt_ratio_at_tick` evaluates `sqrt(1.0001^tick) * 2^96` by
//! table-driven binary exponentiation over twenty Q128 magic factors;
//! `get_tick_at_sqrt_ratio` inverts it with a binary logarithm.  Both carry
//! contracts equating them with spec twins that mirror the on-chain
//! fixed-point algorithm step by step.

use vstd::prelude::*;
use vstd::arithmetic::power2::{pow2, lemma2_to64, lemma2_to64_rest, lemma_pow2_adds,
    lemma_pow2_subtracts, lemma_pow2_pos, lemma_pow2_strictly_increases};
use vstd::arithmetic::div_mod::{lemma_fundamental_div_mod, lemma_fundamental_div_mod_converse,
    lemma_div_is_ordered, lemma_small_mod};
use vstd::arithmetic::mul::{lemma_mul_inequality, lemma_mul_strict_inequality,
    lemma_mul_unary_negation, lemma_mul_is_distributive_sub_other_way};
use crate::u256::{U256, p256, p128, lemma_pow2_consts};
use crate::full_math::{self, res_nat, ceil_div, lemma_ceil_div};
use crate::errors::Error;

verus! {

/// The lowest tick index: log base 1.0001 of 2^-128.
pub const MIN_TICK: i32 = -887272;

/// The highest tick index.
pub const MAX_TICK: i32 = 887272;

/// The square-root price at `MIN_TICK`.
pub open spec fn min_sqrt_ratio_val() -> nat {
    4295128739
}

/// The square-root price at `MAX_TICK`.
pub open spec fn max_sqrt_ratio_val() -> nat {
    6743328256752651558 + 17280870778742802505 * 0x10000000000000000nat
        + 4294805859 * 0x100000000000000000000000000000000nat
}

/// The square-root price at `MIN_TICK`, as a word.
pub fn min_sqrt_ratio() -> (r: U256)
    ensures
        r.as_nat() == min_sqrt_ratio_val(),
{
    U256::new(4295128739u64, 0, 0, 0)
}

/// The square-root price at `MAX_TICK`, as a word.
pub fn max_sqrt_ratio() -> (r: U256)
    ensures
        r.as_nat() == max_sqrt_ratio_val(),
{
    U256::new(6743328256752651558u64, 17280870778742802505u64, 4294805859u64, 0)
}

/// The Q128 magic factor `sqrt(1.0001^(-2^k)) * 2^128` used by the
/// exponentiation, for each bit position `k`.
pub open spec fn tick_factor(k: nat) -> nat {
    if k == 0 { 12262481743371124737 + 18445821805675392311 * 0x10000000000000000nat }
    else if k == 1 { 6459403834229662010 + 18444899583751176498 * 0x10000000000000000nat }
    else if k == 2 { 17226890335427755468 + 18443055278223354162 * 0x10000000000000000nat }
    else if k == 3 { 2032852871939366096 + 18439367220385604838 * 0x10000000000000000nat }
    else if k == 4 { 14545316742740207172 + 18431993317065449817 * 0x10000000000000000nat }
    else if k == 5 { 5129152022828963008 + 18417254355718160513 * 0x10000000000000000nat }
    else if k == 6 { 4894419605888772193 + 18387811781193591352 * 0x10000000000000000nat }
    else if k == 7 { 1280255884321894483 + 18329067761203520168 * 0x10000000000000000nat }
    else if k == 8 { 15924666964335305636 + 18212142134806087854 * 0x10000000000000000nat }
    else if k == 9 { 8010504389359918676 + 17980523815641551639 * 0x10000000000000000nat }
    else if k == 10 { 10668036004952895731 + 17526086738831147013 * 0x10000000000000000nat }
    else if k == 11 { 4878133418470705625 + 16651378430235024244 * 0x10000000000000000nat }
    else if k == 12 { 9537173718739605541 + 15030750278693429944 * 0x10000000000000000nat }
    else if k == 13 { 9972618978014552549 + 12247334978882834399 * 0x10000000000000000nat }
    else if k == 14 { 10428997489610666743 + 8131365268884726200 * 0x10000000000000000nat }
    else if k == 15 { 9305304367709015974 + 3584323654723342297 * 0x10000000000000000nat }
    else if k == 16 { 14301143598189091785 + 696457651847595233 * 0x10000000000000000nat }
    else if k == 17 { 7393154844743099908 + 26294789957452057 * 0x10000000000000000nat }
    else if k == 18 { 2209338891292245656 + 37481735321082 * 0x10000000000000000nat }
    else { 10518117631919034274 + 76158723 * 0x10000000000000000nat }
}

/// The magic factor for bit `k`, as a word.
fn tick_factor_exec(k: u32) -> (r: U256)
    requires
        k < 20,
    ensures
        r.as_nat() == tick_factor(k as nat),
        r.as_nat() < p128(),
{
    if k == 0 { U256::new(12262481743371124737u64, 18445821805675392311u64, 0, 0) }
    else if k == 1 { U256::new(6459403834229662010u64, 18444899583751176498u64, 0, 0) }
    else if k == 2 { U256::new(17226890335427755468u64, 18443055278223354162u64, 0, 0) }
    else if k == 3 { U256::new(2032852871939366096u64, 18439367220385604838u64, 0, 0) }
    else if k == 4 { U256::new(14545316742740207172u64, 18431993317065449817u64, 0, 0) }
    else if k == 5 { U256::new(5129152022828963008u64, 18417254355718160513u64, 0, 0) }
    else if k == 6 { U256::new(4894419605888772193u64, 18387811781193591352u64, 0, 0) }
    else if k == 7 { U256::new(1280255884321894483u64, 18329067761203520168u64, 0, 0) }
    else if k == 8 { U256::new(15924666964335305636u64, 18212142134806087854u64, 0, 0) }
    else if k == 9 { U256::new(8010504389359918676u64, 17980523815641551639u64, 0, 0) }
    else if k == 10 { U256::new(10668036004952895731u64, 17526086738831147013u64, 0, 0) }
    else if k == 11 { U256::new(4878133418470705625u64, 16651378430235024244u64, 0, 0) }
    else if k == 12 { U256::new(9537173718739605541u64, 15030750278693429944u64, 0, 0) }
    else if k == 13 { U256::new(9972618978014552549u64, 12247334978882834399u64, 0, 0) }
    else if k == 14 { U256::new(10428997489610666743u64, 8131365268884726200u64, 0, 0) }
    else if k == 15 { U256::new(9305304367709015974u64, 3584323654723342297u64, 0, 0) }
    else if k == 16 { U256::new(14301143598189091785u64, 696457651847595233u64, 0, 0) }
    else if k == 17 { U256::new(7393154844743099908u64, 26294789957452057u64, 0, 0) }
    else if k == 18 { U256::new(2209338891292245656u64, 37481735321082u64, 0, 0) }
    else { U256::new(10518117631919034274u64, 76158723u64, 0, 0) }
}

/// `x / d < b` whenever `x < b * d`.
pub proof fn lemma_div_strict_bound(x: nat, d: nat, b: nat)
    requires
        d > 0,
        x < b * d,
    ensures
        x / d < b,
{
    lemma_fundamental_div_mod(x as int, d as int);
    vstd::arithmetic::div_mod::lemma_mod_bound(x as int, d as int);
    let q = x as int / d as int;
    let r = x as int % d as int;
    if q >= b {
        assert(x as int >= b * d) by (nonlinear_arith)
            requires
                x as int == d as int * q + r,
                r >= 0,
                q >= b as int,
                d > 0,
        ;
    }
}

/// One conditional multiply-and-shift step of the exponentiation.
pub open spec fn spec_ratio_step(acc: nat, abs_tick: nat, k: nat) -> nat {
    if (abs_tick / pow2(k)) % 2 == 1 {
        (acc * tick_factor(k)) / pow2(128)
    } else {
        acc
    }
}

/// The accumulated ratio after the steps for bits `0` through `k`.
pub open spec fn spec_ratio_upto(abs_tick: nat, k: nat) -> nat
    decreases k,
{
    if k == 0 {
        if abs_tick % 2 == 1 { tick_factor(0) } else { pow2(128) }
    } else {
        spec_ratio_step(spec_ratio_upto(abs_tick, (k - 1) as nat), abs_tick, k)
    }
}

/// `floor(acc * factor(k) / 2^128)`, with the bound carried along.
fn ratio_mul(acc: &U256, k: u32) -> (r: U256)
    requires
        k < 20,
        acc.as_nat() <= p128(),
    ensures
        r.as_nat() == (acc.as_nat() * tick_factor(k as nat)) / pow2(128),
        r.as_nat() < p128(),
{
    let c = tick_factor_exec(k);
    proof {
        lemma_pow2_consts();
        lemma_mul_inequality(acc.as_nat() as int, p128() as int, c.as_nat() as int);
        lemma_mul_inequality(c.as_nat() as int, p128() as int, p128() as int);
        assert(acc.as_nat() * c.as_nat() < p128() * p128()) by {
            lemma_mul_strict_inequality(c.as_nat() as int, p128() as int, p128() as int);
        }
    }
    let (hi, lo) = acc.wide_mul(&c);
    proof {
        if hi.as_nat() != 0 {
            assert(hi.as_nat() * p256() >= p256());
        }
        lemma_div_strict_bound(acc.as_nat() * c.as_nat(), pow2(128), p128());
    }
    lo.shr(128)
}

/// What `get_sqrt_ratio_at_tick` returns, as a function of the tick alone:
/// the accumulated Q128 ratio, inverted for positive ticks, then cut down to
/// Q96 rounding up.
#[verifier::opaque]
pub open spec fn spec_sqrt_ratio_at_tick(tick: int) -> Result<nat, Error> {
    let abs_tick: nat = if tick < 0 { (-tick) as nat } else { tick as nat };
    if abs_tick > 887272 {
        Err(Error::TickOutOfBounds)
    } else {
        let r0 = spec_ratio_upto(abs_tick, 19);
        if tick > 0 && r0 == 0 {
            Err(Error::PriceOutOfBounds)
        } else {
            let r1: nat = if tick > 0 { ((p256() - 1) as nat) / r0 } else { r0 };
            Ok(r1 / pow2(32) + (if r1 % pow2(32) == 0 { 0nat } else { 1nat }))
        }
    }
}

/// The Q64.96 square-root price at a tick: `sqrt(1.0001^tick) * 2^96`,
/// rounded up to Q96.
///
/// Fails with `TickOutOfBounds` exactly when `|tick| > MAX_TICK`.
#[verifier::rlimit(50)]
pub fn get_sqrt_ratio_at_tick(tick: i32) -> (r: Result<U256, Error>)
    ensures
        res_nat(r) == spec_sqrt_ratio_at_tick(tick as int),
{
    proof {
        reveal(spec_sqrt_ratio_at_tick);
    }
    let abs_tick: u32 = if tick >= 0 {
        tick as u32
    } else {
        ((-(tick + 1)) as u32) + 1
    };
    if abs_tick > 887272 {
        return Err(Error::TickOutOfBounds);
    }
    let ghost t = abs_tick as nat;
    let mut ratio: U256 = if abs_tick % 2 == 1 {
        tick_factor_exec(0)
    } else {
        U256::pow2_exec(128)
    };
    proof {
        lemma_pow2_consts();
        lemma2_to64();
        assert(ratio.as_nat() == spec_ratio_upto(t, 0));
    }
    let mut k: u32 = 1;
    let mut bitk: u32 = 2;
    while k < 20
        invariant
            1 <= k <= 20,
            bitk == pow2(k as nat),
            ratio.as_nat() == spec_ratio_upto(t, (k - 1) as nat),
            ratio.as_nat() <= p128(),
            t == abs_tick,
        decreases 20 - k,
    {
        proof {
            lemma_pow2_pos(k as nat);
        }
        if (abs_tick / bitk) % 2 == 1 {
            ratio = ratio_mul(&ratio, k);
        }
        proof {
            assert(ratio.as_nat() == spec_ratio_upto(t, k as nat));
            lemma_pow2_adds(k as nat, 1);
            lemma2_to64();
            lemma_pow2_strictly_increases(k as nat, 21);
            lemma2_to64_rest();
            assert(pow2(21) == 0x200000) by {
                lemma_pow2_adds(20, 1);
            }
        }
        k = k + 1;
        bitk = bitk * 2;
    }
    let r1: U256 = if tick > 0 {
        if ratio.is_zero() {
            return Err(Error::PriceOutOfBounds);
        }
        U256::max_value().div(&ratio)
    } else {
        ratio
    };
    let shifted = r1.shr(32);
    let remv = r1.mod_pow2(32);
    if remv.is_zero() {
        Ok(shifted)
    } else {
        proof {
            lemma_pow2_consts();
            lemma2_to64();
            lemma2_to64_rest();
            lemma_pow2_adds(192, 32);
            lemma_pow2_adds(224, 32);
            lemma_fundamental_div_mod_converse(
                p256() as int - 1, pow2(32) as int, pow2(224) as int - 1, pow2(32) as int - 1);
            lemma_div_is_ordered(r1.as_nat() as int, p256() as int - 1, pow2(32) as int);
        }
        let (v, _) = shifted.overflowing_add(&U256::one());
        Ok(v)
    }
}

/// `sqrt(1.0001) * 2^64` in fixed point: the multiplier taking the binary
/// logarithm to base `sqrt(1.0001)`.
pub open spec fn sqrt_10001_val() -> int {
    11745905768312294533int + 13863int * 0x10000000000000000int
}

/// The correction subtracted before the low tick candidate is read off.
pub open spec fn tick_low_const() -> int {
    6552757943157144234int + 184476617836266586int * 0x10000000000000000int
}

/// The correction added before the high tick candidate is read off.
pub open spec fn tick_high_const() -> int {
    4998474450511881007int + 15793544031827761793int * 0x10000000000000000int
}

/// The floor of the base-two logarithm.
pub open spec fn log2floor(x: nat) -> nat
    decreases x,
{
    if x < 2 {
        0
    } else {
        1 + log2floor(x / 2)
    }
}

/// `log2floor` is pinned down by a power-of-two bracket.
pub proof fn lemma_log2floor_unique(x: nat, m: nat)
    requires
        pow2(m) <= x < pow2(m + 1),
    ensures
        log2floor(x) == m,
    decreases m,
{
    lemma2_to64();
    if m == 0 {
        assert(pow2(1) == 2);
    } else {
        vstd::arithmetic::power2::lemma_pow2_unfold(m);
        vstd::arithmetic::power2::lemma_pow2_unfold((m + 1) as nat);
        assert(x >= 2);
        lemma_div_is_ordered(pow2(m) as int, x as int, 2);
        assert(pow2(m) / 2 == pow2((m - 1) as nat));
        lemma_div_strict_bound(x, 2, pow2(m));
        lemma_log2floor_unique(x / 2, (m - 1) as nat);
    }
}

/// Euclidean division of a negated magnitude is the negated ceiling.
pub proof fn lemma_floor_neg_div(m: nat, d: nat)
    requires
        d > 0,
    ensures
        (-(m as int)) / (d as int) == -(ceil_div(m, d) as int),
{
    lemma_ceil_div(m, d);
    lemma_fundamental_div_mod(m as int, d as int);
    vstd::arithmetic::div_mod::lemma_mod_bound(m as int, d as int);
    let qf = m as int / d as int;
    let rf = m as int % d as int;
    if rf == 0 {
        lemma_mul_unary_negation(qf, d as int);
        lemma_fundamental_div_mod_converse(-(m as int), d as int, -qf, 0);
    } else {
        assert((-(qf + 1)) * d as int == -(qf * d as int) - d) by (nonlinear_arith);
        lemma_fundamental_div_mod_converse(-(m as int), d as int, -(qf + 1), d - rf);
    }
}

/// The bits of the fractional binary logarithm contributed by positions `i`
/// down to `50`, from a mantissa normalised to `[2^127, 2^128)`.
pub open spec fn spec_log_bits(r: nat, i: int) -> nat
    decreases i - 49,
{
    if i < 50 {
        0
    } else {
        let sq = (r * r) / pow2(127);
        let f = sq / pow2(128);
        let r2 = if f == 1 { sq / 2 } else { sq };
        f * pow2(i as nat) + spec_log_bits(r2, i - 1)
    }
}

/// A result of tick indices, seen at the value level.
pub open spec fn res_tick(r: Result<i32, Error>) -> Result<int, Error> {
    match r {
        Ok(v) => Ok(v as int),
        Err(e) => Err(e),
    }
}

/// What `get_tick_at_sqrt_ratio` returns, as a function of the price alone:
/// a fixed-point binary logarithm scaled to base `sqrt(1.0001)`, two
/// candidate ticks one apart, and the bracketing check that picks between
/// them.
#[verifier::opaque]
pub open spec fn spec_tick_at_sqrt_ratio(price: nat) -> Result<int, Error> {
    if !(min_sqrt_ratio_val() <= price && price < max_sqrt_ratio_val()) {
        Err(Error::PriceOutOfBounds)
    } else {
        let ratio = price * pow2(32);
        let m = log2floor(ratio);
        let rn = if m >= 128 {
            ratio / pow2((m - 127) as nat)
        } else {
            ratio * pow2((127 - m) as nat)
        };
        let bits = spec_log_bits(rn, 63);
        let log2v: int = (m - 128) * pow2(64) + bits;
        let lsq: int = log2v * sqrt_10001_val();
        let tick_low: int = (lsq - tick_low_const()) / (pow2(128) as int);
        let tick_high: int = (lsq + tick_high_const()) / (pow2(128) as int);
        if tick_low == tick_high {
            Ok(tick_low)
        } else {
            match spec_sqrt_ratio_at_tick(tick_high) {
                Ok(rt) => if rt <= price { Ok(tick_high) } else { Ok(tick_low) },
                Err(e) => Err(e),
            }
        }
    }
}

/// Floor division by `2^128` of a sign-and-magnitude value, as a small
/// signed integer.
fn signed_shift_down_128(neg: bool, mag: &U256) -> (r: i32)
    requires
        mag.as_nat() < pow2(158),
    ensures
        r as int == (if neg { -(mag.as_nat() as int) } else { mag.as_nat() as int }) / (
        pow2(128) as int),
{
    proof {
        lemma_pow2_consts();
        lemma2_to64();
        lemma2_to64_rest();
        lemma_pow2_adds(128, 30);
        lemma_pow2_pos(128);
    }
    if !neg {
        let q = mag.shr(128);
        proof {
            lemma_div_strict_bound(mag.as_nat(), pow2(128), pow2(30));
        }
        q.l0 as i32
    } else {
        let p = U256::pow2_exec(128);
        let q = full_math::div_rounding_up(mag, &p);
        proof {
            lemma_floor_neg_div(mag.as_nat(), pow2(128));
            lemma_ceil_div(mag.as_nat(), pow2(128));
            lemma_div_strict_bound(mag.as_nat(), pow2(128), pow2(30));
        }
        -(q.l0 as i32)
    }
}

/// The tick whose price bracket contains the given Q64.96 square-root price.
///
/// Fails with `PriceOutOfBounds` exactly when the price lies outside
/// `[MIN_SQRT_RATIO, MAX_SQRT_RATIO)`.
#[verifier::rlimit(100)]
pub fn get_tick_at_sqrt_ratio(sqrt_price_x_96: &U256) -> (r: Result<i32, Error>)
    ensures
        res_tick(r) == spec_tick_at_sqrt_ratio(sqrt_price_x_96.as_nat()),
        r matches Ok(t) ==> -4194305 <= t <= 4194305,
{
    proof {
        reveal(spec_tick_at_sqrt_ratio);
    }
    let minr = min_sqrt_ratio();
    let maxr = max_sqrt_ratio();
    if sqrt_price_x_96.lt(&minr) || !sqrt_price_x_96.lt(&maxr) {
        return Err(Error::PriceOutOfBounds);
    }
    let ghost price = sqrt_price_x_96.as_nat();
    proof {
        lemma_pow2_consts();
        lemma2_to64();
        lemma2_to64_rest();
        lemma_pow2_adds(128, 32);
        lemma_pow2_adds(160, 32);
        assert(max_sqrt_ratio_val() < pow2(160));
        lemma_mul_strict_inequality(price as int, pow2(160) as int, pow2(32) as int);
        lemma_mul_inequality(pow2(32) as int, price as int, pow2(32) as int);
        lemma_pow2_adds(32, 32);
    }
    let ratio = sqrt_price_x_96.shl_exact(32);
    let clz = ratio.count_leading_zeros();
    let m: u32 = 255 - clz;
    proof {
        assert(ratio.as_nat() >= pow2(64));
        if m < 64 {
            if m + 1 < 64 {
                lemma_pow2_strictly_increases((m + 1) as nat, 64);
            }
            assert(false);
        }
        if m > 191 {
            lemma_pow2_strictly_increases(192, m as nat);
            lemma_pow2_adds(160, 32);
            assert(false);
        }
        lemma_log2floor_unique(ratio.as_nat(), m as nat);
    }
    let rn: U256 = if m >= 128 {
        let q = ratio.shr(m - 127);
        proof {
            lemma_div_is_ordered(pow2(m as nat) as int, ratio.as_nat() as int,
                pow2((m - 127) as nat) as int);
            lemma_pow2_subtracts((m - 127) as nat, m as nat);
            lemma_pow2_adds((m - 127) as nat, 128);
            lemma_div_strict_bound(ratio.as_nat(), pow2((m - 127) as nat), pow2(128));
            lemma_pow2_pos((m - 127) as nat);
        }
        q
    } else {
        proof {
            lemma_mul_strict_inequality(ratio.as_nat() as int, pow2((m + 1) as nat) as int,
                pow2((127 - m) as nat) as int);
            lemma_pow2_adds((m + 1) as nat, (127 - m) as nat);
            lemma_mul_inequality(pow2(m as nat) as int, ratio.as_nat() as int,
                pow2((127 - m) as nat) as int);
            lemma_pow2_adds(m as nat, (127 - m) as nat);
            lemma_pow2_strictly_increases(128, 256);
        }
        ratio.shl_exact(127 - m)
    };
    let ghost rn0 = rn.as_nat();
    let mut r = rn;
    let mut fbits: u64 = 0;
    let mut i: u32 = 63;
    while i >= 50
        invariant
            49 <= i <= 63,
            pow2(127) <= r.as_nat() < pow2(128),
            fbits + pow2((i + 1) as nat) <= pow2(64),
            spec_log_bits(rn0, 63) == fbits + spec_log_bits(r.as_nat(), i as int),
        decreases i,
    {
        let ghost r_head = r.as_nat();
        let ghost fb_head = fbits as nat;
        proof {
            lemma_pow2_consts();
            lemma2_to64();
            lemma2_to64_rest();
            lemma_mul_inequality(pow2(127) as int, r.as_nat() as int, pow2(127) as int);
            lemma_mul_inequality(pow2(127) as int, r.as_nat() as int, r.as_nat() as int);
            lemma_pow2_adds(127, 127);
            lemma_mul_inequality(r.as_nat() as int, pow2(128) as int - 1, r.as_nat() as int);
            lemma_mul_inequality(r.as_nat() as int, pow2(128) as int - 1, pow2(128) as int - 1);
            lemma_pow2_adds(128, 128);
            lemma_pow2_adds(129, 127);
            lemma_pow2_adds(128, 1);
        }
        let (hi, lo) = r.wide_mul(&r);
        proof {
            if hi.as_nat() != 0 {
                assert(hi.as_nat() * p256() >= p256());
            }
            lemma_div_is_ordered(pow2(254) as int, (r.as_nat() * r.as_nat()) as int,
                pow2(127) as int);
            lemma_pow2_subtracts(127, 254);
            lemma_div_strict_bound(r.as_nat() * r.as_nat(), pow2(127), pow2(129));
            lemma_pow2_pos(127);
        }
        let sq = lo.shr(127);
        let f = sq.shr(128);
        proof {
            lemma_div_strict_bound(sq.as_nat(), pow2(128), 2);
            lemma_fundamental_div_mod(sq.as_nat() as int, pow2(128) as int);
            vstd::arithmetic::div_mod::lemma_mod_bound(sq.as_nat() as int, pow2(128) as int);
            lemma_pow2_pos(128);
            lemma_pow2_adds(i as nat, 1);
            lemma_pow2_strictly_increases(i as nat, 64);
        }
        let bit_i: u64 = 1u64 << i;
        proof {
            vstd::bits::lemma_u64_shl_is_mul(1u64, i as u64);
        }
        if !f.is_zero() {
            fbits = fbits + bit_i;
            r = sq.shr(1);
            proof {
                assert(pow2(1) == 2);
                lemma_div_is_ordered(pow2(128) as int, sq.as_nat() as int, 2);
                lemma_pow2_subtracts(1, 128);
                lemma_div_strict_bound(sq.as_nat(), 2, pow2(128));
                lemma_pow2_adds(128, 1);
            }
        } else {
            r = sq;
        }
        proof {
            let sqs = (r_head * r_head) / pow2(127);
            let fs = sqs / pow2(128);
            let r2s: nat = if fs == 1 { sqs / 2 } else { sqs };
            assert(sq.as_nat() == sqs);
            assert(f.as_nat() == fs);
            assert(spec_log_bits(r_head, i as int) == fs * pow2(i as nat) + spec_log_bits(
                r2s, i as int - 1));
            assert(r.as_nat() == r2s);
            if fs == 1 {
                assert(bit_i == pow2(i as nat));
                assert(fs * pow2(i as nat) == pow2(i as nat));
            } else {
                assert(fs == 0);
                assert(fs * pow2(i as nat) == 0) by (nonlinear_arith)
                    requires
                        fs == 0,
                ;
            }
            assert(fbits == fb_head + fs * pow2(i as nat));
            assert(spec_log_bits(rn0, 63) == fbits + spec_log_bits(r.as_nat(), i as int - 1));
        }
        i = i - 1;
    }
    proof {
        assert(spec_log_bits(r.as_nat(), i as int) == 0);
        assert(spec_log_bits(rn0, 63) == fbits);
    }
    let log2_i: i128 = (m as i128 - 128) * 0x10000000000000000i128 + fbits as i128;
    let neg = log2_i < 0;
    let mag128: u128 = if neg {
        ((-(log2_i + 1)) as u128) + 1
    } else {
        log2_i as u128
    };
    let magw = U256::from_u128(mag128);
    let sconst = U256::new(11745905768312294533u64, 13863u64, 0, 0);
    proof {
        lemma_pow2_consts();
        lemma2_to64();
        lemma2_to64_rest();
        assert(mag128 <= 0x410000000000000000u128);
        assert(sconst.as_nat() < 0x40000000000000000000nat);
        lemma_mul_inequality(magw.as_nat() as int, 0x410000000000000000, sconst.as_nat() as int);
        lemma_mul_inequality(0x410000000000000000, 0x410000000000000000,
            0x40000000000000000000);
    }
    let (hi2, lsqm) = magw.wide_mul(&sconst);
    proof {
        if hi2.as_nat() != 0 {
            assert(hi2.as_nat() * p256() >= p256());
        }
        assert(lsqm.as_nat() < 0x10400000000000000000000000000000000000000nat);
    }
    let ghost log2v: int = (m as int - 128) * pow2(64) + fbits;
    let ghost lsq: int = log2v * sqrt_10001_val();
    proof {
        if neg {
            lemma_mul_unary_negation(mag128 as int, sconst.as_nat() as int);
            assert(log2v == -(mag128 as int));
            assert(lsq == -(lsqm.as_nat() as int));
        } else {
            assert(log2v == mag128 as int);
            assert(lsq == lsqm.as_nat() as int);
        }
    }
    let tl = U256::new(6552757943157144234u64, 184476617836266586u64, 0, 0);
    let th = U256::new(4998474450511881007u64, 15793544031827761793u64, 0, 0);
    let (low_neg, low_mag) = if neg {
        let (s, _) = lsqm.overflowing_add(&tl);
        (true, s)
    } else {
        if tl.le(&lsqm) {
            let (s, _) = lsqm.overflowing_sub(&tl);
            (false, s)
        } else {
            let (s, _) = tl.overflowing_sub(&lsqm);
            (true, s)
        }
    };
    proof {
        lemma_pow2_adds(128, 30);
        lemma_pow2_adds(128, 32);
        assert((if low_neg { -(low_mag.as_nat() as int) } else { low_mag.as_nat() as int })
            == lsq - tick_low_const());
        assert(low_mag.as_nat() < pow2(158));
    }
    let tick_low = signed_shift_down_128(low_neg, &low_mag);
    let (high_neg, high_mag) = if !neg {
        let (s, _) = lsqm.overflowing_add(&th);
        (false, s)
    } else {
        if lsqm.le(&th) {
            let (s, _) = th.overflowing_sub(&lsqm);
            (false, s)
        } else {
            let (s, _) = lsqm.overflowing_sub(&th);
            (true, s)
        }
    };
    proof {
        assert((if high_neg { -(high_mag.as_nat() as int) } else { high_mag.as_nat() as int })
            == lsq + tick_high_const());
        assert(high_mag.as_nat() < pow2(158));
    }
    let tick_high = signed_shift_down_128(high_neg, &high_mag);
    if tick_low == tick_high {
        Ok(tick_low)
    } else {
        match get_sqrt_ratio_at_tick(tick_high) {
            Ok(rt) => {
                if rt.le(sqrt_price_x_96) {
                    Ok(tick_high)
                } else {
                    Ok(tick_low)
                }
            },
            Err(e) => Err(e),
        }
    }
}

} // verus!
