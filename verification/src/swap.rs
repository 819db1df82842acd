//! The swap engine: integer square root, price-impact limits, and the
//! tick-crossing loop that drives a whole swap.

use vstd::prelude::*;
use vstd::arithmetic::mul::lemma_mul_inequality;
use crate::u256::{U256, p256};
use crate::i256::I256;
use crate::pool::PoolState;
use crate::full_math::{self, res_nat, spec_mul_div};
use crate::swap_math;
use crate::tick_bitmap;
use crate::errors::Error;

verus! {

/// One pass of the Newton iteration `x' = x - (x^2 - a) / (2x)` over
/// wrapping 256-bit arithmetic, exactly as an on-chain pool performs it: on a
/// fixed point the candidate is snapped by comparing `x^2` against `a` and
/// accepted only if it brackets `a`; a zero divisor, a failed bracket, or an
/// exhausted iteration budget give `NotConverged`.
pub open spec fn spec_sqrt_snap(a: nat, xn: nat, squared: nat) -> Result<nat, Error> {
    let cand = if a < squared { (xn - 1) as nat } else if a == squared { xn } else if xn + 1
        >= p256() { 0nat } else { (xn + 1) as nat };
    if cand * cand <= a && a < (cand + 1) * (cand + 1) {
        Ok(cand)
    } else {
        Err(Error::NotConverged)
    }
}

pub open spec fn spec_sqrt_loop(a: nat, xn: nat, fuel: nat) -> Result<nat, Error>
    decreases fuel,
{
    let squared = (xn * xn) % p256();
    let denom = if xn + xn >= p256() { (xn + xn - p256()) as nat } else { (xn + xn) as nat };
    if denom == 0 {
        Err(Error::NotConverged)
    } else {
        let diff = if squared >= a { (squared - a) as nat } else { (squared + p256() - a) as nat };
        let q = diff / denom;
        let xm = if xn >= q { (xn - q) as nat } else { (xn + p256() - q) as nat };
        if xm == xn {
            spec_sqrt_snap(a, xn, squared)
        } else if fuel == 0 {
            Err(Error::NotConverged)
        } else {
            spec_sqrt_loop(a, xm, (fuel - 1) as nat)
        }
    }
}

/// Snaps a Newton fixed point to the floor square root and verifies the
/// bracket, as `spec_sqrt_snap` states.
#[verifier::rlimit(100)]
fn sqrt_snap(a: &U256, xn: &U256, squared: &U256) -> (r: Result<U256, Error>)
    requires
        xn.as_nat() >= 1,
    ensures
        res_nat(r) == spec_sqrt_snap(a.as_nat(), xn.as_nat(), squared.as_nat()),
        r matches Ok(v) ==> v.as_nat() * v.as_nat() <= a.as_nat()
            && a.as_nat() < (v.as_nat() + 1) * (v.as_nat() + 1),
{
    let cand = if a.lt(squared) {
        let (c, _) = xn.overflowing_sub(&U256::one());
        c
    } else if a.eq_val(squared) {
        *xn
    } else {
        let (c, _) = xn.overflowing_add(&U256::one());
        c
    };
    let (sh, sl) = cand.wide_mul(&cand);
    if sh.is_zero() && sl.le(a) {
        let mx = U256::max_value();
        if cand.eq_val(&mx) {
            proof {
                lemma_mul_inequality(1, p256() as int, p256() as int);
            }
            return Ok(cand);
        }
        let (c1, _) = cand.overflowing_add(&U256::one());
        let (th, tl) = c1.wide_mul(&c1);
        if !th.is_zero() {
            proof {
                assert(th.as_nat() * p256() >= p256());
            }
            return Ok(cand);
        }
        if a.lt(&tl) {
            return Ok(cand);
        }
    }
    Err(Error::NotConverged)
}

/// What `sqrt` returns: zero for zero, else the Newton iteration seeded with
/// the argument itself.
#[verifier::opaque]
pub open spec fn spec_sqrt(a: nat) -> Result<nat, Error> {
    if a == 0 {
        Ok(0)
    } else {
        spec_sqrt_loop(a, a, 1001)
    }
}

/// The integer square root by Newton-Raphson iteration.
///
/// A successful result is the exact floor square root:
/// `r^2 <= a < (r+1)^2`.  The iteration carries a defensive bound of a
/// thousand steps and reports `NotConverged` beyond it.
#[verifier::rlimit(100)]
pub fn sqrt(a: &U256) -> (r: Result<U256, Error>)
    ensures
        res_nat(r) == spec_sqrt(a.as_nat()),
        r matches Ok(v) ==> v.as_nat() * v.as_nat() <= a.as_nat()
            && a.as_nat() < (v.as_nat() + 1) * (v.as_nat() + 1),
        r is Err ==> r == Err::<U256, Error>(Error::NotConverged),
{
    proof {
        reveal(spec_sqrt);
    }
    if a.is_zero() {
        proof {
            assert((0 + 1) * (0 + 1) == 1) by (nonlinear_arith);
        }
        return Ok(U256::zero());
    }
    let mut xn = *a;
    let mut iter_count: u32 = 0;
    loop
        invariant
            a.as_nat() > 0,
            iter_count <= 1001,
            spec_sqrt_loop(a.as_nat(), xn.as_nat(), (1001 - iter_count) as nat) == spec_sqrt(
                a.as_nat()),
        decreases 1002 - iter_count,
    {
        proof {
            reveal(spec_sqrt);
        }
        let squared = xn.wrapping_mul(&xn);
        let (denom, _) = xn.overflowing_add(&xn);
        if denom.is_zero() {
            return Err(Error::NotConverged);
        }
        let (diff, _) = squared.overflowing_sub(a);
        let q = diff.div(&denom);
        let (xm, _) = xn.overflowing_sub(&q);
        if xm.eq_val(&xn) {
            proof {
                if xn.as_nat() == 0 {
                    assert(false);
                }
            }
            return sqrt_snap(a, &xn, &squared);
        }
        if iter_count > 1000 {
            return Err(Error::NotConverged);
        }
        proof {
            assert(spec_sqrt_loop(a.as_nat(), xn.as_nat(), (1001 - iter_count) as nat)
                == spec_sqrt_loop(a.as_nat(), xm.as_nat(), (1000 - iter_count) as nat));
        }
        xn = xm;
        iter_count = iter_count + 1;
    }
}

/// What `calc_sqrt_price_limit_from_price_impact` returns: the current
/// square-root price scaled by the square root of the retained fraction
/// `(100 - impact)%`, in the direction of the swap.
pub open spec fn spec_calc_sqrt_price_limit(price: nat, price_impact: nat, zero_for_one: bool)
    -> Result<nat, Error> {
    match spec_sqrt((1000000 * (100 - price_impact)) as nat) {
        Ok(s) => if zero_for_one {
            spec_mul_div(s, price, 10000)
        } else {
            spec_mul_div(10000, price, s)
        },
        Err(e) => Err(e),
    }
}

/// The square-root price limit that caps a swap at the given price impact,
/// in percent.
pub fn calc_sqrt_price_limit_from_price_impact(
    sqrt_price_x96: &U256,
    price_impact: u32,
    zero_for_one: bool,
) -> (r: Result<U256, Error>)
    requires
        price_impact <= 100,
    ensures
        res_nat(r) == spec_calc_sqrt_price_limit(
            sqrt_price_x96.as_nat(), price_impact as nat, zero_for_one),
{
    let scaled: u32 = 1000000 * (100 - price_impact);
    let s = match sqrt(&U256::from_u64(scaled as u64)) {
        Ok(v) => v,
        Err(e) => {
            return Err(e);
        },
    };
    let ten_k = U256::from_u64(10000);
    if zero_for_one {
        full_math::mul_div(&s, sqrt_price_x96, &ten_k)
    } else {
        full_math::mul_div(&ten_k, sqrt_price_x96, &s)
    }
}

/// The evolving state of one swap call.
#[derive(Clone, Copy, Debug, PartialEq, Eq, Structural)]
pub struct SwapState {
    pub amount_specified_remaining: I256,
    pub amount_calculated: I256,
    pub sqrt_price_x96: U256,
    pub tick: i32,
    pub liquidity: u128,
}

/// The defensive bound on swap-loop iterations; the tick range itself bounds
/// any real walk well below this.
pub const SWAP_STEP_LIMIT: u32 = 4000000;

/// A swap state at the value level: amount remaining, amount calculated,
/// square-root price, tick, and active liquidity.
pub open spec fn st_view(s: SwapState) -> (int, int, nat, int, nat) {
    (s.amount_specified_remaining.as_int(), s.amount_calculated.as_int(),
    s.sqrt_price_x96.as_nat(), s.tick as int, s.liquidity as nat)
}

/// The tail of one swap step: crossing the boundary tick when the step
/// landed exactly on it (applying its net liquidity), or re-deriving the
/// current tick from the new price when the price moved off the start.
pub open spec fn spec_swap_cross(pool: PoolState, zero_for_one: bool,
    st: (int, int, nat, int, nat), price_start: nat, price_next: nat, tick_next: int,
    initialized: bool) -> Result<(int, int, nat, int, nat), Error> {
    let (remaining, calculated, price_new, tick_old, liquidity) = st;
    if price_new == price_next {
        let tick2 = if zero_for_one { tick_next - 1 } else { tick_next };
        if initialized {
            if !pool.ticks@.contains_key(tick_next as i32) {
                Err(Error::TickNotLoaded)
            } else {
                let net0 = pool.ticks@[tick_next as i32].liquidity_net as int;
                if zero_for_one && net0 == i128::MIN {
                    Err(Error::Overflow)
                } else {
                    let net = if zero_for_one { -net0 } else { net0 };
                    if net < 0 && liquidity + net < 0 {
                        Err(Error::LiquiditySubtractionUnderflow)
                    } else if net >= 0 && liquidity + net > u128::MAX {
                        Err(Error::LiquidityAdditionOverflow)
                    } else {
                        Ok((remaining, calculated, price_new, tick2, (liquidity + net) as nat))
                    }
                }
            }
        } else {
            Ok((remaining, calculated, price_new, tick2, liquidity))
        }
    } else if price_new != price_start {
        match crate::tick_math::spec_tick_at_sqrt_ratio(price_new) {
            Ok(t) => Ok((remaining, calculated, price_new, t, liquidity)),
            Err(e) => Err(e),
        }
    } else {
        Ok((remaining, calculated, price_new, tick_old, liquidity))
    }
}

/// The boundary for one step: the next initialized tick (clamped to the
/// tick range), whether it is initialized, and its price.
pub open spec fn spec_step_boundary(pool: PoolState, zero_for_one: bool, tick: int) -> Result<
    (int, bool, nat),
    Error,
> {
    match crate::tick_bitmap::spec_next_initialized_tick(
        pool.tick_bitmap@, pool.tick_spacing as int, tick, zero_for_one) {
        Err(e) => Err(e),
        Ok((tick_next0, initialized)) => {
            let tick_next: int = if tick_next0 < crate::tick_math::MIN_TICK as int {
                crate::tick_math::MIN_TICK as int
            } else if tick_next0 > crate::tick_math::MAX_TICK as int {
                crate::tick_math::MAX_TICK as int
            } else {
                tick_next0
            };
            match crate::tick_math::spec_sqrt_ratio_at_tick(tick_next) {
                Err(e) => Err(e),
                Ok(price_next) => Ok((tick_next, initialized, price_next)),
            }
        },
    }
}

/// Settling one step's amounts into the running signed totals, with every
/// conversion and signed operation checked.
pub open spec fn spec_settle(exact_input: bool, remaining: int, calculated: int, amount_in: nat,
    amount_out: nat, fee_amount: nat) -> Result<(int, int), Error> {
    let ipf = (amount_in + fee_amount) % p256();
    let p = crate::i256::p255();
    if exact_input {
        if ipf >= p {
            Err(Error::Overflow)
        } else if !((-(p as int) <= remaining - ipf) && (remaining - ipf < p as int)) {
            Err(Error::Overflow)
        } else if amount_out >= p {
            Err(Error::Overflow)
        } else if !((-(p as int) <= calculated - amount_out) && (calculated - amount_out
            < p as int)) {
            Err(Error::Overflow)
        } else {
            Ok((remaining - ipf, calculated - amount_out))
        }
    } else {
        if amount_out >= p {
            Err(Error::Overflow)
        } else if !((-(p as int) <= remaining + amount_out) && (remaining + amount_out
            < p as int)) {
            Err(Error::Overflow)
        } else if ipf >= p {
            Err(Error::Overflow)
        } else if !((-(p as int) <= calculated + ipf) && (calculated + ipf < p as int)) {
            Err(Error::Overflow)
        } else {
            Ok((remaining + amount_out, calculated + ipf))
        }
    }
}

/// One full iteration of the swap loop: find the next boundary in the
/// bitmap, clamp it to the tick range, price it, run one bounded step
/// against the price limit, settle the signed amounts with checked
/// arithmetic, and cross or re-derive the tick.
#[verifier::opaque]
pub open spec fn spec_swap_step(pool: PoolState, zero_for_one: bool, exact_input: bool,
    limit: nat, st: (int, int, nat, int, nat)) -> Result<(int, int, nat, int, nat), Error> {
    let (remaining, calculated, price, tick, liquidity) = st;
    match spec_step_boundary(pool, zero_for_one, tick) {
        Err(e) => Err(e),
        Ok((tick_next, initialized, price_next)) => {
            let target: nat = if zero_for_one {
                if price_next < limit { limit } else { price_next }
            } else {
                if price_next > limit { limit } else { price_next }
            };
            match crate::swap_math::spec_compute_swap_step(
                price, target, liquidity, remaining, pool.fee as nat) {
                Err(e) => Err(e),
                Ok((price_new, amount_in, amount_out, fee_amount)) => {
                    match spec_settle(exact_input, remaining, calculated, amount_in, amount_out,
                        fee_amount) {
                        Err(e) => Err(e),
                        Ok((remaining2, calculated2)) => spec_swap_cross(pool, zero_for_one,
                            (remaining2, calculated2, price_new, tick, liquidity), price,
                            price_next, tick_next, initialized),
                    }
                },
            }
        },
    }
}

/// The swap loop: steps are taken until the specified amount is exhausted or
/// the price reaches the limit, with a defensive fuel bound.
pub open spec fn spec_swap_loop(pool: PoolState, zero_for_one: bool, exact_input: bool,
    limit: nat, st: (int, int, nat, int, nat), fuel: nat) -> Result<
    (int, int, nat, int, nat),
    Error,
>
    decreases fuel,
{
    if st.0 == 0 || st.2 == limit {
        Ok(st)
    } else if fuel == 0 {
        Err(Error::StepLimitExceeded)
    } else {
        match spec_swap_step(pool, zero_for_one, exact_input, limit, st) {
            Ok(st2) => spec_swap_loop(pool, zero_for_one, exact_input, limit, st2, (fuel
                - 1) as nat),
            Err(e) => Err(e),
        }
    }
}

/// What `swap` returns: after validating the amount, the lock and the price
/// limit, the loop is run from the snapshot's state and the two legs are
/// reported in the caller's (token0, token1) order.
#[verifier::opaque]
pub open spec fn spec_swap(pool: PoolState, zero_for_one: bool, amount_specified: int,
    limit: nat) -> Result<(int, int), Error> {
    if amount_specified == 0 {
        Err(Error::SwapAmountZero)
    } else if !pool.slot0.unlocked {
        Err(Error::PoolLocked)
    } else if zero_for_one && !(limit < pool.slot0.sqrt_price_x96.as_nat() && limit
        > crate::tick_math::min_sqrt_ratio_val()) {
        Err(Error::InvalidPriceLimit)
    } else if !zero_for_one && !(limit > pool.slot0.sqrt_price_x96.as_nat() && limit
        < crate::tick_math::max_sqrt_ratio_val()) {
        Err(Error::InvalidPriceLimit)
    } else {
        let exact_input = amount_specified > 0;
        let st0 = (amount_specified, 0int, pool.slot0.sqrt_price_x96.as_nat(),
        pool.slot0.tick as int, pool.liquidity as nat);
        match spec_swap_loop(pool, zero_for_one, exact_input, limit, st0,
            SWAP_STEP_LIMIT as nat) {
            Err(e) => Err(e),
            Ok(st) => {
                let diff = amount_specified - st.0;
                if !((-(crate::i256::p255() as int) <= diff) && (diff < crate::i256::p255()
                    as int)) {
                    Err(Error::Overflow)
                } else if zero_for_one == exact_input {
                    Ok((diff, st.1))
                } else {
                    Ok((st.1, diff))
                }
            },
        }
    }
}

/// A result of two signed words, seen at the value level.
pub open spec fn res_pair(r: Result<(I256, I256), Error>) -> Result<(int, int), Error> {
    match r {
        Ok(v) => Ok((v.0.as_int(), v.1.as_int())),
        Err(e) => Err(e),
    }
}

/// Simulates a swap against the snapshot: a positive `amount_specified`
/// fixes the input leg, a negative one the output leg, and the price may
/// move no further than `sqrt_price_limit_x96`.
///
/// Returns the signed (token0, token1) amounts, exactly as `spec_swap`
/// states; `WordNotLoaded` / `TickNotLoaded` ask the caller to widen the
/// snapshot's windows and retry.
/// The boundary for one step, as `spec_step_boundary` states.
fn step_boundary(pool: &PoolState, zero_for_one: bool, tick: i32) -> (r: Result<
    (i32, bool, U256),
    Error,
>)
    requires
        pool.wf(),
        -8388606 <= tick <= 8388606,
    ensures
        ({
            let s = spec_step_boundary(*pool, zero_for_one, tick as int);
            match r {
                Ok(v) => s == Ok::<(int, bool, nat), Error>((v.0 as int, v.1, v.2.as_nat()))
                    && crate::tick_math::MIN_TICK <= v.0 <= crate::tick_math::MAX_TICK,
                Err(e) => s == Err::<(int, bool, nat), Error>(e),
            }
        }),
{
    let (tick_next0, initialized) = match tick_bitmap::next_initialized_tick_within_one_word(
        pool, tick, zero_for_one) {
        Ok(v) => v,
        Err(e) => {
            return Err(e);
        },
    };
    let tick_next: i32 = if tick_next0 < crate::tick_math::MIN_TICK {
        crate::tick_math::MIN_TICK
    } else if tick_next0 > crate::tick_math::MAX_TICK {
        crate::tick_math::MAX_TICK
    } else {
        tick_next0
    };
    match crate::tick_math::get_sqrt_ratio_at_tick(tick_next) {
        Ok(p) => Ok((tick_next, initialized, p)),
        Err(e) => Err(e),
    }
}

/// Settles one step's amounts, as `spec_settle` states.
fn settle_amounts(exact_input: bool, remaining: &I256, calculated: &I256, amount_in: &U256,
    amount_out: &U256, fee_amount: &U256) -> (r: Result<(I256, I256), Error>)
    ensures
        ({
            let s = spec_settle(exact_input, remaining.as_int(), calculated.as_int(),
                amount_in.as_nat(), amount_out.as_nat(), fee_amount.as_nat());
            match r {
                Ok(v) => s == Ok::<(int, int), Error>((v.0.as_int(), v.1.as_int())),
                Err(e) => s == Err::<(int, int), Error>(e),
            }
        }),
{
    let (ipf, _) = amount_in.overflowing_add(fee_amount);
    proof {
        if amount_in.as_nat() + fee_amount.as_nat() < p256() {
            vstd::arithmetic::div_mod::lemma_small_mod(
                amount_in.as_nat() + fee_amount.as_nat(), p256());
        } else {
            vstd::arithmetic::div_mod::lemma_fundamental_div_mod_converse(
                (amount_in.as_nat() + fee_amount.as_nat()) as int, p256() as int, 1,
                ipf.as_nat() as int);
        }
    }
    if exact_input {
        let d = match crate::safe_cast::to_int256(&ipf) {
            Ok(v) => v,
            Err(e) => {
                return Err(e);
            },
        };
        let rem2 = match remaining.checked_sub(&d) {
            Some(v) => v,
            None => {
                return Err(Error::Overflow);
            },
        };
        let o = match crate::safe_cast::to_int256(amount_out) {
            Ok(v) => v,
            Err(e) => {
                return Err(e);
            },
        };
        let calc2 = match crate::low_gas_safe_math::signed_sub(calculated, &o) {
            Ok(v) => v,
            Err(e) => {
                return Err(e);
            },
        };
        Ok((rem2, calc2))
    } else {
        let o = match crate::safe_cast::to_int256(amount_out) {
            Ok(v) => v,
            Err(e) => {
                return Err(e);
            },
        };
        let rem2 = match remaining.checked_add(&o) {
            Some(v) => v,
            None => {
                return Err(Error::Overflow);
            },
        };
        let d = match crate::safe_cast::to_int256(&ipf) {
            Ok(v) => v,
            Err(e) => {
                return Err(e);
            },
        };
        let calc2 = match crate::low_gas_safe_math::signed_add(calculated, &d) {
            Ok(v) => v,
            Err(e) => {
                return Err(e);
            },
        };
        Ok((rem2, calc2))
    }
}

/// One full swap-loop iteration on the state, as `spec_swap_step` states.
#[verifier::rlimit(100)]
fn swap_step_exec(pool: &PoolState, zero_for_one: bool, exact_input: bool,
    sqrt_price_limit_x96: &U256, st: SwapState) -> (r: Result<SwapState, Error>)
    requires
        pool.wf(),
        -8388606 <= st.tick <= 8388606,
    ensures
        ({
            let s = spec_swap_step(*pool, zero_for_one, exact_input,
                sqrt_price_limit_x96.as_nat(), st_view(st));
            match r {
                Ok(v) => s == Ok::<(int, int, nat, int, nat), Error>(st_view(v)) && -8388606
                    <= v.tick <= 8388606,
                Err(e) => s == Err::<(int, int, nat, int, nat), Error>(e),
            }
        }),
{
    proof {
        reveal(spec_swap_step);
    }
    let (tick_next, initialized, sqrt_price_next) = match step_boundary(
        pool, zero_for_one, st.tick) {
        Ok(v) => v,
        Err(e) => {
            return Err(e);
        },
    };
    let target = if zero_for_one {
        if sqrt_price_next.lt(sqrt_price_limit_x96) {
            *sqrt_price_limit_x96
        } else {
            sqrt_price_next
        }
    } else {
        if sqrt_price_limit_x96.lt(&sqrt_price_next) {
            *sqrt_price_limit_x96
        } else {
            sqrt_price_next
        }
    };
    let (price_new, amount_in, amount_out, fee_amount) = match swap_math::compute_swap_step(
        &st.sqrt_price_x96, &target, st.liquidity, &st.amount_specified_remaining, pool.fee) {
        Ok(v) => v,
        Err(e) => {
            return Err(e);
        },
    };
    let (rem2, calc2) = match settle_amounts(exact_input, &st.amount_specified_remaining,
        &st.amount_calculated, &amount_in, &amount_out, &fee_amount) {
        Ok(v) => v,
        Err(e) => {
            return Err(e);
        },
    };
    let mut state = SwapState {
        amount_specified_remaining: rem2,
        amount_calculated: calc2,
        sqrt_price_x96: price_new,
        tick: st.tick,
        liquidity: st.liquidity,
    };
    if state.sqrt_price_x96.eq_val(&sqrt_price_next) {
        if initialized {
            let net0 = match pool.ticks.get(&tick_next) {
                Some(info) => info.liquidity_net,
                None => {
                    return Err(Error::TickNotLoaded);
                },
            };
            let net = if zero_for_one {
                if net0 == i128::MIN {
                    return Err(Error::Overflow);
                }
                -net0
            } else {
                net0
            };
            state.liquidity = match crate::liquidity_math::add_delta(state.liquidity, net) {
                Ok(v) => v,
                Err(e) => {
                    return Err(e);
                },
            };
        }
        state.tick = if zero_for_one {
            tick_next - 1
        } else {
            tick_next
        };
    } else if !state.sqrt_price_x96.eq_val(&st.sqrt_price_x96) {
        state.tick = match crate::tick_math::get_tick_at_sqrt_ratio(&state.sqrt_price_x96) {
            Ok(v) => v,
            Err(e) => {
                return Err(e);
            },
        };
    }
    Ok(state)
}

/// Simulates a swap and also hands back the final swap state, so a caller
/// can inspect the closing price, tick and active liquidity.
#[verifier::rlimit(100)]
pub fn swap_with_final_state(
    pool: &PoolState,
    zero_for_one: bool,
    amount_specified: &I256,
    sqrt_price_limit_x96: &U256,
) -> (r: Result<((I256, I256), SwapState), Error>)
    requires
        pool.wf(),
    ensures
        ({
            let s = spec_swap(*pool, zero_for_one, amount_specified.as_int(),
                sqrt_price_limit_x96.as_nat());
            match r {
                Ok(v) => s == Ok::<(int, int), Error>((v.0.0.as_int(), v.0.1.as_int())),
                Err(e) => s == Err::<(int, int), Error>(e),
            }
        }),
{
    proof {
        reveal(spec_swap);
    }
    if amount_specified.is_zero() {
        return Err(Error::SwapAmountZero);
    }
    if !pool.slot0.unlocked {
        return Err(Error::PoolLocked);
    }
    let minr = crate::tick_math::min_sqrt_ratio();
    let maxr = crate::tick_math::max_sqrt_ratio();
    if zero_for_one {
        if !(sqrt_price_limit_x96.lt(&pool.slot0.sqrt_price_x96) && minr.lt(sqrt_price_limit_x96))
        {
            return Err(Error::InvalidPriceLimit);
        }
    } else {
        if !(pool.slot0.sqrt_price_x96.lt(sqrt_price_limit_x96) && sqrt_price_limit_x96.lt(&maxr))
        {
            return Err(Error::InvalidPriceLimit);
        }
    }
    let exact_input = !amount_specified.is_negative();
    let mut state = SwapState {
        amount_specified_remaining: *amount_specified,
        amount_calculated: I256::zero(),
        sqrt_price_x96: pool.slot0.sqrt_price_x96,
        tick: pool.slot0.tick,
        liquidity: pool.liquidity,
    };
    let ghost st0 = st_view(state);
    let ghost limitv = sqrt_price_limit_x96.as_nat();
    let mut fuel: u32 = SWAP_STEP_LIMIT;
    loop
        invariant
            pool.wf(),
            fuel <= SWAP_STEP_LIMIT,
            -8388606 <= state.tick <= 8388606,
            exact_input == (amount_specified.as_int() > 0),
            limitv == sqrt_price_limit_x96.as_nat(),
            amount_specified.as_int() != 0,
            pool.slot0.unlocked,
            zero_for_one ==> limitv < pool.slot0.sqrt_price_x96.as_nat() && limitv
                > crate::tick_math::min_sqrt_ratio_val(),
            !zero_for_one ==> limitv > pool.slot0.sqrt_price_x96.as_nat() && limitv
                < crate::tick_math::max_sqrt_ratio_val(),
            st0 == (amount_specified.as_int(), 0int, pool.slot0.sqrt_price_x96.as_nat(),
            pool.slot0.tick as int, pool.liquidity as nat),
            spec_swap_loop(*pool, zero_for_one, exact_input, limitv, st0,
                SWAP_STEP_LIMIT as nat) == spec_swap_loop(*pool, zero_for_one, exact_input,
                limitv, st_view(state), fuel as nat),
        ensures
            spec_swap_loop(*pool, zero_for_one, exact_input, limitv, st0,
                SWAP_STEP_LIMIT as nat) == Ok::<(int, int, nat, int, nat), Error>(st_view(state)),
        decreases fuel,
    {
        proof {
            reveal(spec_swap);
        }
        if state.amount_specified_remaining.is_zero() || state.sqrt_price_x96.eq_val(
            sqrt_price_limit_x96,
        ) {
            break;
        }
        if fuel == 0 {
            proof {
                assert(spec_swap_loop(*pool, zero_for_one, exact_input, limitv, st_view(state),
                    0nat) == Err::<(int, int, nat, int, nat), Error>(Error::StepLimitExceeded));
            }
            return Err(Error::StepLimitExceeded);
        }
        let ghost st_pre = st_view(state);
        state = match swap_step_exec(pool, zero_for_one, exact_input, sqrt_price_limit_x96,
            state) {
            Ok(v) => v,
            Err(e) => {
                proof {
                    assert(spec_swap_loop(*pool, zero_for_one, exact_input, limitv, st_pre,
                        fuel as nat) == Err::<(int, int, nat, int, nat), Error>(e));
                }
                return Err(e);
            },
        };
        fuel = fuel - 1;
    }
    let diff = match amount_specified.checked_sub(&state.amount_specified_remaining) {
        Some(v) => v,
        None => {
            return Err(Error::Overflow);
        },
    };
    if zero_for_one == exact_input {
        Ok(((diff, state.amount_calculated), state))
    } else {
        Ok(((state.amount_calculated, diff), state))
    }
}

/// Simulates a swap against the snapshot: a positive `amount_specified`
/// fixes the input leg, a negative one the output leg, and the price may
/// move no further than `sqrt_price_limit_x96`.
///
/// Returns the signed (token0, token1) amounts, exactly as `spec_swap`
/// states; `WordNotLoaded` / `TickNotLoaded` ask the caller to widen the
/// snapshot's windows and retry.
pub fn swap(
    pool: &PoolState,
    zero_for_one: bool,
    amount_specified: &I256,
    sqrt_price_limit_x96: &U256,
) -> (r: Result<(I256, I256), Error>)
    requires
        pool.wf(),
    ensures
        res_pair(r) == spec_swap(
            *pool, zero_for_one, amount_specified.as_int(), sqrt_price_limit_x96.as_nat()),
{
    match swap_with_final_state(pool, zero_for_one, amount_specified, sqrt_price_limit_x96) {
        Ok((legs, _state)) => Ok(legs),
        Err(e) => Err(e),
    }
}

/// The defensive bound on the tick-by-tick refinement walk: the whole tick
/// range.
pub const WALK_STEP_LIMIT: u32 = 1774545;

/// One execution-price refinement walk, one tick at a time from `t` in the
/// given direction: each step re-prices the adjacent tick, accumulates the
/// token deltas for that sliver of the curve, and recomputes the cumulative
/// execution price, until it crosses the target (`down`: no longer above it;
/// up: no longer below it).  Walking past the tick range fails with
/// `TickOutOfBounds`.
/// One refinement-walk step from tick `t`: price the adjacent tick,
/// accumulate the token deltas for that sliver, recompute the cumulative
/// execution price.  Returns the new tick, deltas and execution price.
#[verifier::opaque]
pub open spec fn spec_walk_step(down: bool, t: int, d0: nat, d1: nat, liquidity: nat) -> Result<
    (int, nat, nat, nat),
    Error,
> {
    match crate::tick_math::spec_sqrt_ratio_at_tick(t) {
        Err(e) => Err(e),
        Ok(curr_r) => match crate::tick_math::spec_sqrt_ratio_at_tick(
            if down { t - 1 } else { t + 1 }) {
            Err(e) => Err(e),
            Ok(next_r) => {
                let diff: nat = if next_r >= curr_r { (next_r - curr_r) as nat } else {
                    (curr_r - next_r) as nat
                };
                match spec_mul_div(diff, liquidity, vstd::arithmetic::power2::pow2(96)) {
                    Err(e) => Err(e),
                    Ok(inc1) => {
                        let d1b = (d1 + inc1) % p256();
                        match spec_mul_div(next_r, curr_r, vstd::arithmetic::power2::pow2(96)) {
                            Err(e) => Err(e),
                            Ok(mid) => match spec_mul_div(liquidity, diff, mid) {
                                Err(e) => Err(e),
                                Ok(inc0) => {
                                    let d0b = (d0 + inc0) % p256();
                                    match spec_sqrt(d1b) {
                                        Err(e) => Err(e),
                                        Ok(s1) => match spec_sqrt(d0b) {
                                            Err(e) => Err(e),
                                            Ok(s0) => match spec_mul_div(s1,
                                                vstd::arithmetic::power2::pow2(96), s0) {
                                                Err(e) => Err(e),
                                                Ok(ce2) => Ok((if down { t - 1 } else { t + 1 },
                                                    d0b, d1b, ce2)),
                                            },
                                        },
                                    }
                                },
                            },
                        }
                    },
                }
            },
        },
    }
}

/// One execution-price refinement walk, one tick at a time from `t` in the
/// given direction, until the cumulative execution price crosses the target
/// (`down`: no longer above it; up: no longer below it).  Walking past the
/// tick range fails with `TickOutOfBounds`.
#[verifier::opaque]
pub open spec fn spec_find_tick_walk(down: bool, target: nat, t: int, d0: nat, d1: nat,
    liquidity: nat, curr_exec: nat, fuel: nat) -> Result<(int, nat, nat), Error>
    decreases fuel,
{
    if (down && !(curr_exec > target)) || (!down && !(curr_exec < target)) {
        Ok((t, d0, d1))
    } else {
        match spec_walk_step(down, t, d0, d1, liquidity) {
            Err(e) => Err(e),
            Ok((t2, d0b, d1b, ce2)) => if fuel == 0 {
                Err(Error::StepLimitExceeded)
            } else {
                spec_find_tick_walk(down, target, t2, d0b, d1b, liquidity, ce2, (fuel - 1) as nat)
            },
        }
    }
}

/// One refinement-walk step, as `spec_walk_step` states.
#[verifier::rlimit(100)]
fn walk_step(down: bool, t: i32, d0: &U256, d1: &U256, liquidity: u128, lw: &U256, q96v: &U256)
    -> (r: Result<(i32, U256, U256, U256), Error>)
    requires
        -8388607 <= t <= 8388607,
        lw.as_nat() == liquidity as nat,
        q96v.as_nat() == vstd::arithmetic::power2::pow2(96),
    ensures
        ({
            let s = spec_walk_step(down, t as int, d0.as_nat(), d1.as_nat(), liquidity as nat);
            match r {
                Ok(v) => s == Ok::<(int, nat, nat, nat), Error>((v.0 as int, v.1.as_nat(),
                    v.2.as_nat(), v.3.as_nat())) && -887272 <= v.0 <= 887272,
                Err(e) => s == Err::<(int, nat, nat, nat), Error>(e),
            }
        }),
{
    proof {
        reveal(spec_walk_step);
    }
    let curr_r = match crate::tick_math::get_sqrt_ratio_at_tick(t) {
        Ok(v) => v,
        Err(e) => {
            return Err(e);
        },
    };
    let tn = if down {
        t - 1
    } else {
        t + 1
    };
    let next_r = match crate::tick_math::get_sqrt_ratio_at_tick(tn) {
        Ok(v) => v,
        Err(e) => {
            return Err(e);
        },
    };
    let diff = if curr_r.lt(&next_r) {
        let (v, _) = next_r.overflowing_sub(&curr_r);
        v
    } else {
        let (v, _) = curr_r.overflowing_sub(&next_r);
        v
    };
    let inc1 = match full_math::mul_div(&diff, lw, q96v) {
        Ok(v) => v,
        Err(e) => {
            return Err(e);
        },
    };
    let (d1b, _) = d1.overflowing_add(&inc1);
    let mid = match full_math::mul_div(&next_r, &curr_r, q96v) {
        Ok(v) => v,
        Err(e) => {
            return Err(e);
        },
    };
    let inc0 = match full_math::mul_div(lw, &diff, &mid) {
        Ok(v) => v,
        Err(e) => {
            return Err(e);
        },
    };
    let (d0b, _) = d0.overflowing_add(&inc0);
    proof {
        lemma_wrap_add(d1.as_nat(), inc1.as_nat());
        lemma_wrap_add(d0.as_nat(), inc0.as_nat());
    }
    let s1 = match sqrt(&d1b) {
        Ok(v) => v,
        Err(e) => {
            return Err(e);
        },
    };
    let s0 = match sqrt(&d0b) {
        Ok(v) => v,
        Err(e) => {
            return Err(e);
        },
    };
    let ce2 = match full_math::mul_div(&s1, q96v, &s0) {
        Ok(v) => v,
        Err(e) => {
            return Err(e);
        },
    };
    proof {
        reveal(crate::tick_math::spec_sqrt_ratio_at_tick);
        assert(-887272 <= tn <= 887272) by {
            reveal(crate::tick_math::spec_sqrt_ratio_at_tick);
            if tn > 887272 || tn < -887272 {
                assert(false);
            }
        }
    }
    Ok((tn, d0b, d1b, ce2))
}

/// Walks tick by tick from `current_tick` toward `next_tick` until the
/// cumulative execution price crosses the target, re-accumulating the token
/// deltas at each tick; returns the boundary tick and the accumulated
/// deltas, exactly as `spec_find_tick_walk` states.
#[verifier::rlimit(100)]
pub fn find_tick_at_slippage(
    current_tick: i32,
    next_tick: i32,
    current_exec_sqrt_ratio_x96: &U256,
    target_exec_sqrt_ratio_x96: &U256,
    delta_token0: &U256,
    delta_token1: &U256,
    liquidity: u128,
) -> (r: Result<(i32, U256, U256), Error>)
    requires
        -8388607 <= current_tick <= 8388607,
    ensures
        ({
            let s = spec_find_tick_walk(next_tick < current_tick,
                target_exec_sqrt_ratio_x96.as_nat(), current_tick as int, delta_token0.as_nat(),
                delta_token1.as_nat(), liquidity as nat, current_exec_sqrt_ratio_x96.as_nat(),
                WALK_STEP_LIMIT as nat);
            match r {
                Ok(v) => s == Ok::<(int, nat, nat), Error>((v.0 as int, v.1.as_nat(),
                    v.2.as_nat())),
                Err(e) => s == Err::<(int, nat, nat), Error>(e),
            }
        }),
{
    let down = next_tick < current_tick;
    let q96v = U256::pow2_exec(96);
    let lw = U256::from_u128(liquidity);
    let mut t = current_tick;
    let mut d0 = *delta_token0;
    let mut d1 = *delta_token1;
    let mut ce = *current_exec_sqrt_ratio_x96;
    let mut fuel: u32 = WALK_STEP_LIMIT;
    let ghost target = target_exec_sqrt_ratio_x96.as_nat();
    loop
        invariant
            fuel <= WALK_STEP_LIMIT,
            -8388607 <= t <= 8388607,
            down == (next_tick < current_tick),
            q96v.as_nat() == vstd::arithmetic::power2::pow2(96),
            lw.as_nat() == liquidity as nat,
            target == target_exec_sqrt_ratio_x96.as_nat(),
            spec_find_tick_walk(down, target, current_tick as int, delta_token0.as_nat(),
                delta_token1.as_nat(), liquidity as nat, current_exec_sqrt_ratio_x96.as_nat(),
                WALK_STEP_LIMIT as nat) == spec_find_tick_walk(down, target, t as int,
                d0.as_nat(), d1.as_nat(), liquidity as nat, ce.as_nat(), fuel as nat),
        ensures
            spec_find_tick_walk(down, target, current_tick as int, delta_token0.as_nat(),
                delta_token1.as_nat(), liquidity as nat, current_exec_sqrt_ratio_x96.as_nat(),
                WALK_STEP_LIMIT as nat) == Ok::<(int, nat, nat), Error>((t as int, d0.as_nat(),
                d1.as_nat())),
        decreases fuel,
    {
        proof {
            reveal(spec_find_tick_walk);
        }
        let keep_walking = if down {
            target_exec_sqrt_ratio_x96.lt(&ce)
        } else {
            ce.lt(target_exec_sqrt_ratio_x96)
        };
        if !keep_walking {
            break;
        }
        let (tn, d0b, d1b, ce2) = match walk_step(down, t, &d0, &d1, liquidity, &lw, &q96v) {
            Ok(v) => v,
            Err(e) => {
                return Err(e);
            },
        };
        if fuel == 0 {
            return Err(Error::StepLimitExceeded);
        }
        t = tn;
        d0 = d0b;
        d1 = d1b;
        ce = ce2;
        fuel = fuel - 1;
    }
    Ok((t, d0, d1))
}

/// Modular addition agrees with the borrow form of `overflowing_add`.
pub proof fn lemma_wrap_add(a: nat, b: nat)
    ensures
        a + b < p256() ==> (a + b) % p256() == a + b,
        a + b >= p256() && a + b < 2 * p256() ==> (a + b) % p256() == a + b - p256(),
{
    if a + b < p256() {
        vstd::arithmetic::div_mod::lemma_small_mod((a + b) as nat, p256());
    } else if a + b < 2 * p256() {
        vstd::arithmetic::div_mod::lemma_fundamental_div_mod_converse(
            (a + b) as int, p256() as int, 1, (a + b - p256()) as int);
    }
}

/// What `swap_price_impact` returns: a swap of the whole signed range,
/// limited by the spot price scaled down (or up) to the requested impact.
pub open spec fn spec_swap_price_impact(pool: PoolState, zero_for_one: bool, price_impact: nat)
    -> Result<(int, int), Error> {
    if price_impact > 100 {
        Err(Error::ImpactTooLarge)
    } else if price_impact == 0 {
        Err(Error::NoSwapNeeded)
    } else {
        match spec_calc_sqrt_price_limit(
            pool.slot0.sqrt_price_x96.as_nat(), price_impact, zero_for_one) {
            Err(e) => Err(e),
            Ok(limit) => spec_swap(pool, zero_for_one, crate::i256::p255() as int - 1, limit),
        }
    }
}

/// Swaps until the spot price has moved by the given percentage: the amount
/// is unbounded and the price limit is derived from the impact.
///
/// A zero impact needs no swap and is rejected with `NoSwapNeeded`; an
/// impact above one hundred percent with `ImpactTooLarge`.
pub fn swap_price_impact(pool: &PoolState, zero_for_one: bool, price_impact: u32) -> (r: Result<
    (I256, I256),
    Error,
>)
    requires
        pool.wf(),
    ensures
        res_pair(r) == spec_swap_price_impact(*pool, zero_for_one, price_impact as nat),
        price_impact == 0 ==> r == Err::<(I256, I256), Error>(Error::NoSwapNeeded),
        price_impact > 100 ==> r == Err::<(I256, I256), Error>(Error::ImpactTooLarge),
{
    if price_impact > 100 {
        return Err(Error::ImpactTooLarge);
    }
    if price_impact == 0 {
        return Err(Error::NoSwapNeeded);
    }
    let limit = match calc_sqrt_price_limit_from_price_impact(
        &pool.slot0.sqrt_price_x96, price_impact, zero_for_one) {
        Ok(v) => v,
        Err(e) => {
            return Err(e);
        },
    };
    let mx = I256::max_value();
    swap(pool, zero_for_one, &mx, &limit)
}

/// The evolving state of one execution-price-targeted swap.
#[derive(Clone, Copy, Debug, PartialEq, Eq, Structural)]
pub struct SwapStateSlippage {
    pub amount_specified_remaining: I256,
    pub amount_calculated: I256,
    pub sqrt_price_x96: U256,
    pub curr_exec_sqrt_price_x96: U256,
    pub tick: i32,
    pub liquidity: u128,
}

/// A slippage swap state at the value level.
pub open spec fn slip_view(s: SwapStateSlippage) -> (int, int, nat, nat, int, nat) {
    (s.amount_specified_remaining.as_int(), s.amount_calculated.as_int(),
    s.sqrt_price_x96.as_nat(), s.curr_exec_sqrt_price_x96.as_nat(), s.tick as int,
    s.liquidity as nat)
}

/// The refinement branch of a slippage step: walk tick by tick from the
/// running totals until the execution price crosses the target, then rebuild
/// the signed totals from the walked deltas.
#[verifier::opaque]
pub open spec fn spec_slip_refine(zero_for_one: bool, target_exec: nat, tick: int,
    tick_next: int, remaining: int, calculated: int, curr_exec: nat, liquidity: nat) -> Result<
    (int, int),
    Error,
> {
    let p = crate::i256::p255();
    let dr = p as int - 1 - remaining;
    if !((-(p as int) <= dr) && (dr < p as int)) {
        Err(Error::Overflow)
    } else if calculated == -(p as int) {
        Err(Error::Overflow)
    } else {
        let cd0 = if zero_for_one { crate::i256::raw_of(dr) } else {
            crate::i256::raw_of(-calculated)
        };
        let cd1 = if zero_for_one { crate::i256::raw_of(-calculated) } else {
            crate::i256::raw_of(dr)
        };
        match spec_find_tick_walk(tick_next < tick, target_exec, tick, cd0, cd1, liquidity,
            curr_exec, WALK_STEP_LIMIT as nat) {
            Err(e) => Err(e),
            Ok((tf, d0p, d1p)) => {
                if zero_for_one {
                    if d0p >= p {
                        Err(Error::Overflow)
                    } else if d1p >= p {
                        Err(Error::Overflow)
                    } else {
                        Ok((p as int - 1 - d0p, -(d1p as int)))
                    }
                } else {
                    if d1p >= p {
                        Err(Error::Overflow)
                    } else if d0p >= p {
                        Err(Error::Overflow)
                    } else {
                        Ok((p as int - 1 - d1p, -(d0p as int)))
                    }
                }
            },
        }
    }
}

/// One full iteration of the slippage loop: a bounded step to the next
/// boundary, checked settlement, projection of the new execution price, the
/// refinement walk when it would overshoot the target, then crossing.
#[verifier::opaque]
pub open spec fn spec_slip_step(pool: PoolState, zero_for_one: bool, target_exec: nat,
    st: (int, int, nat, nat, int, nat)) -> Result<(int, int, nat, nat, int, nat), Error> {
    let (remaining, calculated, price, curr_exec, tick, liquidity) = st;
    let p = crate::i256::p255();
    match spec_step_boundary(pool, zero_for_one, tick) {
        Err(e) => Err(e),
        Ok((tick_next, initialized, price_next)) => {
            match crate::swap_math::spec_compute_swap_step(price, price_next, liquidity,
                remaining, pool.fee as nat) {
                Err(e) => Err(e),
                Ok((price_new, amount_in, amount_out, fee_amount)) => {
                    match spec_settle(true, remaining, calculated, amount_in, amount_out,
                        fee_amount) {
                        Err(e) => Err(e),
                        Ok((next_rem, next_calc)) => {
                            let dr = p as int - 1 - next_rem;
                            if !((-(p as int) <= dr) && (dr < p as int)) {
                                Err(Error::Overflow)
                            } else if next_calc == -(p as int) {
                                Err(Error::Overflow)
                            } else {
                                let nd0 = if zero_for_one { crate::i256::raw_of(dr) } else {
                                    crate::i256::raw_of(-next_calc)
                                };
                                let nd1 = if zero_for_one { crate::i256::raw_of(-next_calc) }
                                    else { crate::i256::raw_of(dr) };
                                match spec_sqrt(nd1) {
                                    Err(e) => Err(e),
                                    Ok(s1) => match spec_sqrt(nd0) {
                                        Err(e) => Err(e),
                                        Ok(s0) => match spec_mul_div(s1,
                                            vstd::arithmetic::power2::pow2(96), s0) {
                                            Err(e) => Err(e),
                                            Ok(next_exec) => {
                                                let accept = if zero_for_one {
                                                    next_exec > target_exec
                                                } else {
                                                    next_exec < target_exec
                                                };
                                                let after: Result<(int, int, nat), Error> =
                                                    if accept {
                                                    Ok((next_rem, next_calc, next_exec))
                                                } else {
                                                    match spec_slip_refine(zero_for_one,
                                                        target_exec, tick, tick_next, remaining,
                                                        calculated, curr_exec, liquidity) {
                                                        Err(e) => Err(e),
                                                        Ok((r2, c2)) => Ok((r2, c2,
                                                            target_exec)),
                                                    }
                                                };
                                                match after {
                                                    Err(e) => Err(e),
                                                    Ok((rem2, calc2, ce2)) => match
                                                        spec_swap_cross(pool, zero_for_one,
                                                        (rem2, calc2, price_new, tick,
                                                        liquidity), price, price_next,
                                                        tick_next, initialized) {
                                                        Err(e) => Err(e),
                                                        Ok((ra, rb, rc, rd, re)) => Ok((ra, rb,
                                                            rc, ce2, rd, re)),
                                                    },
                                                }
                                            },
                                        },
                                    },
                                }
                            }
                        },
                    }
                },
            }
        },
    }
}

/// The slippage loop: steps are taken until the specified amount is
/// exhausted or the cumulative execution price lands on the target, with a
/// defensive fuel bound.
pub open spec fn spec_slip_loop(pool: PoolState, zero_for_one: bool, target_exec: nat,
    st: (int, int, nat, nat, int, nat), fuel: nat) -> Result<
    (int, int, nat, nat, int, nat),
    Error,
>
    decreases fuel,
{
    if st.0 == 0 || st.3 == target_exec {
        Ok(st)
    } else if fuel == 0 {
        Err(Error::StepLimitExceeded)
    } else {
        match spec_slip_step(pool, zero_for_one, target_exec, st) {
            Ok(st2) => spec_slip_loop(pool, zero_for_one, target_exec, st2, (fuel - 1) as nat),
            Err(e) => Err(e),
        }
    }
}

/// What `swap_slippage` returns: the swap runs until the cumulative
/// execution price (output over input, as a square-root price) reaches the
/// target derived from the requested impact, and reports the two legs and
/// the final execution price.
#[verifier::opaque]
pub open spec fn spec_swap_slippage(pool: PoolState, zero_for_one: bool, price_impact: nat)
    -> Result<((int, int), nat), Error> {
    let p = crate::i256::p255();
    if price_impact > 100 {
        Err(Error::ImpactTooLarge)
    } else if price_impact == 0 {
        Err(Error::NoSwapNeeded)
    } else if !pool.slot0.unlocked {
        Err(Error::PoolLocked)
    } else {
        match spec_calc_sqrt_price_limit(
            pool.slot0.sqrt_price_x96.as_nat(), price_impact, zero_for_one) {
            Err(e) => Err(e),
            Ok(target_exec) => {
                let st0 = (p as int - 1, 0int, pool.slot0.sqrt_price_x96.as_nat(),
                pool.slot0.sqrt_price_x96.as_nat(), pool.slot0.tick as int,
                pool.liquidity as nat);
                match spec_slip_loop(pool, zero_for_one, target_exec, st0,
                    SWAP_STEP_LIMIT as nat) {
                    Err(e) => Err(e),
                    Ok(st) => {
                        let fin = p as int - 1 - st.0;
                        if !((-(p as int) <= fin) && (fin < p as int)) {
                            Err(Error::Overflow)
                        } else if zero_for_one {
                            Ok(((fin, st.1), st.3))
                        } else {
                            Ok(((st.1, fin), st.3))
                        }
                    },
                }
            },
        }
    }
}

/// One slippage-loop iteration on the state, as `spec_slip_step` states.
#[verifier::rlimit(100)]
fn slip_step_exec(pool: &PoolState, zero_for_one: bool, target_exec: &U256,
    st: SwapStateSlippage) -> (r: Result<SwapStateSlippage, Error>)
    requires
        pool.wf(),
        -8388606 <= st.tick <= 8388606,
    ensures
        ({
            let s = spec_slip_step(*pool, zero_for_one, target_exec.as_nat(), slip_view(st));
            match r {
                Ok(v) => s == Ok::<(int, int, nat, nat, int, nat), Error>(slip_view(v))
                    && -8388606 <= v.tick <= 8388606,
                Err(e) => s == Err::<(int, int, nat, nat, int, nat), Error>(e),
            }
        }),
{
    proof {
        reveal(spec_slip_step);
    }
    let (tick_next, initialized, sqrt_price_next) = match step_boundary(
        pool, zero_for_one, st.tick) {
        Ok(v) => v,
        Err(e) => {
            return Err(e);
        },
    };
    let (price_new, amount_in, amount_out, fee_amount) = match swap_math::compute_swap_step(
        &st.sqrt_price_x96, &sqrt_price_next, st.liquidity, &st.amount_specified_remaining,
        pool.fee) {
        Ok(v) => v,
        Err(e) => {
            return Err(e);
        },
    };
    let (next_rem, next_calc) = match settle_amounts(true, &st.amount_specified_remaining,
        &st.amount_calculated, &amount_in, &amount_out, &fee_amount) {
        Ok(v) => v,
        Err(e) => {
            return Err(e);
        },
    };
    let mx = I256::max_value();
    let drv = match mx.checked_sub(&next_rem) {
        Some(v) => v,
        None => {
            return Err(Error::Overflow);
        },
    };
    let ncn = match next_calc.checked_neg() {
        Some(v) => v,
        None => {
            return Err(Error::Overflow);
        },
    };
    proof {
        drv.lemma_raw();
        ncn.lemma_raw();
    }
    let (nd0, nd1) = if zero_for_one {
        (drv.raw, ncn.raw)
    } else {
        (ncn.raw, drv.raw)
    };
    let s1 = match sqrt(&nd1) {
        Ok(v) => v,
        Err(e) => {
            return Err(e);
        },
    };
    let s0 = match sqrt(&nd0) {
        Ok(v) => v,
        Err(e) => {
            return Err(e);
        },
    };
    let q96v = U256::pow2_exec(96);
    let next_exec = match full_math::mul_div(&s1, &q96v, &s0) {
        Ok(v) => v,
        Err(e) => {
            return Err(e);
        },
    };
    let accept = if zero_for_one {
        target_exec.lt(&next_exec)
    } else {
        next_exec.lt(target_exec)
    };
    let (rem2, calc2, ce2) = if accept {
        (next_rem, next_calc, next_exec)
    } else {
        match slip_refine_exec(zero_for_one, target_exec, st.tick, tick_next,
            &st.amount_specified_remaining, &st.amount_calculated,
            &st.curr_exec_sqrt_price_x96, st.liquidity) {
            Ok((r2, c2)) => (r2, c2, *target_exec),
            Err(e) => {
                return Err(e);
            },
        }
    };
    let mut state = SwapStateSlippage {
        amount_specified_remaining: rem2,
        amount_calculated: calc2,
        sqrt_price_x96: price_new,
        curr_exec_sqrt_price_x96: ce2,
        tick: st.tick,
        liquidity: st.liquidity,
    };
    if state.sqrt_price_x96.eq_val(&sqrt_price_next) {
        if initialized {
            let net0 = match pool.ticks.get(&tick_next) {
                Some(info) => info.liquidity_net,
                None => {
                    return Err(Error::TickNotLoaded);
                },
            };
            let net = if zero_for_one {
                if net0 == i128::MIN {
                    return Err(Error::Overflow);
                }
                -net0
            } else {
                net0
            };
            state.liquidity = match crate::liquidity_math::add_delta(state.liquidity, net) {
                Ok(v) => v,
                Err(e) => {
                    return Err(e);
                },
            };
        }
        state.tick = if zero_for_one {
            tick_next - 1
        } else {
            tick_next
        };
    } else if !state.sqrt_price_x96.eq_val(&st.sqrt_price_x96) {
        state.tick = match crate::tick_math::get_tick_at_sqrt_ratio(&state.sqrt_price_x96) {
            Ok(v) => v,
            Err(e) => {
                return Err(e);
            },
        };
    }
    Ok(state)
}

/// The refinement branch of a slippage step, as `spec_slip_refine` states.
#[verifier::rlimit(100)]
fn slip_refine_exec(zero_for_one: bool, target_exec: &U256, tick: i32, tick_next: i32,
    remaining: &I256, calculated: &I256, curr_exec: &U256, liquidity: u128) -> (r: Result<
    (I256, I256),
    Error,
>)
    requires
        -8388606 <= tick <= 8388606,
    ensures
        ({
            let s = spec_slip_refine(zero_for_one, target_exec.as_nat(), tick as int,
                tick_next as int, remaining.as_int(), calculated.as_int(), curr_exec.as_nat(),
                liquidity as nat);
            match r {
                Ok(v) => s == Ok::<(int, int), Error>((v.0.as_int(), v.1.as_int())),
                Err(e) => s == Err::<(int, int), Error>(e),
            }
        }),
{
    proof {
        reveal(spec_slip_refine);
    }
    let mx = I256::max_value();
    let drv = match mx.checked_sub(remaining) {
        Some(v) => v,
        None => {
            return Err(Error::Overflow);
        },
    };
    let ncn = match calculated.checked_neg() {
        Some(v) => v,
        None => {
            return Err(Error::Overflow);
        },
    };
    proof {
        drv.lemma_raw();
        ncn.lemma_raw();
    }
    let (cd0, cd1) = if zero_for_one {
        (drv.raw, ncn.raw)
    } else {
        (ncn.raw, drv.raw)
    };
    let (tf, d0p, d1p) = match find_tick_at_slippage(tick, tick_next, curr_exec, target_exec,
        &cd0, &cd1, liquidity) {
        Ok(v) => v,
        Err(e) => {
            return Err(e);
        },
    };
    if zero_for_one {
        let a = match crate::safe_cast::to_int256(&d0p) {
            Ok(v) => v,
            Err(e) => {
                return Err(e);
            },
        };
        let b = match crate::safe_cast::to_int256(&d1p) {
            Ok(v) => v,
            Err(e) => {
                return Err(e);
            },
        };
        let rem2 = match mx.checked_sub(&a) {
            Some(v) => v,
            None => {
                return Err(Error::Overflow);
            },
        };
        let calc2 = match b.checked_neg() {
            Some(v) => v,
            None => {
                return Err(Error::Overflow);
            },
        };
        Ok((rem2, calc2))
    } else {
        let a = match crate::safe_cast::to_int256(&d1p) {
            Ok(v) => v,
            Err(e) => {
                return Err(e);
            },
        };
        let b = match crate::safe_cast::to_int256(&d0p) {
            Ok(v) => v,
            Err(e) => {
                return Err(e);
            },
        };
        let rem2 = match mx.checked_sub(&a) {
            Some(v) => v,
            None => {
                return Err(Error::Overflow);
            },
        };
        let calc2 = match b.checked_neg() {
            Some(v) => v,
            None => {
                return Err(Error::Overflow);
            },
        };
        Ok((rem2, calc2))
    }
}

/// Swaps until the cumulative execution price has moved by the given
/// percentage, refining tick by tick where a coarse step would overshoot.
///
/// Returns the two signed legs in (token0, token1) order and the final
/// execution square-root price, exactly as `spec_swap_slippage` states.
#[verifier::rlimit(100)]
pub fn swap_slippage(pool: &PoolState, zero_for_one: bool, price_impact: u32) -> (r: Result<
    ((I256, I256), U256),
    Error,
>)
    requires
        pool.wf(),
    ensures
        ({
            let s = spec_swap_slippage(*pool, zero_for_one, price_impact as nat);
            match r {
                Ok(v) => s == Ok::<((int, int), nat), Error>(((v.0.0.as_int(), v.0.1.as_int()),
                    v.1.as_nat())),
                Err(e) => s == Err::<((int, int), nat), Error>(e),
            }
        }),
        price_impact == 0 ==> r == Err::<((I256, I256), U256), Error>(Error::NoSwapNeeded),
        price_impact > 100 ==> r == Err::<((I256, I256), U256), Error>(Error::ImpactTooLarge),
{
    proof {
        reveal(spec_swap_slippage);
    }
    if price_impact > 100 {
        return Err(Error::ImpactTooLarge);
    }
    if price_impact == 0 {
        return Err(Error::NoSwapNeeded);
    }
    if !pool.slot0.unlocked {
        return Err(Error::PoolLocked);
    }
    let target_exec = match calc_sqrt_price_limit_from_price_impact(
        &pool.slot0.sqrt_price_x96, price_impact, zero_for_one) {
        Ok(v) => v,
        Err(e) => {
            return Err(e);
        },
    };
    let mut state = SwapStateSlippage {
        amount_specified_remaining: I256::max_value(),
        amount_calculated: I256::zero(),
        sqrt_price_x96: pool.slot0.sqrt_price_x96,
        curr_exec_sqrt_price_x96: pool.slot0.sqrt_price_x96,
        tick: pool.slot0.tick,
        liquidity: pool.liquidity,
    };
    let ghost st0 = slip_view(state);
    let ghost targetv = target_exec.as_nat();
    let mut fuel: u32 = SWAP_STEP_LIMIT;
    loop
        invariant
            pool.wf(),
            fuel <= SWAP_STEP_LIMIT,
            -8388606 <= state.tick <= 8388606,
            targetv == target_exec.as_nat(),
            0 < price_impact <= 100,
            pool.slot0.unlocked,
            spec_calc_sqrt_price_limit(pool.slot0.sqrt_price_x96.as_nat(), price_impact as nat,
                zero_for_one) == Ok::<nat, Error>(targetv),
            st0 == (crate::i256::p255() as int - 1, 0int, pool.slot0.sqrt_price_x96.as_nat(),
            pool.slot0.sqrt_price_x96.as_nat(), pool.slot0.tick as int, pool.liquidity as nat),
            spec_slip_loop(*pool, zero_for_one, targetv, st0, SWAP_STEP_LIMIT as nat)
                == spec_slip_loop(*pool, zero_for_one, targetv, slip_view(state), fuel as nat),
        ensures
            spec_slip_loop(*pool, zero_for_one, targetv, st0, SWAP_STEP_LIMIT as nat) == Ok::<
                (int, int, nat, nat, int, nat),
                Error,
            >(slip_view(state)),
        decreases fuel,
    {
        proof {
            reveal(spec_swap_slippage);
        }
        if state.amount_specified_remaining.is_zero() || state.curr_exec_sqrt_price_x96.eq_val(
            &target_exec,
        ) {
            break;
        }
        if fuel == 0 {
            return Err(Error::StepLimitExceeded);
        }
        state = match slip_step_exec(pool, zero_for_one, &target_exec, state) {
            Ok(v) => v,
            Err(e) => {
                return Err(e);
            },
        };
        fuel = fuel - 1;
    }
    let mx = I256::max_value();
    let fin = match mx.checked_sub(&state.amount_specified_remaining) {
        Some(v) => v,
        None => {
            return Err(Error::Overflow);
        },
    };
    if zero_for_one {
        Ok(((fin, state.amount_calculated), state.curr_exec_sqrt_price_x96))
    } else {
        Ok(((state.amount_calculated, fin), state.curr_exec_sqrt_price_x96))
    }
}

} // verus!
