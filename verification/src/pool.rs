//! The pool snapshot the simulator works on, and the simulation entry
//! points.
//!
//! A `PoolState` is an in-memory snapshot of one pool: current price and
//! tick, active liquidity, fee, tick spacing, and the loaded windows of the
//! tick ledger and the tick bitmap.  The collaborator that reads pools from
//! a ledger builds it and widens its windows on demand; the simulator never
//! fetches anything itself and reports `WordNotLoaded` / `TickNotLoaded`
//! when it walks past the loaded window.

use vstd::prelude::*;
use std::collections::HashMap;
use crate::u256::U256;
use crate::tick::Info;
use crate::tick_math::{MIN_TICK, MAX_TICK};
use crate::errors::Error;

verus! {

/// The pool's packed control word: current square-root price, current tick,
/// and whether the pool is unlocked.
#[derive(Clone, Copy, Debug, PartialEq, Eq, Structural)]
pub struct Slot0 {
    pub sqrt_price_x96: U256,
    pub tick: i32,
    pub unlocked: bool,
}

/// An in-memory snapshot of one pool.
pub struct PoolState {
    pub tick_spacing: i32,
    pub fee: u32,
    pub fee_growth_global0_x128: U256,
    pub fee_growth_global1_x128: U256,
    pub tick_bitmap: HashMap<i16, U256>,
    pub slot0: Slot0,
    pub liquidity: u128,
    pub ticks: HashMap<i32, Info>,
}

impl PoolState {
    /// A usable snapshot: positive spacing within the tick range, a fee
    /// of at most one hundred percent, and a current tick in range.
    pub open spec fn wf(self) -> bool {
        &&& 1 <= self.tick_spacing <= MAX_TICK
        &&& self.fee <= 1000000
        &&& MIN_TICK <= self.slot0.tick <= MAX_TICK
    }
}

/// The two legs of a simulated swap, as magnitudes.
#[derive(Clone, Copy, Debug, PartialEq, Eq, Structural)]
pub struct SwapResult {
    pub amount_in: U256,
    pub amount_out: U256,
}

/// The two legs of a simulated swap together with the realised execution
/// price impact, in thousandths of a percent.
#[derive(Clone, Copy, Debug, PartialEq, Eq, Structural)]
pub struct SwapResultSlippage {
    pub amount_in: U256,
    pub amount_out: U256,
    pub price_impact: U256,
}

/// What `simulate_exact_input_single` returns: a swap of the given input
/// amount with the price limit at the far end of the valid range, reported
/// as (input, output) magnitudes.
#[verifier::opaque]
pub open spec fn spec_simulate_exact_input(pool: PoolState, zero_for_one: bool, amount_in: nat)
    -> Result<(nat, nat), Error> {
    if amount_in >= crate::i256::p255() {
        Err(Error::Overflow)
    } else {
        let limit: nat = if zero_for_one { crate::tick_math::min_sqrt_ratio_val() + 1 } else {
            (crate::tick_math::max_sqrt_ratio_val() - 1) as nat
        };
        match crate::swap::spec_swap(pool, zero_for_one, amount_in as int, limit) {
            Err(e) => Err(e),
            Ok((a0, a1)) => {
                let o = if zero_for_one { a1 } else { a0 };
                Ok((amount_in, (if o < 0 { -o } else { o }) as nat))
            },
        }
    }
}

/// Simulates swapping exactly `amount_in` of the input token, with no price
/// limit short of the valid range's end.
pub fn simulate_exact_input_single(pool: &PoolState, zero_for_one: bool, amount_in: &U256)
    -> (r: Result<SwapResult, Error>)
    requires
        pool.wf(),
    ensures
        ({
            let s = spec_simulate_exact_input(*pool, zero_for_one, amount_in.as_nat());
            match r {
                Ok(v) => s == Ok::<(nat, nat), Error>((v.amount_in.as_nat(),
                    v.amount_out.as_nat())) && v.amount_in == *amount_in,
                Err(e) => s == Err::<(nat, nat), Error>(e),
            }
        }),
{
    proof {
        reveal(spec_simulate_exact_input);
    }
    let amt = match crate::safe_cast::to_int256(amount_in) {
        Ok(v) => v,
        Err(e) => {
            return Err(e);
        },
    };
    let limit = if zero_for_one {
        let (v, _) = crate::tick_math::min_sqrt_ratio().overflowing_add(&U256::one());
        v
    } else {
        let (v, _) = crate::tick_math::max_sqrt_ratio().overflowing_sub(&U256::one());
        v
    };
    match crate::swap::swap(pool, zero_for_one, &amt, &limit) {
        Ok((a0, a1)) => {
            let o = if zero_for_one { a1 } else { a0 };
            Ok(SwapResult { amount_in: *amount_in, amount_out: o.unsigned_abs() })
        },
        Err(e) => Err(e),
    }
}

/// What `simulate_exact_output_single` returns: a swap demanding the given
/// output amount, reported as (input, output) magnitudes.
#[verifier::opaque]
pub open spec fn spec_simulate_exact_output(pool: PoolState, zero_for_one: bool, amount_out: nat)
    -> Result<(nat, nat), Error> {
    if amount_out >= crate::i256::p255() {
        Err(Error::Overflow)
    } else {
        let limit: nat = if zero_for_one { crate::tick_math::min_sqrt_ratio_val() + 1 } else {
            (crate::tick_math::max_sqrt_ratio_val() - 1) as nat
        };
        match crate::swap::spec_swap(pool, zero_for_one, -(amount_out as int), limit) {
            Err(e) => Err(e),
            Ok((a0, a1)) => {
                let i = if zero_for_one { a0 } else { a1 };
                let o = if zero_for_one { a1 } else { a0 };
                Ok(((if i < 0 { -i } else { i }) as nat, (if o < 0 { -o } else { o }) as nat))
            },
        }
    }
}

/// Simulates swapping for exactly `amount_out` of the output token, with no
/// price limit short of the valid range's end.
pub fn simulate_exact_output_single(pool: &PoolState, zero_for_one: bool, amount_out: &U256)
    -> (r: Result<SwapResult, Error>)
    requires
        pool.wf(),
    ensures
        ({
            let s = spec_simulate_exact_output(*pool, zero_for_one, amount_out.as_nat());
            match r {
                Ok(v) => s == Ok::<(nat, nat), Error>((v.amount_in.as_nat(),
                    v.amount_out.as_nat())),
                Err(e) => s == Err::<(nat, nat), Error>(e),
            }
        }),
{
    proof {
        reveal(spec_simulate_exact_output);
    }
    let pos = match crate::safe_cast::to_int256(amount_out) {
        Ok(v) => v,
        Err(e) => {
            return Err(e);
        },
    };
    let amt = match pos.checked_neg() {
        Some(v) => v,
        None => {
            return Err(Error::Overflow);
        },
    };
    let limit = if zero_for_one {
        let (v, _) = crate::tick_math::min_sqrt_ratio().overflowing_add(&U256::one());
        v
    } else {
        let (v, _) = crate::tick_math::max_sqrt_ratio().overflowing_sub(&U256::one());
        v
    };
    match crate::swap::swap(pool, zero_for_one, &amt, &limit) {
        Ok((a0, a1)) => {
            let (i, o) = if zero_for_one { (a0, a1) } else { (a1, a0) };
            Ok(SwapResult { amount_in: i.unsigned_abs(), amount_out: o.unsigned_abs() })
        },
        Err(e) => Err(e),
    }
}

/// What `simulate_price_impact` returns: the two legs of a swap run until
/// the spot price has moved by the given percentage.
pub open spec fn spec_simulate_price_impact(pool: PoolState, zero_for_one: bool,
    price_impact: nat) -> Result<(nat, nat), Error> {
    match crate::swap::spec_swap_price_impact(pool, zero_for_one, price_impact) {
        Err(e) => Err(e),
        Ok((a0, a1)) => {
            let i = if zero_for_one { a0 } else { a1 };
            let o = if zero_for_one { a1 } else { a0 };
            Ok(((if i < 0 { -i } else { i }) as nat, (if o < 0 { -o } else { o }) as nat))
        },
    }
}

/// Simulates a swap that moves the spot price by the given percentage.
///
/// A zero impact is rejected with `NoSwapNeeded`, an impact above one
/// hundred percent with `ImpactTooLarge`.
pub fn simulate_price_impact(pool: &PoolState, zero_for_one: bool, price_impact: u32) -> (r:
    Result<SwapResult, Error>)
    requires
        pool.wf(),
    ensures
        ({
            let s = spec_simulate_price_impact(*pool, zero_for_one, price_impact as nat);
            match r {
                Ok(v) => s == Ok::<(nat, nat), Error>((v.amount_in.as_nat(),
                    v.amount_out.as_nat())),
                Err(e) => s == Err::<(nat, nat), Error>(e),
            }
        }),
        price_impact == 0 ==> r == Err::<SwapResult, Error>(Error::NoSwapNeeded),
        price_impact > 100 ==> r == Err::<SwapResult, Error>(Error::ImpactTooLarge),
{
    match crate::swap::swap_price_impact(pool, zero_for_one, price_impact) {
        Ok((a0, a1)) => {
            let (i, o) = if zero_for_one { (a0, a1) } else { (a1, a0) };
            Ok(SwapResult { amount_in: i.unsigned_abs(), amount_out: o.unsigned_abs() })
        },
        Err(e) => Err(e),
    }
}

/// What `simulate_swap_slippage` returns: the two legs of an
/// execution-price-targeted swap, and the realised impact in thousandths of
/// a percent, `100000 - (1000 * exec/spot)^2 / 10` over wrapping 256-bit
/// arithmetic.
#[verifier::opaque]
pub open spec fn spec_simulate_swap_slippage(pool: PoolState, zero_for_one: bool,
    price_impact: nat) -> Result<(nat, nat, nat), Error> {
    match crate::swap::spec_swap_slippage(pool, zero_for_one, price_impact) {
        Err(e) => Err(e),
        Ok(((a0, a1), exec)) => {
            let p0 = pool.slot0.sqrt_price_x96.as_nat();
            match (if zero_for_one {
                crate::full_math::spec_mul_div(exec, 1000, p0)
            } else {
                crate::full_math::spec_mul_div(p0, 1000, exec)
            }) {
                Err(e) => Err(e),
                Ok(ratio) => {
                    let term = ((ratio * ratio) % crate::u256::p256()) / 10;
                    let impact: nat = if 100000 >= term { (100000 - term) as nat } else {
                        (100000 + crate::u256::p256() - term) as nat
                    };
                    let i = if zero_for_one { a0 } else { a1 };
                    let o = if zero_for_one { a1 } else { a0 };
                    Ok(((if i < 0 { -i } else { i }) as nat, (if o < 0 { -o } else { o }) as nat,
                        impact))
                },
            }
        },
    }
}

/// Simulates a swap targeted at the given execution-price impact and
/// reports the realised impact alongside the two legs.
pub fn simulate_swap_slippage(pool: &PoolState, zero_for_one: bool, price_impact: u32) -> (r:
    Result<SwapResultSlippage, Error>)
    requires
        pool.wf(),
    ensures
        ({
            let s = spec_simulate_swap_slippage(*pool, zero_for_one, price_impact as nat);
            match r {
                Ok(v) => s == Ok::<(nat, nat, nat), Error>((v.amount_in.as_nat(),
                    v.amount_out.as_nat(), v.price_impact.as_nat())),
                Err(e) => s == Err::<(nat, nat, nat), Error>(e),
            }
        }),
{
    proof {
        reveal(spec_simulate_swap_slippage);
    }
    let ((a0, a1), exec) = match crate::swap::swap_slippage(pool, zero_for_one, price_impact) {
        Ok(v) => v,
        Err(e) => {
            return Err(e);
        },
    };
    let thousand = U256::from_u64(1000);
    let ratio = match (if zero_for_one {
        crate::full_math::mul_div(&exec, &thousand, &pool.slot0.sqrt_price_x96)
    } else {
        crate::full_math::mul_div(&pool.slot0.sqrt_price_x96, &thousand, &exec)
    }) {
        Ok(v) => v,
        Err(e) => {
            return Err(e);
        },
    };
    let sq = ratio.wrapping_mul(&ratio);
    let ten = U256::from_u64(10);
    let term = sq.div(&ten);
    let base = U256::from_u64(100000);
    let (impact, _) = base.overflowing_sub(&term);
    let (i, o) = if zero_for_one { (a0, a1) } else { (a1, a0) };
    Ok(SwapResultSlippage {
        amount_in: i.unsigned_abs(),
        amount_out: o.unsigned_abs(),
        price_impact: impact,
    })
}

} // verus!
