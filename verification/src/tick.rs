//! Per-tick liquidity bookkeeping: gross and net liquidity, the initialized
//! flag, and fee-growth accounting across a position's boundaries.

use vstd::prelude::*;
use std::collections::HashMap;
use crate::u256::{U256, p256};
use crate::liquidity_math::add_delta;
use crate::tick_math::{MIN_TICK, MAX_TICK};
use crate::errors::Error;

verus! {

broadcast use vstd::std_specs::hash::group_hash_axioms;

/// The record kept for one tick: total liquidity referencing it, the signed
/// delta applied when the price crosses it left-to-right, fee growth on the
/// far side of it, and whether it is initialized at all.
#[derive(Clone, Copy, Debug, PartialEq, Eq, Structural)]
pub struct Info {
    pub liquidity_gross: u128,
    pub liquidity_net: i128,
    pub fee_growth_outside0_x128: U256,
    pub fee_growth_outside1_x128: U256,
    pub tick_cumulative_outside: i64,
    pub seconds_per_liquidity_outside_x128: U256,
    pub seconds_outside: u32,
    pub initialized: bool,
}

impl Info {
    /// The empty record: no liquidity, nothing initialized.
    pub fn empty() -> (r: Info)
        ensures
            r == Info::spec_empty(),
    {
        Info {
            liquidity_gross: 0,
            liquidity_net: 0,
            fee_growth_outside0_x128: U256 { l0: 0, l1: 0, l2: 0, l3: 0 },
            fee_growth_outside1_x128: U256 { l0: 0, l1: 0, l2: 0, l3: 0 },
            tick_cumulative_outside: 0,
            seconds_per_liquidity_outside_x128: U256 { l0: 0, l1: 0, l2: 0, l3: 0 },
            seconds_outside: 0,
            initialized: false,
        }
    }

    /// The empty record, at the spec level.
    pub open spec fn spec_empty() -> Info {
        Info {
            liquidity_gross: 0,
            liquidity_net: 0,
            fee_growth_outside0_x128: U256 { l0: 0, l1: 0, l2: 0, l3: 0 },
            fee_growth_outside1_x128: U256 { l0: 0, l1: 0, l2: 0, l3: 0 },
            tick_cumulative_outside: 0,
            seconds_per_liquidity_outside_x128: U256 { l0: 0, l1: 0, l2: 0, l3: 0 },
            seconds_outside: 0,
            initialized: false,
        }
    }
}

/// The largest liquidity one tick may carry when usable ticks are
/// `tick_spacing` apart: the 128-bit range divided evenly over the usable
/// ticks.
pub fn tick_spacing_to_max_liquidity_per_tick(tick_spacing: i32) -> (r: u128)
    requires
        1 <= tick_spacing <= MAX_TICK,
    ensures
        ({
            let c = 887272nat / tick_spacing as nat;
            r == u128::MAX as nat / (2 * c + 1)
        }),
{
    let compressed: u32 = 887272u32 / (tick_spacing as u32);
    let num_ticks: u32 = 2 * compressed + 1;
    u128::MAX / (num_ticks as u128)
}

/// What a tick update does to one record: the gross liquidity moves by the
/// delta, the initialized flag and fee bookkeeping follow, and the net
/// liquidity takes the delta on the side the bound faces.
pub open spec fn spec_update_tick(old_info: Info, tick: int, tick_current: int,
    liquidity_delta: int, fee_growth_global0_x128: U256, fee_growth_global1_x128: U256,
    seconds_per_liquidity_cumulative_x128: U256, tick_cumulative: i64, time: u32, upper: bool,
    max_liquidity: nat) -> Result<(Info, bool), Error> {
    let before = old_info.liquidity_gross as int;
    let after = before + liquidity_delta;
    if liquidity_delta < 0 && after < 0 {
        Err(Error::LiquiditySubtractionUnderflow)
    } else if liquidity_delta >= 0 && after > u128::MAX {
        Err(Error::LiquidityAdditionOverflow)
    } else if after > max_liquidity {
        Err(Error::ExceedsMaxLiquidityPerTick)
    } else {
        let flipped = (after == 0) != (before == 0);
        let seeded = if before == 0 {
            Info {
                fee_growth_outside0_x128: if tick <= tick_current {
                    fee_growth_global0_x128
                } else {
                    old_info.fee_growth_outside0_x128
                },
                fee_growth_outside1_x128: if tick <= tick_current {
                    fee_growth_global1_x128
                } else {
                    old_info.fee_growth_outside1_x128
                },
                seconds_per_liquidity_outside_x128: if tick <= tick_current {
                    seconds_per_liquidity_cumulative_x128
                } else {
                    old_info.seconds_per_liquidity_outside_x128
                },
                tick_cumulative_outside: if tick <= tick_current {
                    tick_cumulative
                } else {
                    old_info.tick_cumulative_outside
                },
                seconds_outside: if tick <= tick_current { time } else {
                    old_info.seconds_outside
                },
                initialized: true,
                ..old_info
            }
        } else {
            old_info
        };
        let net = if upper {
            seeded.liquidity_net - liquidity_delta
        } else {
            seeded.liquidity_net + liquidity_delta
        };
        if net < i128::MIN || net > i128::MAX {
            Err(Error::Overflow)
        } else {
            Ok((
                Info {
                    liquidity_gross: after as u128,
                    liquidity_net: net as i128,
                    ..seeded
                },
                flipped,
            ))
        }
    }
}

/// Applies a liquidity delta to a tick, creating its record if needed.
///
/// Returns whether the tick flipped between initialized and uninitialized.
/// Fails as `spec_update_tick` states; on failure the mapping is unchanged.
pub fn update(
    mapping: &mut HashMap<i32, Info>,
    tick: i32,
    tick_current: i32,
    liquidity_delta: i128,
    fee_growth_global0_x128: &U256,
    fee_growth_global1_x128: &U256,
    seconds_per_liquidity_cumulative_x128: &U256,
    tick_cumulative: i64,
    time: u32,
    upper: bool,
    max_liquidity: u128,
) -> (r: Result<bool, Error>)
    ensures
        ({
            let old_info = if old(mapping)@.contains_key(tick) {
                old(mapping)@[tick]
            } else {
                Info::spec_empty()
            };
            match spec_update_tick(old_info, tick as int, tick_current as int,
                liquidity_delta as int, *fee_growth_global0_x128, *fee_growth_global1_x128,
                *seconds_per_liquidity_cumulative_x128, tick_cumulative, time, upper,
                max_liquidity as nat) {
                Ok((new_info, flipped)) => r == Ok::<bool, Error>(flipped) && final(mapping)@
                    == old(mapping)@.insert(tick, new_info),
                Err(e) => r == Err::<bool, Error>(e) && final(mapping)@ == old(mapping)@,
            }
        }),
{
    let mut info = match mapping.get(&tick) {
        Some(v) => *v,
        None => Info::empty(),
    };
    let liquidity_gross_before = info.liquidity_gross;
    let liquidity_gross_after = match add_delta(liquidity_gross_before, liquidity_delta) {
        Ok(v) => v,
        Err(e) => {
            return Err(e);
        },
    };
    if liquidity_gross_after > max_liquidity {
        return Err(Error::ExceedsMaxLiquidityPerTick);
    }
    let flipped = (liquidity_gross_after == 0) != (liquidity_gross_before == 0);
    if liquidity_gross_before == 0 {
        if tick <= tick_current {
            info.fee_growth_outside0_x128 = *fee_growth_global0_x128;
            info.fee_growth_outside1_x128 = *fee_growth_global1_x128;
            info.seconds_per_liquidity_outside_x128 = *seconds_per_liquidity_cumulative_x128;
            info.tick_cumulative_outside = tick_cumulative;
            info.seconds_outside = time;
        }
        info.initialized = true;
    }
    info.liquidity_gross = liquidity_gross_after;
    if upper {
        match info.liquidity_net.checked_sub(liquidity_delta) {
            Some(val) => {
                info.liquidity_net = val;
            },
            None => {
                return Err(Error::Overflow);
            },
        }
    } else {
        match info.liquidity_net.checked_add(liquidity_delta) {
            Some(val) => {
                info.liquidity_net = val;
            },
            None => {
                return Err(Error::Overflow);
            },
        }
    }
    mapping.insert(tick, info);
    Ok(flipped)
}

/// Removes a tick's record from the ledger.
pub fn clear(mapping: &mut HashMap<i32, Info>, tick: &i32)
    ensures
        final(mapping)@ == old(mapping)@.remove(*tick),
{
    mapping.remove(tick);
}

/// What `get_fee_growth_inside` computes for one token's global and outside
/// fee growth, with the 256-bit wrap-around of the on-chain accounting.
pub open spec fn spec_growth_inside(global: nat, lower_outside: nat, upper_outside: nat,
    tick_lower: int, tick_upper: int, tick_current: int) -> nat {
    let below = if tick_current >= tick_lower {
        lower_outside
    } else {
        sub_wrap(global, lower_outside)
    };
    let above = if tick_current < tick_upper {
        upper_outside
    } else {
        sub_wrap(global, upper_outside)
    };
    sub_wrap(sub_wrap(global, below), above)
}

/// Subtraction modulo `2^256`.
pub open spec fn sub_wrap(a: nat, b: nat) -> nat {
    if a >= b {
        (a - b) as nat
    } else {
        (a + p256() - b) as nat
    }
}

/// The all-time fee growth per unit of liquidity inside a position's tick
/// boundaries, for token0 and token1.
///
/// Fails with `TickNotLoaded` exactly when a boundary tick's record is not
/// in the ledger.
#[verifier::rlimit(100)]
pub fn get_fee_growth_inside(
    mapping: &HashMap<i32, Info>,
    tick_lower: i32,
    tick_upper: i32,
    tick_current: i32,
    fee_growth_global0_x128: &U256,
    fee_growth_global1_x128: &U256,
) -> (r: Result<(U256, U256), Error>)
    ensures
        !(mapping@.contains_key(tick_lower) && mapping@.contains_key(tick_upper)) ==> r == Err::<
            (U256, U256),
            Error,
        >(Error::TickNotLoaded),
        mapping@.contains_key(tick_lower) && mapping@.contains_key(tick_upper) ==> (r matches Ok(v)
            && v.0.as_nat() == spec_growth_inside(
                fee_growth_global0_x128.as_nat(),
                mapping@[tick_lower].fee_growth_outside0_x128.as_nat(),
                mapping@[tick_upper].fee_growth_outside0_x128.as_nat(),
                tick_lower as int, tick_upper as int, tick_current as int)
            && v.1.as_nat() == spec_growth_inside(
                fee_growth_global1_x128.as_nat(),
                mapping@[tick_lower].fee_growth_outside1_x128.as_nat(),
                mapping@[tick_upper].fee_growth_outside1_x128.as_nat(),
                tick_lower as int, tick_upper as int, tick_current as int)),
{
    let lower = match mapping.get(&tick_lower) {
        Some(v) => *v,
        None => {
            return Err(Error::TickNotLoaded);
        },
    };
    let upper = match mapping.get(&tick_upper) {
        Some(v) => *v,
        None => {
            return Err(Error::TickNotLoaded);
        },
    };
    let (below0, below1) = if tick_current >= tick_lower {
        (lower.fee_growth_outside0_x128, lower.fee_growth_outside1_x128)
    } else {
        (fee_growth_global0_x128.overflowing_sub(&lower.fee_growth_outside0_x128).0,
         fee_growth_global1_x128.overflowing_sub(&lower.fee_growth_outside1_x128).0)
    };
    let (above0, above1) = if tick_current < tick_upper {
        (upper.fee_growth_outside0_x128, upper.fee_growth_outside1_x128)
    } else {
        (fee_growth_global0_x128.overflowing_sub(&upper.fee_growth_outside0_x128).0,
         fee_growth_global1_x128.overflowing_sub(&upper.fee_growth_outside1_x128).0)
    };
    let inside0 = fee_growth_global0_x128.overflowing_sub(&below0).0.overflowing_sub(&above0).0;
    let inside1 = fee_growth_global1_x128.overflowing_sub(&below1).0.overflowing_sub(&above1).0;
    Ok((inside0, inside1))
}

} // verus!
