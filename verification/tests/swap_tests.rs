//! Tests of the swap engine: single bounded steps, tick-crossing swaps,
//! exact-input/exact-output consistency, and the price-impact entry points.

use std::collections::HashMap;
use clamm_sim::u256::U256;
use clamm_sim::i256::I256;
use clamm_sim::errors::Error;
use clamm_sim::pool::{PoolState, Slot0, simulate_exact_input_single,
    simulate_exact_output_single, simulate_price_impact, simulate_swap_slippage};
use clamm_sim::swap::{swap, swap_with_final_state, swap_price_impact, swap_slippage,
    calc_sqrt_price_limit_from_price_impact, find_tick_at_slippage};
use clamm_sim::swap_math::{compute_swap_step, compute_swap_step_slippage};
use clamm_sim::sqrt_price_math::{get_next_sqrt_price_from_input, get_next_sqrt_price_from_output,
    get_amount0_delta_round_up, get_amount1_delta_round_up, get_amount0_delta, get_amount1_delta};
use clamm_sim::tick_math::{get_sqrt_ratio_at_tick, max_sqrt_ratio};
use clamm_sim::tick::Info;

fn info_with_net(net: i128) -> Info {
    Info {
        liquidity_gross: 1_000_000_000_000_000_000u128,
        liquidity_net: net,
        fee_growth_outside0_x128: U256::zero(),
        fee_growth_outside1_x128: U256::zero(),
        tick_cumulative_outside: 0,
        seconds_per_liquidity_outside_x128: U256::zero(),
        seconds_outside: 0,
        initialized: true,
    }
}

/// A pool at tick zero with five quintillion units of liquidity, a tick
/// spacing of two hundred, no fee, and one initialized tick at +200 whose
/// net liquidity is minus one quintillion.
fn crossing_pool() -> PoolState {
    let mut bm: HashMap<i16, U256> = HashMap::new();
    bm.insert(0, U256::from_u64(2));
    bm.insert(-1, U256::zero());
    let mut tm: HashMap<i32, Info> = HashMap::new();
    tm.insert(200, info_with_net(-1_000_000_000_000_000_000i128));
    PoolState {
        tick_spacing: 200,
        fee: 0,
        fee_growth_global0_x128: U256::zero(),
        fee_growth_global1_x128: U256::zero(),
        tick_bitmap: bm,
        slot0: Slot0 { sqrt_price_x96: U256::pow2_exec(96), tick: 0, unlocked: true },
        liquidity: 5_000_000_000_000_000_000u128,
        ticks: tm,
    }
}

#[test]
fn swap_crosses_initialized_tick() {
    let pool = crossing_pool();
    let amount_in = I256::from_i128(100_000_000_000_000_000i128);
    let (maxless, _) = max_sqrt_ratio().overflowing_sub(&U256::one());
    let ((a0, a1), state) = swap_with_final_state(&pool, false, &amount_in, &maxless).unwrap();
    // the whole input is consumed: the loop ended with nothing remaining
    assert_eq!(a1, amount_in);
    assert_eq!(state.amount_specified_remaining, I256::from_i128(0));
    // crossing the tick dropped the active liquidity by its net amount
    assert_eq!(state.liquidity, 4_000_000_000_000_000_000u128);
    // token0 flows out
    assert!(a0.lt(&I256::from_i128(0)));
    // the price moved above the crossed boundary
    assert!(get_sqrt_ratio_at_tick(200).unwrap().lt(&state.sqrt_price_x96));
    assert!(state.tick >= 200);
}

#[test]
fn swap_validations() {
    let pool = crossing_pool();
    let (maxless, _) = max_sqrt_ratio().overflowing_sub(&U256::one());
    assert_eq!(
        swap(&pool, false, &I256::from_i128(0), &maxless),
        Err(Error::SwapAmountZero)
    );
    // a limit on the wrong side of the current price is rejected
    assert_eq!(
        swap(&pool, true, &I256::from_i128(100), &maxless),
        Err(Error::InvalidPriceLimit)
    );
    let mut locked = crossing_pool();
    locked.slot0.unlocked = false;
    assert_eq!(
        swap(&locked, false, &I256::from_i128(100), &maxless),
        Err(Error::PoolLocked)
    );
}

#[test]
fn exact_input_and_output_agree() {
    let pool = crossing_pool();
    let x = U256::from_u64(20_000_000_000_000_000u64);
    let r1 = simulate_exact_input_single(&pool, false, &x).unwrap();
    assert_eq!(r1.amount_in, x);
    assert!(U256::zero().lt(&r1.amount_out));
    // asking for exactly that output requires no more input than was paid
    let r2 = simulate_exact_output_single(&pool, false, &r1.amount_out).unwrap();
    assert_eq!(r2.amount_out, r1.amount_out);
    assert!(r2.amount_in.le(&x));
    // and the rounding never lets the pool lose more than a few units
    let (gap, _) = x.overflowing_sub(&r2.amount_in);
    assert!(gap.le(&U256::from_u64(10)));
}

#[test]
fn swap_step_at_equal_prices_is_empty() {
    let p = U256::pow2_exec(96);
    let (next, amount_in, amount_out, fee) = compute_swap_step(
        &p, &p, 1_000_000_000_000_000_000u128, &I256::from_i128(1_000_000), 3000).unwrap();
    assert_eq!(next, p);
    assert_eq!(amount_in, U256::zero());
    assert_eq!(amount_out, U256::zero());
    assert_eq!(fee, U256::zero());
    // the exact-output side behaves the same
    let (next, amount_in, amount_out, fee) = compute_swap_step(
        &p, &p, 1_000_000_000_000_000_000u128, &I256::from_i128(-1_000_000), 3000).unwrap();
    assert_eq!(next, p);
    assert_eq!(amount_in, U256::zero());
    assert_eq!(amount_out, U256::zero());
    assert_eq!(fee, U256::zero());
}

#[test]
fn price_impact_validations() {
    let pool = crossing_pool();
    assert_eq!(
        swap_price_impact(&pool, true, 0),
        Err(Error::NoSwapNeeded)
    );
    assert_eq!(
        swap_price_impact(&pool, true, 101),
        Err(Error::ImpactTooLarge)
    );
    assert_eq!(
        simulate_price_impact(&pool, true, 0),
        Err(Error::NoSwapNeeded)
    );
    // one hundred percent drives the limit to zero, which no swap can reach
    assert_eq!(
        swap_price_impact(&pool, true, 100),
        Err(Error::InvalidPriceLimit)
    );
}

#[test]
fn price_impact_reaches_its_limit() {
    let pool = crossing_pool();
    let limit = calc_sqrt_price_limit_from_price_impact(
        &pool.slot0.sqrt_price_x96, 99, true).unwrap();
    let ((a0, a1), state) = swap_with_final_state(
        &pool, true, &I256::max_value(), &limit).unwrap();
    // the swap ran all the way down to the derived limit without overflowing
    assert_eq!(state.sqrt_price_x96, limit);
    assert!(I256::from_i128(0).lt(&a0));
    assert!(a1.lt(&I256::from_i128(0)));
    let r = swap_price_impact(&pool, true, 99).unwrap();
    assert_eq!(r.0, a0);
    assert_eq!(r.1, a1);
}

#[test]
fn next_price_error_cases() {
    let p = U256::pow2_exec(96);
    let l = 5_000_000_000_000_000_000u128;
    // a zero amount cannot define a price move
    assert_eq!(
        clamm_sim::sqrt_price_math::get_next_sqrt_price_from_amount0_rounding_up(
            &p, l, &U256::zero(), true),
        Err(Error::AmountIsZero)
    );
    // removing more token1 than the whole price is worth
    let huge = U256::from_u128(1u128 << 100);
    assert_eq!(
        clamm_sim::sqrt_price_math::get_next_sqrt_price_from_amount1_rounding_down(
            &p, 1, &huge, false),
        Err(Error::PriceUnderflow)
    );
    // zero liquidity supports no move at all
    assert_eq!(
        get_next_sqrt_price_from_input(&p, 0, &U256::one(), true),
        Err(Error::PriceOrLiquidityZero)
    );
}

#[test]
fn next_price_moves_against_the_swapper() {
    let p = U256::pow2_exec(96);
    let l = 5_000_000_000_000_000_000u128;
    let amount = U256::from_u64(1_000_000_000u64);
    // token0 in pushes the price down, token1 in pushes it up
    let down = get_next_sqrt_price_from_input(&p, l, &amount, true).unwrap();
    assert!(down.lt(&p));
    let up = get_next_sqrt_price_from_input(&p, l, &amount, false).unwrap();
    assert!(p.lt(&up));
    // taking token1 out pushes the price down
    let out_down = get_next_sqrt_price_from_output(&p, l, &amount, true).unwrap();
    assert!(out_down.lt(&p));
}

#[test]
fn amount_deltas_between_prices() {
    let lo = get_sqrt_ratio_at_tick(-200).unwrap();
    let hi = U256::pow2_exec(96);
    let l = 5_000_000_000_000_000_000u128;
    let a0_up = get_amount0_delta_round_up(&lo, &hi, l, true).unwrap();
    let a0_dn = get_amount0_delta_round_up(&hi, &lo, l, false).unwrap();
    // order-independent, and rounding up never gives less
    assert!(a0_dn.le(&a0_up));
    let (gap, _) = a0_up.overflowing_sub(&a0_dn);
    assert!(gap.le(&U256::from_u64(1)));
    let a1_up = get_amount1_delta_round_up(&lo, &hi, l, true).unwrap();
    assert!(U256::zero().lt(&a1_up));
    // the signed variants flip with the liquidity sign
    let s_pos = get_amount0_delta(&lo, &hi, 1_000_000i128).unwrap();
    let s_neg = get_amount0_delta(&lo, &hi, -1_000_000i128).unwrap();
    assert!(I256::from_i128(0).lt(&s_pos));
    assert!(s_neg.lt(&I256::from_i128(0)));
    let s1 = get_amount1_delta(&lo, &hi, 1_000_000i128).unwrap();
    assert!(I256::from_i128(0).lt(&s1));
}

/// A pool sitting between initialized ticks at 0 and -200, used by the
/// execution-price tests: the current tick is +100 so the first step moves.
fn slippage_pool() -> PoolState {
    let mut bm: HashMap<i16, U256> = HashMap::new();
    bm.insert(0, U256::from_u64(3));
    bm.insert(-1, U256::new(0, 0, 0, 0x8000000000000000u64));
    let mut tm: HashMap<i32, Info> = HashMap::new();
    tm.insert(0, info_with_net(0));
    tm.insert(200, info_with_net(-1_000_000_000_000_000_000i128));
    tm.insert(-200, info_with_net(1_000_000_000_000_000_000i128));
    PoolState {
        tick_spacing: 200,
        fee: 0,
        fee_growth_global0_x128: U256::zero(),
        fee_growth_global1_x128: U256::zero(),
        tick_bitmap: bm,
        slot0: Slot0 {
            sqrt_price_x96: U256::from_u128(79625275426524748796330556128u128),
            tick: 100,
            unlocked: true,
        },
        liquidity: 5_000_000_000_000_000_000u128,
        ticks: tm,
    }
}

#[test]
fn slippage_validations() {
    let pool = slippage_pool();
    assert_eq!(swap_slippage(&pool, true, 0), Err(Error::NoSwapNeeded));
    assert_eq!(swap_slippage(&pool, true, 101), Err(Error::ImpactTooLarge));
    assert_eq!(simulate_swap_slippage(&pool, true, 0), Err(Error::NoSwapNeeded));
}

#[test]
fn slippage_hits_the_execution_target() {
    let pool = slippage_pool();
    let r = simulate_swap_slippage(&pool, true, 10).unwrap();
    assert!(U256::zero().lt(&r.amount_in));
    assert!(U256::zero().lt(&r.amount_out));
    // the realised impact is within one thousandth-of-a-percent band of the
    // requested ten percent
    let requested = U256::from_u64(10 * 1000);
    let (gap, _) = r.price_impact.overflowing_sub(&requested);
    assert!(gap.le(&U256::from_u64(1000)));
}

#[test]
fn refinement_walk_stops_at_target() {
    // walking down from tick 100 with unit deltas stops once the running
    // execution price is no longer above the target
    let curr = U256::pow2_exec(96);
    let target = U256::from_u128(79228162514264337593543950336u128 / 100 * 99);
    let d0 = U256::from_u64(1_000_000_000);
    let d1 = U256::from_u64(1_000_000_000);
    let (t, nd0, nd1) = find_tick_at_slippage(
        100, 99, &curr, &target, &d0, &d1, 5_000_000_000_000_000_000u128).unwrap();
    assert!(t < 100);
    assert!(d0.le(&nd0));
    assert!(d1.le(&nd1));
}

#[test]
fn slippage_step_matches_plain_deltas() {
    let current = U256::pow2_exec(96);
    let target = get_sqrt_ratio_at_tick(-200).unwrap();
    let l = 5_000_000_000_000_000_000u128;
    // a limit of one is below any reachable execution price, so no walk runs
    let (zero, amount_in, amount_out, fee) = compute_swap_step_slippage(
        &U256::from_u64(4), &U256::from_u64(1), &U256::one(), &current, &target, 0, l, 0)
        .unwrap();
    assert_eq!(zero, U256::zero());
    assert_eq!(fee, U256::zero());
    assert_eq!(amount_in, get_amount0_delta_round_up(&target, &current, l, true).unwrap());
    assert_eq!(amount_out, get_amount1_delta_round_up(&target, &current, l, false).unwrap());
}
