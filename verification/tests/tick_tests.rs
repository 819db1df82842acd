//! Tests of the tick/price codec, the bitmap addressing and scan, and the
//! per-tick liquidity ledger.

use std::collections::HashMap;
use clamm_sim::u256::U256;
use clamm_sim::errors::Error;
use clamm_sim::tick_math::{get_sqrt_ratio_at_tick, get_tick_at_sqrt_ratio, min_sqrt_ratio,
    max_sqrt_ratio, MIN_TICK, MAX_TICK};
use clamm_sim::tick_bitmap::{position, flip_tick, next_initialized_tick_within_one_word};
use clamm_sim::tick::{Info, update, clear, get_fee_growth_inside,
    tick_spacing_to_max_liquidity_per_tick};
use clamm_sim::pool::{PoolState, Slot0};

fn empty_info() -> Info {
    Info {
        liquidity_gross: 0,
        liquidity_net: 0,
        fee_growth_outside0_x128: U256::zero(),
        fee_growth_outside1_x128: U256::zero(),
        tick_cumulative_outside: 0,
        seconds_per_liquidity_outside_x128: U256::zero(),
        seconds_outside: 0,
        initialized: false,
    }
}

fn pool_with(bitmap: Vec<(i16, U256)>, ticks: Vec<(i32, Info)>, tick: i32, price: U256,
    spacing: i32, liquidity: u128) -> PoolState {
    let mut bm = HashMap::new();
    for (k, v) in bitmap {
        bm.insert(k, v);
    }
    let mut tm = HashMap::new();
    for (k, v) in ticks {
        tm.insert(k, v);
    }
    PoolState {
        tick_spacing: spacing,
        fee: 0,
        fee_growth_global0_x128: U256::zero(),
        fee_growth_global1_x128: U256::zero(),
        tick_bitmap: bm,
        slot0: Slot0 { sqrt_price_x96: price, tick, unlocked: true },
        liquidity,
        ticks: tm,
    }
}

#[test]
fn sqrt_ratio_at_range_ends() {
    assert_eq!(get_sqrt_ratio_at_tick(MIN_TICK).unwrap(), min_sqrt_ratio());
    assert_eq!(get_sqrt_ratio_at_tick(MAX_TICK).unwrap(), max_sqrt_ratio());
    assert_eq!(get_sqrt_ratio_at_tick(0).unwrap(), U256::pow2_exec(96));
    assert_eq!(get_sqrt_ratio_at_tick(MAX_TICK + 1), Err(Error::TickOutOfBounds));
    assert_eq!(get_sqrt_ratio_at_tick(MIN_TICK - 1), Err(Error::TickOutOfBounds));
}

#[test]
fn sqrt_ratio_known_values() {
    assert_eq!(
        get_sqrt_ratio_at_tick(1).unwrap(),
        U256::from_u128(79232123823359799118286999568u128)
    );
    assert_eq!(
        get_sqrt_ratio_at_tick(-1).unwrap(),
        U256::from_u128(79224201403219477170569942574u128)
    );
    assert_eq!(
        get_sqrt_ratio_at_tick(200).unwrap(),
        U256::from_u128(80024378775772204256025656563u128)
    );
}

#[test]
fn price_at_tick_strictly_increasing() {
    let samples = [MIN_TICK, -443636, -100000, -203, -2, -1, 0, 1, 2, 203, 100000, 443636,
        MAX_TICK - 1, MAX_TICK];
    let mut i = 1;
    while i < samples.len() {
        let lo = get_sqrt_ratio_at_tick(samples[i - 1]).unwrap();
        let hi = get_sqrt_ratio_at_tick(samples[i]).unwrap();
        assert!(lo.lt(&hi));
        i += 1;
    }
}

#[test]
fn tick_price_round_trip() {
    let samples = [MIN_TICK, -443636, -100000, -50000, -203, -2, -1, 0, 1, 2, 203, 50000,
        100000, 443636, 887271];
    for t in samples {
        let p = get_sqrt_ratio_at_tick(t).unwrap();
        assert_eq!(get_tick_at_sqrt_ratio(&p).unwrap(), t);
    }
}

#[test]
fn tick_at_ratio_bounds() {
    assert_eq!(get_tick_at_sqrt_ratio(&min_sqrt_ratio()).unwrap(), MIN_TICK);
    let (below, _) = min_sqrt_ratio().overflowing_sub(&U256::one());
    assert_eq!(get_tick_at_sqrt_ratio(&below), Err(Error::PriceOutOfBounds));
    assert_eq!(get_tick_at_sqrt_ratio(&max_sqrt_ratio()), Err(Error::PriceOutOfBounds));
    let (top, _) = max_sqrt_ratio().overflowing_sub(&U256::one());
    assert_eq!(get_tick_at_sqrt_ratio(&top).unwrap(), MAX_TICK - 1);
}

#[test]
fn position_splits_ticks() {
    assert_eq!(position(0), (0, 0));
    assert_eq!(position(1), (0, 1));
    assert_eq!(position(255), (0, 255));
    assert_eq!(position(256), (1, 0));
    assert_eq!(position(-1), (-1, 255));
    assert_eq!(position(-256), (-1, 0));
    assert_eq!(position(-257), (-2, 255));
}

#[test]
fn flip_tick_toggles_bits() {
    let mut bm: HashMap<i16, U256> = HashMap::new();
    // the bitmap is addressed by the raw tick: tick 200 is bit 200 of word 0
    flip_tick(&mut bm, 200, 200).unwrap();
    assert_eq!(*bm.get(&0).unwrap(), U256::new(0, 0, 0, 256));
    flip_tick(&mut bm, 0, 200).unwrap();
    assert_eq!(*bm.get(&0).unwrap(), U256::new(1, 0, 0, 256));
    flip_tick(&mut bm, 200, 200).unwrap();
    assert_eq!(*bm.get(&0).unwrap(), U256::from_u64(1));
    assert_eq!(flip_tick(&mut bm, 70, 200), Err(Error::TickNotSpaced));
    // tick -200 lands at bit 56 of word -1
    flip_tick(&mut bm, -200, 200).unwrap();
    assert_eq!(*bm.get(&-1).unwrap(), U256::new(1u64 << 56, 0, 0, 0));
}

#[test]
fn scan_within_one_word() {
    let pool = pool_with(
        vec![(0, U256::from_u64(2))],
        vec![(200, empty_info())],
        0,
        U256::pow2_exec(96),
        200,
        1,
    );
    // downward from tick 0: bit zero is clear, so the word edge comes back
    assert_eq!(next_initialized_tick_within_one_word(&pool, 0, true).unwrap(), (0, false));
    // upward from tick 0: tick 200 (bit one) is initialized
    assert_eq!(next_initialized_tick_within_one_word(&pool, 0, false).unwrap(), (200, true));
    // upward from tick 200: nothing else in the word
    assert_eq!(next_initialized_tick_within_one_word(&pool, 200, false).unwrap(), (51000, false));
    // downward from tick 250 (not aligned): finds tick 200
    assert_eq!(next_initialized_tick_within_one_word(&pool, 250, true).unwrap(), (200, true));
    // a word outside the loaded window reports itself
    assert_eq!(
        next_initialized_tick_within_one_word(&pool, 51200, false),
        Err(Error::WordNotLoaded)
    );
}

#[test]
fn max_liquidity_per_tick_values() {
    assert_eq!(
        tick_spacing_to_max_liquidity_per_tick(60),
        11505743598341114571880798222544994u128
    );
    assert_eq!(tick_spacing_to_max_liquidity_per_tick(887272), u128::MAX / 3);
}

#[test]
fn update_and_clear_ticks() {
    let mut ticks: HashMap<i32, Info> = HashMap::new();
    let zero = U256::zero();
    // adding liquidity to a fresh tick initializes it
    let flipped = update(&mut ticks, 60, 0, 500, &zero, &zero, &zero, 0, 0, false, 10000)
        .unwrap();
    assert!(flipped);
    let info = ticks.get(&60).unwrap();
    assert_eq!(info.liquidity_gross, 500);
    assert_eq!(info.liquidity_net, 500);
    assert!(info.initialized);
    // the same delta on the upper bound cancels the net liquidity
    let flipped = update(&mut ticks, 60, 0, 500, &zero, &zero, &zero, 0, 0, true, 10000)
        .unwrap();
    assert!(!flipped);
    assert_eq!(ticks.get(&60).unwrap().liquidity_net, 0);
    assert_eq!(ticks.get(&60).unwrap().liquidity_gross, 1000);
    // exceeding the cap is rejected and leaves the ledger unchanged
    assert_eq!(
        update(&mut ticks, 60, 0, 9500, &zero, &zero, &zero, 0, 0, false, 10000),
        Err(Error::ExceedsMaxLiquidityPerTick)
    );
    assert_eq!(ticks.get(&60).unwrap().liquidity_gross, 1000);
    // removing more than there is fails
    assert_eq!(
        update(&mut ticks, 60, 0, -2000, &zero, &zero, &zero, 0, 0, false, 10000),
        Err(Error::LiquiditySubtractionUnderflow)
    );
    clear(&mut ticks, &60);
    assert!(ticks.get(&60).is_none());
}

#[test]
fn fee_growth_inside_range() {
    let mut ticks: HashMap<i32, Info> = HashMap::new();
    let mut lower = empty_info();
    lower.fee_growth_outside0_x128 = U256::from_u64(100);
    lower.fee_growth_outside1_x128 = U256::from_u64(10);
    let mut upper = empty_info();
    upper.fee_growth_outside0_x128 = U256::from_u64(300);
    upper.fee_growth_outside1_x128 = U256::from_u64(30);
    ticks.insert(-60, lower);
    ticks.insert(60, upper);
    let g0 = U256::from_u64(1000);
    let g1 = U256::from_u64(100);
    // current tick inside the range: inside = global - below - above
    let (f0, f1) = get_fee_growth_inside(&ticks, -60, 60, 0, &g0, &g1).unwrap();
    assert_eq!(f0, U256::from_u64(600));
    assert_eq!(f1, U256::from_u64(60));
    // a missing boundary reports the window
    assert_eq!(
        get_fee_growth_inside(&ticks, -120, 60, 0, &g0, &g1),
        Err(Error::TickNotLoaded)
    );
}
