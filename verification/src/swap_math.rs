//! One bounded step of a swap: how far the price can move within the
//! current liquidity range, and the input, output and fee amounts realised.

use vstd::prelude::*;
use crate::u256::{U256, p256};
use vstd::arithmetic::mul::lemma_mul_inequality;
use crate::i256::I256;
use crate::full_math::{self, res_nat, spec_mul_div, spec_mul_div_rounding_up, ceil_div,
    lemma_ceil_div};
use crate::sqrt_price_math::{self, spec_amount0_delta_up, spec_amount1_delta_up,
    spec_next_price_from_input, spec_next_price_from_output};
use crate::errors::Error;

verus! {

/// A result of four words, seen at the value level.
pub open spec fn res_nat4(r: Result<(U256, U256, U256, U256), Error>)
    -> Result<(nat, nat, nat, nat), Error> {
    match r {
        Ok(v) => Ok((v.0.as_nat(), v.1.as_nat(), v.2.as_nat(), v.3.as_nat())),
        Err(e) => Err(e),
    }
}

/// The first stage of a swap step: the price the step ends on, and the
/// bound-to-target amount computed on the way (the input amount under
/// exact-input, the output amount under exact-output).
#[verifier::opaque]
pub open spec fn spec_swap_step_price(current: nat, target: nat, liquidity: nat,
    amount_remaining: int, fee_pips: nat) -> Result<(nat, nat), Error> {
    let zero_for_one = current >= target;
    let exact_in = amount_remaining >= 0;
    if exact_in {
        match spec_mul_div(amount_remaining as nat, (1000000 - fee_pips) as nat, 1000000) {
            Err(e) => Err(e),
            Ok(less_fee) => match (if zero_for_one {
                spec_amount0_delta_up(target, current, liquidity, true)
            } else {
                spec_amount1_delta_up(current, target, liquidity, true)
            }) {
                Err(e) => Err(e),
                Ok(amount_in) => if less_fee >= amount_in {
                    Ok((target, amount_in))
                } else {
                    match spec_next_price_from_input(current, liquidity, less_fee, zero_for_one) {
                        Ok(np) => Ok((np, amount_in)),
                        Err(e) => Err(e),
                    }
                },
            },
        }
    } else {
        match (if zero_for_one {
            spec_amount1_delta_up(target, current, liquidity, false)
        } else {
            spec_amount0_delta_up(current, target, liquidity, false)
        }) {
            Err(e) => Err(e),
            Ok(amount_out) => if (-amount_remaining) as nat >= amount_out {
                Ok((target, amount_out))
            } else {
                match spec_next_price_from_output(
                    current, liquidity, (-amount_remaining) as nat, zero_for_one) {
                    Ok(np) => Ok((np, amount_out)),
                    Err(e) => Err(e),
                }
            },
        }
    }
}

/// What `compute_swap_step` returns, as a function of the values alone: the
/// step's end price, then the amounts recomputed precisely between the two
/// prices (reusing the stage-one amount when the step landed exactly on the
/// target in its own direction), the output clamped to the demand, and the
/// fee.
#[verifier::opaque]
pub open spec fn spec_compute_swap_step(current: nat, target: nat, liquidity: nat,
    amount_remaining: int, fee_pips: nat) -> Result<(nat, nat, nat, nat), Error> {
    let zero_for_one = current >= target;
    let exact_in = amount_remaining >= 0;
    match spec_swap_step_price(current, target, liquidity, amount_remaining, fee_pips) {
        Err(e) => Err(e),
        Ok((next, first)) => {
            let maxed = next == target;
            let ain_r = if zero_for_one {
                if !(maxed && exact_in) {
                    spec_amount0_delta_up(next, current, liquidity, true)
                } else {
                    Ok(first)
                }
            } else {
                if !(maxed && exact_in) {
                    spec_amount1_delta_up(current, next, liquidity, true)
                } else {
                    Ok(first)
                }
            };
            let aout_r = if zero_for_one {
                if !(maxed && !exact_in) {
                    spec_amount1_delta_up(next, current, liquidity, false)
                } else {
                    Ok(if exact_in { 0nat } else { first })
                }
            } else {
                if !(maxed && !exact_in) {
                    spec_amount0_delta_up(current, next, liquidity, false)
                } else {
                    Ok(if exact_in { 0nat } else { first })
                }
            };
            match (ain_r, aout_r) {
                (Ok(ain), Ok(aout0)) => {
                    let aout = if !exact_in && aout0 > (-amount_remaining) as nat {
                        (-amount_remaining) as nat
                    } else {
                        aout0
                    };
                    let fee_r = if exact_in && next != target {
                        let rem = amount_remaining as nat;
                        Ok(if rem >= ain { (rem - ain) as nat } else {
                            (rem + p256() - ain) as nat
                        })
                    } else {
                        spec_mul_div_rounding_up(ain, fee_pips, (1000000 - fee_pips) as nat)
                    };
                    match fee_r {
                        Ok(fee) => Ok((next, ain, aout, fee)),
                        Err(e) => Err(e),
                    }
                },
                (Err(e), _) => Err(e),
                (_, Err(e)) => Err(e),
            }
        },
    }
}

/// One bounded step of a swap between the current price and a target price,
/// with the usable liquidity, the remaining signed amount (non-negative for
/// exact input, negative for exact output) and the fee rate in hundredths of
/// a basis point.
///
/// Returns the price the step ends on, the input consumed, the output
/// produced and the fee taken, exactly as `spec_compute_swap_step` states.
pub fn compute_swap_step(
    sqrt_ratio_current_x96: &U256,
    sqrt_ratio_target_x96: &U256,
    liquidity: u128,
    amount_remaining: &I256,
    fee_pips: u32,
) -> (r: Result<(U256, U256, U256, U256), Error>)
    requires
        fee_pips <= 1000000,
    ensures
        res_nat4(r) == spec_compute_swap_step(
            sqrt_ratio_current_x96.as_nat(), sqrt_ratio_target_x96.as_nat(), liquidity as nat,
            amount_remaining.as_int(), fee_pips as nat),
{
    proof {
        reveal(spec_compute_swap_step);
        reveal(spec_swap_step_price);
    }
    let zero_for_one = !sqrt_ratio_current_x96.lt(sqrt_ratio_target_x96);
    let exact_in = !amount_remaining.is_negative();
    let million = U256::from_u64(1000000);
    let fee_w = U256::from_u64(fee_pips as u64);
    let fee_comp = U256::from_u64((1000000 - fee_pips) as u64);
    let abs_remaining = amount_remaining.unsigned_abs();
    let (sqrt_ratio_next_x96, first) = if exact_in {
        let less_fee = match full_math::mul_div(&abs_remaining, &fee_comp, &million) {
            Ok(v) => v,
            Err(e) => {
                return Err(e);
            },
        };
        let amount_in = match (if zero_for_one {
            sqrt_price_math::get_amount0_delta_round_up(
                sqrt_ratio_target_x96, sqrt_ratio_current_x96, liquidity, true)
        } else {
            sqrt_price_math::get_amount1_delta_round_up(
                sqrt_ratio_current_x96, sqrt_ratio_target_x96, liquidity, true)
        }) {
            Ok(v) => v,
            Err(e) => {
                return Err(e);
            },
        };
        if !less_fee.lt(&amount_in) {
            (*sqrt_ratio_target_x96, amount_in)
        } else {
            match sqrt_price_math::get_next_sqrt_price_from_input(
                sqrt_ratio_current_x96, liquidity, &less_fee, zero_for_one) {
                Ok(np) => (np, amount_in),
                Err(e) => {
                    return Err(e);
                },
            }
        }
    } else {
        let amount_out = match (if zero_for_one {
            sqrt_price_math::get_amount1_delta_round_up(
                sqrt_ratio_target_x96, sqrt_ratio_current_x96, liquidity, false)
        } else {
            sqrt_price_math::get_amount0_delta_round_up(
                sqrt_ratio_current_x96, sqrt_ratio_target_x96, liquidity, false)
        }) {
            Ok(v) => v,
            Err(e) => {
                return Err(e);
            },
        };
        if !abs_remaining.lt(&amount_out) {
            (*sqrt_ratio_target_x96, amount_out)
        } else {
            match sqrt_price_math::get_next_sqrt_price_from_output(
                sqrt_ratio_current_x96, liquidity, &abs_remaining, zero_for_one) {
                Ok(np) => (np, amount_out),
                Err(e) => {
                    return Err(e);
                },
            }
        }
    };
    let maxed = sqrt_ratio_target_x96.eq_val(&sqrt_ratio_next_x96);
    let amount_in = if !(maxed && exact_in) {
        match (if zero_for_one {
            sqrt_price_math::get_amount0_delta_round_up(
                &sqrt_ratio_next_x96, sqrt_ratio_current_x96, liquidity, true)
        } else {
            sqrt_price_math::get_amount1_delta_round_up(
                sqrt_ratio_current_x96, &sqrt_ratio_next_x96, liquidity, true)
        }) {
            Ok(v) => v,
            Err(e) => {
                return Err(e);
            },
        }
    } else {
        first
    };
    let amount_out0 = if !(maxed && !exact_in) {
        match (if zero_for_one {
            sqrt_price_math::get_amount1_delta_round_up(
                &sqrt_ratio_next_x96, sqrt_ratio_current_x96, liquidity, false)
        } else {
            sqrt_price_math::get_amount0_delta_round_up(
                sqrt_ratio_current_x96, &sqrt_ratio_next_x96, liquidity, false)
        }) {
            Ok(v) => v,
            Err(e) => {
                return Err(e);
            },
        }
    } else {
        if exact_in {
            U256::zero()
        } else {
            first
        }
    };
    let amount_out = if !exact_in && abs_remaining.lt(&amount_out0) {
        abs_remaining
    } else {
        amount_out0
    };
    let fee_amount = if exact_in && !sqrt_ratio_next_x96.eq_val(sqrt_ratio_target_x96) {
        let (f, _) = abs_remaining.overflowing_sub(&amount_in);
        f
    } else {
        match full_math::mul_div_rounding_up(&amount_in, &fee_w, &fee_comp) {
            Ok(v) => v,
            Err(e) => {
                return Err(e);
            },
        }
    };
    Ok((sqrt_ratio_next_x96, amount_in, amount_out, fee_amount))
}

/// What `compute_swap_step_slippage` returns: the cumulative execution
/// price is projected for a full step to the target; when it would overshoot
/// the execution-price limit, the boundary is refined by the tick-by-tick
/// walk, and the amounts are then recomputed between the current price and
/// the refined boundary.  The first component of a successful result is
/// always zero: only the amounts and the fee are meaningful.
#[verifier::opaque]
pub open spec fn spec_compute_swap_step_slippage(amount_in_cur: nat, amount_out_cur: nat,
    limit: nat, current: nat, target: nat, tick: int, liquidity: nat, fee_pips: nat) -> Result<
    (nat, nat, nat, nat),
    Error,
> {
    let q96 = vstd::arithmetic::power2::pow2(96);
    let zfo = current >= target;
    let d1 = if zfo { amount_out_cur } else { amount_in_cur };
    let d0 = if zfo { amount_in_cur } else { amount_out_cur };
    let diff: nat = if target >= current { (target - current) as nat } else {
        (current - target) as nat
    };
    match spec_mul_div(diff, liquidity, q96) {
        Err(e) => Err(e),
        Ok(i1) => {
            let nd1 = (d1 + i1) % p256();
            match spec_mul_div(target, current, q96) {
                Err(e) => Err(e),
                Ok(mid) => match spec_mul_div(liquidity, diff, mid) {
                    Err(e) => Err(e),
                    Ok(i0) => {
                        let nd0 = (d0 + i0) % p256();
                        match crate::swap::spec_sqrt(d1) {
                            Err(e) => Err(e),
                            Ok(cs1) => match crate::swap::spec_sqrt(d0) {
                                Err(e) => Err(e),
                                Ok(cs0) => match spec_mul_div(cs1, q96, cs0) {
                                    Err(e) => Err(e),
                                    Ok(curr_exec) => match crate::swap::spec_sqrt(nd1) {
                                        Err(e) => Err(e),
                                        Ok(ns1) => match crate::swap::spec_sqrt(nd0) {
                                            Err(e) => Err(e),
                                            Ok(ns0) => match spec_mul_div(ns1, q96, ns0) {
                                                Err(e) => Err(e),
                                                Ok(next_exec) => spec_css_slippage_tail(
                                                    limit, current, target, tick, liquidity,
                                                    fee_pips, zfo, d0, d1, curr_exec, next_exec),
                                            },
                                        },
                                    },
                                },
                            },
                        }
                    },
                },
            }
        },
    }
}

/// The tail of a slippage step: refine the boundary if the projected
/// execution price overshoots, then recompute the amounts and the fee.
#[verifier::opaque]
pub open spec fn spec_css_slippage_tail(limit: nat, current: nat, target: nat, tick: int,
    liquidity: nat, fee_pips: nat, zfo: bool, d0: nat, d1: nat, curr_exec: nat, next_exec: nat)
    -> Result<(nat, nat, nat, nat), Error> {
    let walk_needed = if zfo { next_exec < limit } else { next_exec > limit };
    let price_next_r: Result<nat, Error> = if walk_needed {
        match crate::swap::spec_find_tick_walk(zfo, limit, tick, d0, d1, liquidity, curr_exec,
            crate::swap::WALK_STEP_LIMIT as nat) {
            Err(e) => Err(e),
            Ok((tf, u0, u1)) => crate::tick_math::spec_sqrt_ratio_at_tick(
                if tf == tick { if zfo { tick - 1 } else { tick + 1 } } else { tf }),
        }
    } else {
        Ok(target)
    };
    match price_next_r {
        Err(e) => Err(e),
        Ok(next) => {
            let ain_r = if zfo {
                spec_amount0_delta_up(next, current, liquidity, true)
            } else {
                spec_amount1_delta_up(current, next, liquidity, true)
            };
            let aout_r = if zfo {
                spec_amount1_delta_up(next, current, liquidity, false)
            } else {
                spec_amount0_delta_up(current, next, liquidity, false)
            };
            match ain_r {
                Err(e) => Err(e),
                Ok(ain) => match aout_r {
                    Err(e) => Err(e),
                    Ok(aout) => match spec_mul_div_rounding_up(ain, fee_pips, (1000000
                        - fee_pips) as nat) {
                        Err(e) => Err(e),
                        Ok(fee) => Ok((0, ain, aout, fee)),
                    },
                },
            }
        },
    }
}

/// One bounded step of a swap whose stopping rule is the cumulative
/// execution price rather than the spot price: the step runs to the target
/// tick's price unless that would push the execution price past the limit,
/// in which case the boundary is refined tick by tick.
///
/// Returns a zero first component, then the input, the output and the fee,
/// exactly as `spec_compute_swap_step_slippage` states.
#[verifier::rlimit(100)]
pub fn compute_swap_step_slippage(
    amount_in_current: &U256,
    amount_out_current: &U256,
    sqrt_ratio_limit_x96: &U256,
    sqrt_ratio_current_x96: &U256,
    sqrt_ratio_target_x96: &U256,
    current_tick: i32,
    liquidity: u128,
    fee_pips: u32,
) -> (r: Result<(U256, U256, U256, U256), Error>)
    requires
        fee_pips <= 1000000,
        -887273 <= current_tick <= 887273,
    ensures
        res_nat4(r) == spec_compute_swap_step_slippage(amount_in_current.as_nat(),
            amount_out_current.as_nat(), sqrt_ratio_limit_x96.as_nat(),
            sqrt_ratio_current_x96.as_nat(), sqrt_ratio_target_x96.as_nat(),
            current_tick as int, liquidity as nat, fee_pips as nat),
{
    proof {
        reveal(spec_compute_swap_step_slippage);
    }
    let q96v = U256::pow2_exec(96);
    let lw = U256::from_u128(liquidity);
    let zfo = !sqrt_ratio_current_x96.lt(sqrt_ratio_target_x96);
    let d1 = if zfo { *amount_out_current } else { *amount_in_current };
    let d0 = if zfo { *amount_in_current } else { *amount_out_current };
    let diff = if sqrt_ratio_current_x96.lt(sqrt_ratio_target_x96) {
        let (v, _) = sqrt_ratio_target_x96.overflowing_sub(sqrt_ratio_current_x96);
        v
    } else {
        let (v, _) = sqrt_ratio_current_x96.overflowing_sub(sqrt_ratio_target_x96);
        v
    };
    let i1 = match full_math::mul_div(&diff, &lw, &q96v) {
        Ok(v) => v,
        Err(e) => {
            return Err(e);
        },
    };
    let (nd1, _) = d1.overflowing_add(&i1);
    let mid = match full_math::mul_div(sqrt_ratio_target_x96, sqrt_ratio_current_x96, &q96v) {
        Ok(v) => v,
        Err(e) => {
            return Err(e);
        },
    };
    let i0 = match full_math::mul_div(&lw, &diff, &mid) {
        Ok(v) => v,
        Err(e) => {
            return Err(e);
        },
    };
    let (nd0, _) = d0.overflowing_add(&i0);
    proof {
        crate::swap::lemma_wrap_add(d1.as_nat(), i1.as_nat());
        crate::swap::lemma_wrap_add(d0.as_nat(), i0.as_nat());
    }
    let cs1 = match crate::swap::sqrt(&d1) {
        Ok(v) => v,
        Err(e) => {
            return Err(e);
        },
    };
    let cs0 = match crate::swap::sqrt(&d0) {
        Ok(v) => v,
        Err(e) => {
            return Err(e);
        },
    };
    let curr_exec = match full_math::mul_div(&cs1, &q96v, &cs0) {
        Ok(v) => v,
        Err(e) => {
            return Err(e);
        },
    };
    let ns1 = match crate::swap::sqrt(&nd1) {
        Ok(v) => v,
        Err(e) => {
            return Err(e);
        },
    };
    let ns0 = match crate::swap::sqrt(&nd0) {
        Ok(v) => v,
        Err(e) => {
            return Err(e);
        },
    };
    let next_exec = match full_math::mul_div(&ns1, &q96v, &ns0) {
        Ok(v) => v,
        Err(e) => {
            return Err(e);
        },
    };
    css_slippage_tail(sqrt_ratio_limit_x96, sqrt_ratio_current_x96, sqrt_ratio_target_x96,
        current_tick, liquidity, fee_pips, zfo, &d0, &d1, &curr_exec, &next_exec)
}

/// The tail of a slippage step, as `spec_css_slippage_tail` states.
#[verifier::rlimit(100)]
fn css_slippage_tail(
    sqrt_ratio_limit_x96: &U256,
    sqrt_ratio_current_x96: &U256,
    sqrt_ratio_target_x96: &U256,
    current_tick: i32,
    liquidity: u128,
    fee_pips: u32,
    zfo: bool,
    d0: &U256,
    d1: &U256,
    curr_exec: &U256,
    next_exec: &U256,
) -> (r: Result<(U256, U256, U256, U256), Error>)
    requires
        fee_pips <= 1000000,
        -887273 <= current_tick <= 887273,
        zfo == (sqrt_ratio_current_x96.as_nat() >= sqrt_ratio_target_x96.as_nat()),
    ensures
        res_nat4(r) == spec_css_slippage_tail(sqrt_ratio_limit_x96.as_nat(),
            sqrt_ratio_current_x96.as_nat(), sqrt_ratio_target_x96.as_nat(),
            current_tick as int, liquidity as nat, fee_pips as nat, zfo, d0.as_nat(),
            d1.as_nat(), curr_exec.as_nat(), next_exec.as_nat()),
{
    proof {
        reveal(spec_css_slippage_tail);
    }
    let walk_needed = if zfo {
        next_exec.lt(sqrt_ratio_limit_x96)
    } else {
        sqrt_ratio_limit_x96.lt(next_exec)
    };
    let sqrt_ratio_next_x96 = if walk_needed {
        let (tf, _u0, _u1) = match crate::swap::find_tick_at_slippage(current_tick,
            if zfo { current_tick - 1 } else { current_tick + 1 }, curr_exec,
            sqrt_ratio_limit_x96, d0, d1, liquidity) {
            Ok(v) => v,
            Err(e) => {
                return Err(e);
            },
        };
        let tt = if tf == current_tick {
            if zfo {
                current_tick - 1
            } else {
                current_tick + 1
            }
        } else {
            tf
        };
        match crate::tick_math::get_sqrt_ratio_at_tick(tt) {
            Ok(v) => v,
            Err(e) => {
                return Err(e);
            },
        }
    } else {
        *sqrt_ratio_target_x96
    };
    let amount_in = match (if zfo {
        sqrt_price_math::get_amount0_delta_round_up(
            &sqrt_ratio_next_x96, sqrt_ratio_current_x96, liquidity, true)
    } else {
        sqrt_price_math::get_amount1_delta_round_up(
            sqrt_ratio_current_x96, &sqrt_ratio_next_x96, liquidity, true)
    }) {
        Ok(v) => v,
        Err(e) => {
            return Err(e);
        },
    };
    let amount_out = match (if zfo {
        sqrt_price_math::get_amount1_delta_round_up(
            &sqrt_ratio_next_x96, sqrt_ratio_current_x96, liquidity, false)
    } else {
        sqrt_price_math::get_amount0_delta_round_up(
            sqrt_ratio_current_x96, &sqrt_ratio_next_x96, liquidity, false)
    }) {
        Ok(v) => v,
        Err(e) => {
            return Err(e);
        },
    };
    let fee_w = U256::from_u64(fee_pips as u64);
    let fee_comp = U256::from_u64((1000000 - fee_pips) as u64);
    let fee_amount = match full_math::mul_div_rounding_up(&amount_in, &fee_w, &fee_comp) {
        Ok(v) => v,
        Err(e) => {
            return Err(e);
        },
    };
    Ok((U256::zero(), amount_in, amount_out, fee_amount))
}

/// A step whose target price equals its current price moves nothing: it
/// returns the current price, zero amounts and zero fee.  This holds for
/// every positive price, liquidity, remaining amount and fee rate below one
/// hundred percent.
pub proof fn lemma_swap_step_at_target(price: nat, liquidity: nat, amount_remaining: int,
    fee_pips: nat)
    requires
        price > 0,
        fee_pips < 1000000,
        -(crate::i256::p255() as int) <= amount_remaining < crate::i256::p255() as int,
    ensures
        spec_compute_swap_step(price, price, liquidity, amount_remaining, fee_pips)
            == Ok::<(nat, nat, nat, nat), Error>((price, 0nat, 0nat, 0nat)),
{
    reveal(spec_compute_swap_step);
    reveal(spec_swap_step_price);
    let q96 = vstd::arithmetic::power2::pow2(96);
    vstd::arithmetic::power2::lemma_pow2_pos(96);
    let n1 = liquidity * q96;
    // zero numerators give zero quotients, in every rounding direction
    assert(n1 * 0 == 0) by (nonlinear_arith);
    assert(liquidity * 0 == 0) by (nonlinear_arith);
    lemma_ceil_div(0, price);
    lemma_ceil_div(0, q96);
    vstd::arithmetic::div_mod::lemma_basic_div(0int, price as int);
    vstd::arithmetic::div_mod::lemma_basic_div(0int, q96 as int);
    assert(ceil_div(0, price) == 0);
    assert(ceil_div(0, q96) == 0);
    assert(spec_amount0_delta_up(price, price, liquidity, true) == Ok::<nat, Error>(0));
    assert(spec_amount0_delta_up(price, price, liquidity, false) == Ok::<nat, Error>(0));
    assert(spec_amount1_delta_up(price, price, liquidity, true) == Ok::<nat, Error>(0));
    assert(spec_amount1_delta_up(price, price, liquidity, false) == Ok::<nat, Error>(0));
    if amount_remaining >= 0 {
        // the fee-adjusted remaining amount is a fraction of the remaining
        // amount, so the stage-one multiply-divide cannot overflow
        let ar = amount_remaining as nat;
        let x = ar * (1000000 - fee_pips) as nat;
        lemma_mul_inequality((1000000 - fee_pips) as int, 1000000, ar as int);
        vstd::arithmetic::mul::lemma_mul_is_commutative(ar as int, (1000000 - fee_pips) as int);
        vstd::arithmetic::mul::lemma_mul_is_commutative(ar as int, 1000000);
        vstd::arithmetic::div_mod::lemma_div_is_ordered(x as int, (ar * 1000000) as int, 1000000);
        vstd::arithmetic::div_mod::lemma_div_multiples_vanish(ar as int, 1000000);
        assert(x / 1000000 <= ar);
        assert(spec_mul_div(ar, (1000000 - fee_pips) as nat, 1000000) matches Ok(v) && v
            <= ar);
    }
    // the final fee on a zero input amount is zero
    assert(0nat * fee_pips == 0) by (nonlinear_arith);
    lemma_ceil_div(0, (1000000 - fee_pips) as nat);
    vstd::arithmetic::div_mod::lemma_basic_div(0int, (1000000 - fee_pips) as int);
    assert(ceil_div(0, (1000000 - fee_pips) as nat) == 0);
    assert(spec_compute_swap_step(price, price, liquidity, amount_remaining, fee_pips)
        == Ok::<(nat, nat, nat, nat), Error>((price, 0nat, 0nat, 0nat)));
}

} // verus!
