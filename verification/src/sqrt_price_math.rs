//! Price moves from token amounts, and token amounts from price moves.
//!
//! Prices are square roots of the exchange rate in Q64.96 form.  Each
//! function's contract states the exact value returned, as a function of the
//! operand values, through a spec twin mirroring the on-chain arithmetic,
//! rounding direction and overflow behaviour included.

use vstd::prelude::*;
use vstd::arithmetic::power2::{pow2, lemma2_to64, lemma2_to64_rest, lemma_pow2_adds};
use vstd::arithmetic::mul::lemma_mul_inequality;
use crate::u256::{U256, p256, p128, lemma_pow2_consts};
use crate::i256::{I256, p255};
use crate::full_math::{self, res_nat, spec_mul_div, spec_mul_div_rounding_up, ceil_div};
use crate::low_gas_safe_math;
use crate::safe_cast;
use crate::errors::Error;

verus! {

/// `2^160`, one more than the largest valid square-root price.
pub open spec fn p160() -> nat {
    0x10000000000000000000000000000000000000000nat
}

/// The largest value that fits in 160 bits.
pub fn u160_max() -> (r: U256)
    ensures
        r.as_nat() == p160() - 1,
{
    U256::new(u64::MAX, u64::MAX, 0xffffffffu64, 0)
}

/// The Q96 scale factor, `2^96`.
pub fn q96() -> (r: U256)
    ensures
        r.as_nat() == pow2(96),
{
    U256::pow2_exec(96)
}

/// `pow2(96)` and `pow2(160)` as plain numbers, and the room they leave.
pub proof fn lemma_price_consts()
    ensures
        pow2(96) == 0x1000000000000000000000000nat,
        p128() * pow2(96) < p256(),
        p160() * pow2(96) == p256(),
{
    lemma2_to64();
    lemma2_to64_rest();
    lemma_pow2_adds(64, 32);
    lemma_pow2_adds(128, 96);
    lemma_pow2_adds(160, 96);
    lemma_pow2_consts();
    vstd::arithmetic::power2::lemma_pow2_adds(96, 64);
}

/// What `get_next_sqrt_price_from_amount0_rounding_up` returns, as a
/// function of the values alone, wrap-around of the on-chain arithmetic
/// included.
pub open spec fn spec_next_price_amount0_up(price: nat, liquidity: nat, amount: nat, add: bool)
    -> Result<nat, Error> {
    if amount == 0 {
        Err(Error::AmountIsZero)
    } else {
        let numerator1 = liquidity * pow2(96);
        let product = (amount * price) % p256();
        if add {
            if product / amount == price {
                spec_mul_div_rounding_up(numerator1, price, (numerator1 + product) % p256())
            } else if numerator1 / price + amount >= p256() {
                Err(Error::Overflow)
            } else {
                Ok(ceil_div(numerator1, numerator1 / price + amount))
            }
        } else {
            if product / amount == price && numerator1 > product {
                match spec_mul_div_rounding_up(numerator1, price, (numerator1 - product) as nat) {
                    Ok(v) => if v >= p160() { Err(Error::PriceOutOfBounds) } else { Ok(v) },
                    Err(e) => Err(e),
                }
            } else {
                Err(Error::PriceOutOfBounds)
            }
        }
    }
}

/// The price after adding (or removing) `amount` of token0 to the virtual
/// reserves, always rounded up.
///
/// Fails with `AmountIsZero` for a zero amount, with `PriceOutOfBounds` when
/// the resulting price cannot be represented, and with arithmetic errors
/// bubbled up from the multiply-divide.
pub fn get_next_sqrt_price_from_amount0_rounding_up(
    sqrt_px96: &U256,
    liquidity: u128,
    amount: &U256,
    add: bool,
) -> (r: Result<U256, Error>)
    ensures
        res_nat(r) == spec_next_price_amount0_up(
            sqrt_px96.as_nat(), liquidity as nat, amount.as_nat(), add),
{
    if amount.is_zero() {
        return Err(Error::AmountIsZero);
    }
    let l = U256::from_u128(liquidity);
    proof {
        lemma_price_consts();
        lemma_mul_inequality(l.as_nat() as int, p128() as int - 1, pow2(96) as int);
    }
    let numerator1 = l.shl_exact(96);
    let product = amount.wrapping_mul(sqrt_px96);
    let check = product.div(amount);
    if add {
        if check.eq_val(sqrt_px96) {
            let (den, _) = numerator1.overflowing_add(&product);
            proof {
                if numerator1.as_nat() + product.as_nat() >= p256() {
                    vstd::arithmetic::div_mod::lemma_fundamental_div_mod_converse(
                        (numerator1.as_nat() + product.as_nat()) as int, p256() as int,
                        1, den.as_nat() as int);
                } else {
                    vstd::arithmetic::div_mod::lemma_small_mod(
                        numerator1.as_nat() + product.as_nat(), p256());
                }
            }
            full_math::mul_div_rounding_up(&numerator1, sqrt_px96, &den)
        } else {
            proof {
                if sqrt_px96.as_nat() == 0 {
                    assert(product.as_nat() == 0) by {
                        vstd::arithmetic::mul::lemma_mul_basics(amount.as_nat() as int);
                        vstd::arithmetic::div_mod::lemma_small_mod(0nat, p256());
                    }
                    assert(product.as_nat() / amount.as_nat() == 0) by {
                        vstd::arithmetic::div_mod::lemma_basic_div(0int, amount.as_nat() as int);
                    }
                }
            }
            let dv = numerator1.div(sqrt_px96);
            match low_gas_safe_math::unsigned_add(&dv, amount) {
                Ok(sum) => Ok(full_math::div_rounding_up(&numerator1, &sum)),
                Err(e) => Err(e),
            }
        }
    } else {
        if check.eq_val(sqrt_px96) && product.lt(&numerator1) {
            let (den, _) = numerator1.overflowing_sub(&product);
            match full_math::mul_div_rounding_up(&numerator1, sqrt_px96, &den) {
                Ok(result) => {
                    if u160_max().lt(&result) {
                        Err(Error::PriceOutOfBounds)
                    } else {
                        Ok(result)
                    }
                },
                Err(e) => Err(e),
            }
        } else {
            Err(Error::PriceOutOfBounds)
        }
    }
}

/// What `get_next_sqrt_price_from_amount1_rounding_down` returns, as a
/// function of the values alone.
pub open spec fn spec_next_price_amount1_down(price: nat, liquidity: nat, amount: nat, add: bool)
    -> Result<nat, Error> {
    if liquidity == 0 {
        Err(Error::DivisionByZero)
    } else if add {
        let q = if amount < p160() {
            Ok(amount * pow2(96) / liquidity)
        } else {
            spec_mul_div(amount, pow2(96), liquidity)
        };
        match q {
            Ok(quotient) => if price + quotient >= p256() {
                Err(Error::Overflow)
            } else if price + quotient >= p160() {
                Err(Error::PriceOutOfBounds)
            } else {
                Ok(price + quotient)
            },
            Err(e) => Err(e),
        }
    } else {
        let q = if amount < p160() {
            Ok(ceil_div(amount * pow2(96), liquidity))
        } else {
            spec_mul_div_rounding_up(amount, pow2(96), liquidity)
        };
        match q {
            Ok(quotient) => if price > quotient {
                Ok((price - quotient) as nat)
            } else {
                Err(Error::PriceUnderflow)
            },
            Err(e) => Err(e),
        }
    }
}

/// The price after adding (or removing) `amount` of token1 to the virtual
/// reserves, always rounded down.
///
/// Fails with `PriceUnderflow` when removing would push the price to zero or
/// below, with `PriceOutOfBounds` when it leaves the 160-bit range, and with
/// arithmetic errors bubbled up from the multiply-divide.
pub fn get_next_sqrt_price_from_amount1_rounding_down(
    sqrt_px96: &U256,
    liquidity: u128,
    amount: &U256,
    add: bool,
) -> (r: Result<U256, Error>)
    ensures
        res_nat(r) == spec_next_price_amount1_down(
            sqrt_px96.as_nat(), liquidity as nat, amount.as_nat(), add),
{
    if liquidity == 0 {
        return Err(Error::DivisionByZero);
    }
    let l = U256::from_u128(liquidity);
    let q96v = q96();
    let u160m = u160_max();
    proof {
        lemma_price_consts();
        if amount.as_nat() < p160() {
            lemma_mul_inequality(amount.as_nat() as int, p160() as int - 1, pow2(96) as int);
        }
    }
    if add {
        let quotient = if amount.le(&u160m) {
            let shifted = amount.shl_exact(96);
            shifted.div(&l)
        } else {
            match full_math::mul_div(amount, &q96v, &l) {
                Ok(v) => v,
                Err(e) => {
                    return Err(e);
                },
            }
        };
        match low_gas_safe_math::unsigned_add(sqrt_px96, &quotient) {
            Ok(result) => {
                if u160m.lt(&result) {
                    Err(Error::PriceOutOfBounds)
                } else {
                    Ok(result)
                }
            },
            Err(e) => Err(e),
        }
    } else {
        let quotient = if amount.le(&u160m) {
            let shifted = amount.shl_exact(96);
            full_math::div_rounding_up(&shifted, &l)
        } else {
            match full_math::mul_div_rounding_up(amount, &q96v, &l) {
                Ok(v) => v,
                Err(e) => {
                    return Err(e);
                },
            }
        };
        if quotient.lt(sqrt_px96) {
            let (result, _) = sqrt_px96.overflowing_sub(&quotient);
            Ok(result)
        } else {
            Err(Error::PriceUnderflow)
        }
    }
}

/// What `get_next_sqrt_price_from_input` returns, as a function of the
/// values alone.
pub open spec fn spec_next_price_from_input(price: nat, liquidity: nat, amount: nat,
    zero_for_one: bool) -> Result<nat, Error> {
    if !(price > 0 && liquidity > 0) {
        Err(Error::PriceOrLiquidityZero)
    } else if zero_for_one {
        spec_next_price_amount0_up(price, liquidity, amount, true)
    } else {
        spec_next_price_amount1_down(price, liquidity, amount, true)
    }
}

/// The price after swapping in `amount_in` of token0 (`zero_for_one`) or
/// token1, rounded against the swapper.
pub fn get_next_sqrt_price_from_input(
    sqrt_px96: &U256,
    liquidity: u128,
    amount_in: &U256,
    zero_for_one: bool,
) -> (r: Result<U256, Error>)
    ensures
        res_nat(r) == spec_next_price_from_input(
            sqrt_px96.as_nat(), liquidity as nat, amount_in.as_nat(), zero_for_one),
{
    if !sqrt_px96.is_zero() && liquidity > 0 {
        if zero_for_one {
            get_next_sqrt_price_from_amount0_rounding_up(sqrt_px96, liquidity, amount_in, true)
        } else {
            get_next_sqrt_price_from_amount1_rounding_down(sqrt_px96, liquidity, amount_in, true)
        }
    } else {
        Err(Error::PriceOrLiquidityZero)
    }
}

/// What `get_next_sqrt_price_from_output` returns, as a function of the
/// values alone.
pub open spec fn spec_next_price_from_output(price: nat, liquidity: nat, amount: nat,
    zero_for_one: bool) -> Result<nat, Error> {
    if !(price > 0 && liquidity > 0) {
        Err(Error::PriceOrLiquidityZero)
    } else if zero_for_one {
        spec_next_price_amount1_down(price, liquidity, amount, false)
    } else {
        spec_next_price_amount0_up(price, liquidity, amount, false)
    }
}

/// The price after swapping out `amount_out` of token1 (`zero_for_one`) or
/// token0, rounded against the swapper.
pub fn get_next_sqrt_price_from_output(
    sqrt_px96: &U256,
    liquidity: u128,
    amount_out: &U256,
    zero_for_one: bool,
) -> (r: Result<U256, Error>)
    ensures
        res_nat(r) == spec_next_price_from_output(
            sqrt_px96.as_nat(), liquidity as nat, amount_out.as_nat(), zero_for_one),
{
    if !sqrt_px96.is_zero() && liquidity > 0 {
        if zero_for_one {
            get_next_sqrt_price_from_amount1_rounding_down(sqrt_px96, liquidity, amount_out, false)
        } else {
            get_next_sqrt_price_from_amount0_rounding_up(sqrt_px96, liquidity, amount_out, false)
        }
    } else {
        Err(Error::PriceOrLiquidityZero)
    }
}

/// What `get_amount0_delta_round_up` returns: the token0 amount covering a
/// position of size `liquidity` between the two prices,
/// `ceil_or_floor(liquidity * 2^96 * (upper - lower) / (upper * lower))`
/// computed in two rounding stages.
pub open spec fn spec_amount0_delta_up(ra: nat, rb: nat, liquidity: nat, round_up: bool)
    -> Result<nat, Error> {
    let a = if ra <= rb { ra } else { rb };
    let b = if ra <= rb { rb } else { ra };
    if a == 0 {
        Err(Error::PriceOrLiquidityZero)
    } else {
        let n1 = liquidity * pow2(96);
        let n2 = (b - a) as nat;
        if round_up {
            match spec_mul_div_rounding_up(n1, n2, b) {
                Ok(v) => Ok(ceil_div(v, a)),
                Err(e) => Err(e),
            }
        } else {
            match spec_mul_div(n1, n2, b) {
                Ok(v) => Ok(v / a),
                Err(e) => Err(e),
            }
        }
    }
}

/// The token0 amount needed to move `liquidity` between the two prices,
/// order-independent in its price arguments.
pub fn get_amount0_delta_round_up(
    sqrt_ratio_ax96: &U256,
    sqrt_ratio_bx96: &U256,
    liquidity: u128,
    round_up: bool,
) -> (r: Result<U256, Error>)
    ensures
        res_nat(r) == spec_amount0_delta_up(
            sqrt_ratio_ax96.as_nat(), sqrt_ratio_bx96.as_nat(), liquidity as nat, round_up),
{
    let (lo, hi) = if sqrt_ratio_bx96.lt(sqrt_ratio_ax96) {
        (*sqrt_ratio_bx96, *sqrt_ratio_ax96)
    } else {
        (*sqrt_ratio_ax96, *sqrt_ratio_bx96)
    };
    if lo.is_zero() {
        return Err(Error::PriceOrLiquidityZero);
    }
    let l = U256::from_u128(liquidity);
    proof {
        lemma_price_consts();
        lemma_mul_inequality(l.as_nat() as int, p128() as int - 1, pow2(96) as int);
    }
    let numerator1 = l.shl_exact(96);
    let (numerator2, _) = hi.overflowing_sub(&lo);
    if round_up {
        match full_math::mul_div_rounding_up(&numerator1, &numerator2, &hi) {
            Ok(v) => Ok(full_math::div_rounding_up(&v, &lo)),
            Err(e) => Err(e),
        }
    } else {
        match full_math::mul_div(&numerator1, &numerator2, &hi) {
            Ok(v) => Ok(v.div(&lo)),
            Err(e) => Err(e),
        }
    }
}

/// What `get_amount1_delta_round_up` returns: the token1 amount covering a
/// position of size `liquidity` between the two prices,
/// `ceil_or_floor(liquidity * (upper - lower) / 2^96)`.
pub open spec fn spec_amount1_delta_up(ra: nat, rb: nat, liquidity: nat, round_up: bool)
    -> Result<nat, Error> {
    let a = if ra <= rb { ra } else { rb };
    let b = if ra <= rb { rb } else { ra };
    let n2 = (b - a) as nat;
    if round_up {
        spec_mul_div_rounding_up(liquidity, n2, pow2(96))
    } else {
        spec_mul_div(liquidity, n2, pow2(96))
    }
}

/// The token1 amount needed to move `liquidity` between the two prices,
/// order-independent in its price arguments.
pub fn get_amount1_delta_round_up(
    sqrt_ratio_ax96: &U256,
    sqrt_ratio_bx96: &U256,
    liquidity: u128,
    round_up: bool,
) -> (r: Result<U256, Error>)
    ensures
        res_nat(r) == spec_amount1_delta_up(
            sqrt_ratio_ax96.as_nat(), sqrt_ratio_bx96.as_nat(), liquidity as nat, round_up),
{
    let (lo, hi) = if sqrt_ratio_bx96.lt(sqrt_ratio_ax96) {
        (*sqrt_ratio_bx96, *sqrt_ratio_ax96)
    } else {
        (*sqrt_ratio_ax96, *sqrt_ratio_bx96)
    };
    let l = U256::from_u128(liquidity);
    let q96v = q96();
    let (numerator2, _) = hi.overflowing_sub(&lo);
    if round_up {
        full_math::mul_div_rounding_up(&l, &numerator2, &q96v)
    } else {
        full_math::mul_div(&l, &numerator2, &q96v)
    }
}

/// The signed token0 delta for a signed liquidity change: negative
/// liquidity flips the sign and the rounding direction.
pub fn get_amount0_delta(
    sqrt_ratio_ax96: &U256,
    sqrt_ratio_bx96: &U256,
    liquidity: i128,
) -> (r: Result<I256, Error>)
    ensures
        ({
            let mag = spec_amount0_delta_up(
                sqrt_ratio_ax96.as_nat(), sqrt_ratio_bx96.as_nat(),
                (if liquidity < 0 { -(liquidity as int) } else { liquidity as int }) as nat,
                liquidity >= 0);
            match mag {
                Ok(v) => if v < p255() {
                    r matches Ok(x) && x.as_int() == if liquidity < 0 { -(v as int) } else {
                        v as int
                    }
                } else {
                    r == Err::<I256, Error>(Error::Overflow)
                },
                Err(e) => r == Err::<I256, Error>(e),
            }
        }),
{
    let m: u128 = if liquidity < 0 {
        ((-(liquidity + 1)) as u128) + 1
    } else {
        liquidity as u128
    };
    let mag = match get_amount0_delta_round_up(sqrt_ratio_ax96, sqrt_ratio_bx96, m, liquidity >= 0) {
        Ok(v) => v,
        Err(e) => {
            return Err(e);
        },
    };
    let v = match safe_cast::to_int256(&mag) {
        Ok(v) => v,
        Err(e) => {
            return Err(e);
        },
    };
    if liquidity < 0 {
        match v.checked_neg() {
            Some(n) => Ok(n),
            None => Err(Error::Overflow),
        }
    } else {
        Ok(v)
    }
}

/// The signed token1 delta for a signed liquidity change: negative
/// liquidity flips the sign and the rounding direction.
pub fn get_amount1_delta(
    sqrt_ratio_ax96: &U256,
    sqrt_ratio_bx96: &U256,
    liquidity: i128,
) -> (r: Result<I256, Error>)
    ensures
        ({
            let mag = spec_amount1_delta_up(
                sqrt_ratio_ax96.as_nat(), sqrt_ratio_bx96.as_nat(),
                (if liquidity < 0 { -(liquidity as int) } else { liquidity as int }) as nat,
                liquidity >= 0);
            match mag {
                Ok(v) => if v < p255() {
                    r matches Ok(x) && x.as_int() == if liquidity < 0 { -(v as int) } else {
                        v as int
                    }
                } else {
                    r == Err::<I256, Error>(Error::Overflow)
                },
                Err(e) => r == Err::<I256, Error>(e),
            }
        }),
{
    let m: u128 = if liquidity < 0 {
        ((-(liquidity + 1)) as u128) + 1
    } else {
        liquidity as u128
    };
    let mag = match get_amount1_delta_round_up(sqrt_ratio_ax96, sqrt_ratio_bx96, m, liquidity >= 0) {
        Ok(v) => v,
        Err(e) => {
            return Err(e);
        },
    };
    let v = match safe_cast::to_int256(&mag) {
        Ok(v) => v,
        Err(e) => {
            return Err(e);
        },
    };
    if liquidity < 0 {
        match v.checked_neg() {
            Some(n) => Ok(n),
            None => Err(Error::Overflow),
        }
    } else {
        Ok(v)
    }
}

} // verus!
