//! Error taxonomy of the simulator.
//!
//! Arithmetic and bounds failures are fatal to the current call and are never
//! corrected silently; `WordNotLoaded` / `TickNotLoaded` signal that the
//! loaded pool-state window is exhausted and the caller should widen it and
//! retry.

use vstd::prelude::*;

verus! {

/// Every way a simulation call can fail.
#[derive(Clone, Copy, Debug, PartialEq, Eq, Structural)]
pub enum Error {
    /// A quotient was requested with a zero denominator.
    DivisionByZero,
    /// A result does not fit in the 256-bit range the pool arithmetic
    /// demands.
    Overflow,
    /// The iterative square root did not reach a fixed point within its
    /// defensive iteration bound.
    NotConverged,
    /// A bit scan was asked for on the value zero.
    ZeroInput,
    /// A tick index lies outside `[MIN_TICK, MAX_TICK]`.
    TickOutOfBounds,
    /// A square-root price lies outside `[MIN_SQRT_RATIO, MAX_SQRT_RATIO)`.
    PriceOutOfBounds,
    /// A price move was requested with a zero token amount.
    AmountIsZero,
    /// A price would be pushed to zero or below.
    PriceUnderflow,
    /// A price move was requested on a pool with zero price or liquidity.
    PriceOrLiquidityZero,
    /// The bitmap word needed by the scan is outside the loaded window.
    WordNotLoaded,
    /// The tick record needed by a crossing is outside the loaded window.
    TickNotLoaded,
    /// Removing liquidity would take a tick's gross liquidity below zero.
    LiquiditySubtractionUnderflow,
    /// Adding liquidity would overflow the 128-bit range.
    LiquidityAdditionOverflow,
    /// A tick's gross liquidity would exceed the per-tick cap.
    ExceedsMaxLiquidityPerTick,
    /// A tick is addressed that is not a multiple of the pool's tick spacing.
    TickNotSpaced,
    /// The pool snapshot reports itself locked.
    PoolLocked,
    /// A swap was requested with a zero specified amount.
    SwapAmountZero,
    /// The price limit is on the wrong side of the current price or outside
    /// the valid price range.
    InvalidPriceLimit,
    /// A price-impact percentage of zero needs no swap.
    NoSwapNeeded,
    /// A price-impact percentage above one hundred percent.
    ImpactTooLarge,
    /// The swap loop exceeded its defensive iteration bound.
    StepLimitExceeded,
}

} // verus!
