//! Offline simulator for concentrated-liquidity AMM swaps.
//!
//! The crate reproduces, bit for bit, the fixed-point integer arithmetic a
//! smart-contract virtual machine performs for a swap: 512-bit-precision
//! multiply-divide, integer square roots, price/tick conversions, bitmap
//! scanning for liquidity boundaries, and the tick-crossing swap loop.
//! Every public operation carries a contract stating the exact value it
//! returns, over a mathematical view of the 256-bit words it works on.

pub mod bit_math;
pub mod errors;
pub mod full_math;
pub mod i256;
pub mod liquidity_math;
pub mod low_gas_safe_math;
pub mod pool;
pub mod safe_cast;
pub mod sqrt_price_math;
pub mod swap;
pub mod swap_math;
pub mod tick_bitmap;
pub mod tick;
pub mod tick_math;
pub mod u256;
