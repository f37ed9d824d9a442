//! Fee accrual inside a tick range of a concentrated-liquidity pool.
//!
//! The arithmetic lives on [`u256::U256`], an unsigned 256-bit integer with
//! wrapping (modulo 2^256) semantics; [`simulations`] holds the fee-growth
//! computation itself and the fixed-point decimal helper.

pub mod simulations;
pub mod u256;
