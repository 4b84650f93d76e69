//! Bin-based concentrated-liquidity market maker: fixed-point math, bin
//! prices, per-bin reserves and shares, distribution strategies, positions,
//! the multi-bin swap and fee accrual, each with a verified contract.

pub mod math;
pub mod fee;
pub mod distribution;
pub mod price;
pub mod bin;
pub mod pool;
pub mod swap;
pub mod bitmap;
pub mod codec;
