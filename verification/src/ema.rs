//! Exponential moving averages for the price and liquidity oracle.

pub mod bounds;
pub mod math;
pub mod rational;
