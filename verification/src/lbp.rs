//! Liquidity bootstrapping pools: two assets with weights that shift over
//! time.

pub mod lbp;
