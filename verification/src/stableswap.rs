//! Stableswap: pools of assets that trade near parity, priced by the
//! invariant `D`.

pub mod math;
