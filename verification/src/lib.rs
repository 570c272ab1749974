//! Numeric core for automated-market-maker pools: stableswap, omnipool and
//! weighted (LBP) pricing, and an exponential-moving-average oracle.
//!
//! Every routine is a pure function on integers and fixed-point numbers.
//! Overflow is always signalled, never wrapped.

pub mod arith;
pub mod ema;
pub mod fixed;
pub mod fraction;
pub mod lbp;
pub mod omnipool;
pub mod powers;
pub mod stableswap;
pub mod transcendental;
pub mod types;
pub mod wide;

use crate::types::Balance;
use crate::types::LBPWeight;
use crate::wide::U256;
use vstd::prelude::*;

verus! {

/// What can go wrong in a pricing routine.
#[derive(Clone, Copy, Debug, PartialEq, Eq, Structural)]
pub enum MathError {
    /// A checked operation overflowed, or a value did not fit its target type.
    Overflow,
    /// More was asked for than the pool holds.
    InsufficientOutReserve,
    /// A weight that must be positive is zero.
    ZeroWeight,
    /// A reserve that must be positive is zero.
    ZeroReserve,
    /// Weight interpolation over an empty interval.
    ZeroDuration,
}

/// A 256-bit number as a balance, or an overflow if it does not fit.
pub fn to_balance(x: U256) -> (r: Result<Balance, MathError>)
    ensures
        x@ <= u128::MAX ==> r == Ok::<Balance, MathError>(x@ as u128),
        x@ > u128::MAX ==> r == Err::<Balance, MathError>(MathError::Overflow),
{
    match x.to_u128() {
        Some(v) => Ok(v),
        None => Err(MathError::Overflow),
    }
}

/// A 256-bit number as a pool weight, or an overflow if it does not fit.
pub fn to_lbp_weight(x: U256) -> (r: Result<LBPWeight, MathError>)
    ensures
        x@ <= u32::MAX ==> r == Ok::<LBPWeight, MathError>(x@ as u32),
        x@ > u32::MAX ==> r == Err::<LBPWeight, MathError>(MathError::Overflow),
{
    match x.to_u32() {
        Some(v) => Ok(v),
        None => Err(MathError::Overflow),
    }
}

/// A balance raised by `step`, or an overflow if the sum does not fit.
pub fn round_up(value: Balance, step: Balance) -> (r: Result<Balance, MathError>)
    ensures
        value + step <= u128::MAX ==> r == Ok::<Balance, MathError>((value + step) as u128),
        value + step > u128::MAX ==> r == Err::<Balance, MathError>(MathError::Overflow),
{
    match value.checked_add(step) {
        Some(v) => Ok(v),
        None => Err(MathError::Overflow),
    }
}

} // verus!
