//! The basic quantities.

use vstd::prelude::*;

verus! {

/// A token amount in base units.
pub type Balance = u128;

/// The weight of an asset in a weighted pool.
pub type LBPWeight = u32;

/// The number of base units in one whole token.
pub const HYDRA_ONE: u128 = 1_000_000_000_000;

} // verus!

verus! {

/// One as the raw value of a [`FixedBalance`]: 2^64.
pub const FIXED_BALANCE_ONE: u128 = 0x1_0000_0000_0000_0000;

/// An unsigned binary fixed-point number with 64 integer and 64 fractional
/// bits: `bits / 2^64`.
#[derive(Clone, Copy, Debug, PartialEq, Eq, Structural)]
pub struct FixedBalance {
    pub bits: u128,
}

impl View for FixedBalance {
    type V = int;

    open spec fn view(&self) -> int {
        self.bits as int
    }
}

/// The product of two raw fixed-point values, rounded down: `None` when it
/// does not fit.
pub open spec fn fixed_product(a: int, b: int) -> Option<int> {
    if a * b / (FIXED_BALANCE_ONE as int) <= u128::MAX {
        Some(a * b / (FIXED_BALANCE_ONE as int))
    } else {
        None
    }
}

/// The quotient of two raw fixed-point values, rounded down: `None` when the
/// divisor is zero or the quotient does not fit.
pub open spec fn fixed_quotient(a: int, b: int) -> Option<int> {
    if b != 0 && a * FIXED_BALANCE_ONE / b <= u128::MAX {
        Some(a * FIXED_BALANCE_ONE / b)
    } else {
        None
    }
}

impl FixedBalance {
    /// The number with the raw value `bits`.
    pub fn from_bits(bits: u128) -> (r: FixedBalance)
        ensures
            r@ == bits,
    {
        FixedBalance { bits }
    }

    /// The raw value.
    pub fn to_bits(self) -> (r: u128)
        ensures
            r == self@,
    {
        self.bits
    }

    /// The whole number `n`, if it is below 2^64.
    pub fn from_int(n: u128) -> (r: Option<FixedBalance>)
        ensures
            n < FIXED_BALANCE_ONE ==> r.is_some() && r.unwrap()@ == n * FIXED_BALANCE_ONE,
            n >= FIXED_BALANCE_ONE ==> r.is_none(),
    {
        if n < FIXED_BALANCE_ONE {
            Some(FixedBalance { bits: n * FIXED_BALANCE_ONE })
        } else {
            None
        }
    }

    /// One.
    pub fn one() -> (r: FixedBalance)
        ensures
            r@ == FIXED_BALANCE_ONE,
    {
        FixedBalance { bits: FIXED_BALANCE_ONE }
    }

    /// The whole part.
    pub fn int_part(self) -> (r: u128)
        ensures
            r == self@ / (FIXED_BALANCE_ONE as int),
    {
        self.bits / FIXED_BALANCE_ONE
    }

    /// The part after the point, as a raw value.
    pub fn frac_part(self) -> (r: u128)
        ensures
            r == self@ % (FIXED_BALANCE_ONE as int),
    {
        self.bits % FIXED_BALANCE_ONE
    }

    /// The sum, or `None` on overflow.
    pub fn checked_add(self, other: FixedBalance) -> (r: Option<FixedBalance>)
        ensures
            self@ + other@ <= u128::MAX ==> r.is_some() && r.unwrap()@ == self@ + other@,
            self@ + other@ > u128::MAX ==> r.is_none(),
    {
        match self.bits.checked_add(other.bits) {
            Some(bits) => Some(FixedBalance { bits }),
            None => None,
        }
    }

    /// The difference, or `None` when `other` is the larger.
    pub fn checked_sub(self, other: FixedBalance) -> (r: Option<FixedBalance>)
        ensures
            self@ >= other@ ==> r.is_some() && r.unwrap()@ == self@ - other@,
            self@ < other@ ==> r.is_none(),
    {
        match self.bits.checked_sub(other.bits) {
            Some(bits) => Some(FixedBalance { bits }),
            None => None,
        }
    }

    /// The product, rounded down, or `None` on overflow.
    pub fn checked_mul(self, other: FixedBalance) -> (r: Option<FixedBalance>)
        ensures
            r.is_some() == fixed_product(self@, other@).is_some(),
            r.is_some() ==> r.unwrap()@ == fixed_product(self@, other@).unwrap(),
    {
        let product = crate::wide::full_mul_u128(self.bits, other.bits);
        let scaled = product.checked_div(crate::wide::U256::from_u128(FIXED_BALANCE_ONE));
        match scaled.unwrap().to_u128() {
            Some(bits) => Some(FixedBalance { bits }),
            None => None,
        }
    }

    /// The quotient, rounded down, or `None` for a divisor of zero or on
    /// overflow.
    pub fn checked_div(self, other: FixedBalance) -> (r: Option<FixedBalance>)
        ensures
            r.is_some() == fixed_quotient(self@, other@).is_some(),
            r.is_some() ==> r.unwrap()@ == fixed_quotient(self@, other@).unwrap(),
    {
        let scaled = crate::wide::full_mul_u128(self.bits, FIXED_BALANCE_ONE);
        match scaled.checked_div(crate::wide::U256::from_u128(other.bits)) {
            Some(q) => match q.to_u128() {
                Some(bits) => Some(FixedBalance { bits }),
                None => None,
            },
            None => None,
        }
    }
}

} // verus!
