//! Decimal fixed-point numbers, per-million parts and 128-bit rationals.
//!
//! The values are plain integers here. Multiplication and division with
//! rounding are done by `sp_arithmetic`, each call behind a contract that
//! states the rounding. Rationals are compared here, by their cross
//! products in 256 bits.

use crate::wide::full_mul_u128;
use vstd::prelude::*;

verus! {

/// The scaling of [`FixedU128`]: 10^18.
pub const FIXED_DIV: u128 = 1_000_000_000_000_000_000;

/// The scaling of [`Permill`]: 10^6.
pub const PERMILL_DIV: u32 = 1_000_000;

/// `a * b / c` rounded down, where it is defined and fits in 128 bits.
pub open spec fn mul_div_floor(a: int, b: int, c: int) -> Option<int> {
    if c == 0 || a * b / c > u128::MAX {
        None
    } else {
        Some(a * b / c)
    }
}

/// An unsigned decimal fixed-point number: `inner / 10^18`.
#[derive(Clone, Copy, Debug, PartialEq, Eq, Structural)]
pub struct FixedU128 {
    pub inner: u128,
}

impl View for FixedU128 {
    type V = int;

    open spec fn view(&self) -> int {
        self.inner as int
    }
}

impl FixedU128 {
    /// The number with the given raw value.
    pub fn from_inner(inner: u128) -> (r: FixedU128)
        ensures
            r@ == inner,
    {
        FixedU128 { inner }
    }

    /// The raw value.
    pub fn into_inner(self) -> (r: u128)
        ensures
            r == self@,
    {
        self.inner
    }

    /// The number one.
    pub fn one() -> (r: FixedU128)
        ensures
            r@ == FIXED_DIV,
    {
        FixedU128 { inner: FIXED_DIV }
    }

    /// The sum, or `None` on overflow.
    pub fn checked_add(self, other: FixedU128) -> (r: Option<FixedU128>)
        ensures
            self@ + other@ <= u128::MAX ==> r.is_some() && r.unwrap()@ == self@ + other@,
            self@ + other@ > u128::MAX ==> r.is_none(),
    {
        match self.inner.checked_add(other.inner) {
            Some(v) => Some(FixedU128 { inner: v }),
            None => None,
        }
    }

    /// The difference, or `None` when `other` is the larger.
    pub fn checked_sub(self, other: FixedU128) -> (r: Option<FixedU128>)
        ensures
            self@ >= other@ ==> r.is_some() && r.unwrap()@ == self@ - other@,
            self@ < other@ ==> r.is_none(),
    {
        match self.inner.checked_sub(other.inner) {
            Some(v) => Some(FixedU128 { inner: v }),
            None => None,
        }
    }

    /// `sp_arithmetic::FixedU128::checked_from_rational`: `n / d` as a fixed
    /// number, rounded down; `None` when `d` is zero or the result does not
    /// fit.
    #[verifier::external_body]
    pub(crate) fn checked_from_rational(n: u128, d: u128) -> (r: Option<FixedU128>)
        ensures
            r.is_some() == mul_div_floor(n as int, FIXED_DIV as int, d as int).is_some(),
            r.is_some() ==> r.unwrap()@ == mul_div_floor(
                n as int,
                FIXED_DIV as int,
                d as int,
            ).unwrap(),
    {
        match <sp_arithmetic::FixedU128 as sp_arithmetic::FixedPointNumber>::checked_from_rational(
            n,
            d,
        ) {
            Some(v) => Some(FixedU128 { inner: v.into_inner() }),
            None => None,
        }
    }

    /// `checked_mul` of `sp_arithmetic::FixedU128`: the product, rounded down;
    /// `None` when it does not fit.
    #[verifier::external_body]
    pub(crate) fn checked_mul(self, other: FixedU128) -> (r: Option<FixedU128>)
        ensures
            r.is_some() == mul_div_floor(self@, other@, FIXED_DIV as int).is_some(),
            r.is_some() ==> r.unwrap()@ == mul_div_floor(self@, other@, FIXED_DIV as int).unwrap(),
    {
        let a = sp_arithmetic::FixedU128::from_inner(self.inner);
        let b = sp_arithmetic::FixedU128::from_inner(other.inner);
        match sp_arithmetic::traits::CheckedMul::checked_mul(&a, &b) {
            Some(v) => Some(FixedU128 { inner: v.into_inner() }),
            None => None,
        }
    }

    /// `checked_div` of `sp_arithmetic::FixedU128`: the quotient, rounded
    /// down; `None` when `other` is zero or the result does not fit.
    #[verifier::external_body]
    pub(crate) fn checked_div(self, other: FixedU128) -> (r: Option<FixedU128>)
        ensures
            r.is_some() == mul_div_floor(self@, FIXED_DIV as int, other@).is_some(),
            r.is_some() ==> r.unwrap()@ == mul_div_floor(self@, FIXED_DIV as int, other@).unwrap(),
    {
        let a = sp_arithmetic::FixedU128::from_inner(self.inner);
        let b = sp_arithmetic::FixedU128::from_inner(other.inner);
        match sp_arithmetic::traits::CheckedDiv::checked_div(&a, &b) {
            Some(v) => Some(FixedU128 { inner: v.into_inner() }),
            None => None,
        }
    }

    /// `sp_arithmetic::FixedU128::checked_mul_int`: `self` times the integer
    /// `n`, rounded down to an integer; `None` when it does not fit.
    #[verifier::external_body]
    pub(crate) fn checked_mul_int(self, n: u128) -> (r: Option<u128>)
        ensures
            r.is_some() == mul_div_floor(self@, n as int, FIXED_DIV as int).is_some(),
            r.is_some() ==> r.unwrap() == mul_div_floor(self@, n as int, FIXED_DIV as int).unwrap(),
    {
        sp_arithmetic::FixedPointNumber::checked_mul_int(
            sp_arithmetic::FixedU128::from_inner(self.inner),
            n,
        )
    }
}

/// Parts per million: a fraction of one in steps of 10^-6.
#[derive(Clone, Copy, Debug, PartialEq, Eq, Structural)]
pub struct Permill {
    pub parts: u32,
}

impl View for Permill {
    type V = int;

    open spec fn view(&self) -> int {
        self.parts as int
    }
}

impl Permill {
    /// A well-formed value is at most one.
    pub open spec fn wf(self) -> bool {
        self.parts <= PERMILL_DIV
    }

    /// `parts` millionths, or one if `parts` is more than a million.
    pub fn from_parts(parts: u32) -> (r: Permill)
        ensures
            r.wf(),
            r@ == (if parts <= PERMILL_DIV {
                parts as int
            } else {
                PERMILL_DIV as int
            }),
    {
        if parts <= PERMILL_DIV {
            Permill { parts }
        } else {
            Permill { parts: PERMILL_DIV }
        }
    }

    /// `percent` hundredths, or one if `percent` is more than a hundred.
    pub fn from_percent(percent: u32) -> (r: Permill)
        ensures
            r.wf(),
            r@ == (if percent <= 100 {
                percent * 10_000
            } else {
                PERMILL_DIV as int
            }),
    {
        if percent <= 100 {
            Permill { parts: percent * 10_000 }
        } else {
            Permill { parts: PERMILL_DIV }
        }
    }

    /// Zero.
    pub fn zero() -> (r: Permill)
        ensures
            r.wf(),
            r@ == 0,
    {
        Permill { parts: 0 }
    }

    /// One.
    pub fn one() -> (r: Permill)
        ensures
            r.wf(),
            r@ == PERMILL_DIV,
    {
        Permill { parts: PERMILL_DIV }
    }

    /// The number of millionths.
    pub fn deconstruct(self) -> (r: u32)
        ensures
            r == self@,
    {
        self.parts
    }

    /// What is left of one after `self` is taken away.
    pub fn complement(self) -> (r: Permill)
        requires
            self.wf(),
        ensures
            r.wf(),
            r@ == PERMILL_DIV - self@,
    {
        Permill { parts: PERMILL_DIV - self.parts }
    }

    /// `sp_arithmetic::Permill::mul_floor`: this fraction of `x`, rounded
    /// down.
    #[verifier::external_body]
    pub(crate) fn mul_floor(self, x: u128) -> (r: u128)
        requires
            self.wf(),
        ensures
            r == x * self@ / (PERMILL_DIV as int),
    {
        sp_arithmetic::Permill::from_parts(self.parts).mul_floor(x)
    }

    /// `From<Permill>` of `sp_arithmetic::FixedU128`: the same fraction as a
    /// decimal fixed-point number, which is exact.
    #[verifier::external_body]
    pub(crate) fn to_fixed(self) -> (r: FixedU128)
        requires
            self.wf(),
        ensures
            r@ == self@ * 1_000_000_000_000,
    {
        let f: sp_arithmetic::FixedU128 = sp_arithmetic::Permill::from_parts(self.parts).into();
        FixedU128 { inner: f.into_inner() }
    }
}

/// A rational number `n / d` of two 128-bit integers. Two of them denote the
/// same value when their cross products are equal.
#[derive(Clone, Copy, Debug)]
pub struct Rational128 {
    pub n: u128,
    pub d: u128,
}

impl PartialEq for Rational128 {
    /// Whether the two denote the same value: their cross products are
    /// equal.
    fn eq(&self, other: &Rational128) -> (r: bool) {
        let left = full_mul_u128(self.n, other.d);
        let right = full_mul_u128(other.n, self.d);
        !left.lt(right) && !right.lt(left)
    }
}

impl vstd::std_specs::cmp::PartialEqSpecImpl for Rational128 {
    open spec fn obeys_eq_spec() -> bool {
        true
    }

    open spec fn eq_spec(&self, other: &Rational128) -> bool {
        self.same_value(*other)
    }
}

impl Rational128 {
    /// A well-formed rational has a positive denominator.
    pub open spec fn wf(self) -> bool {
        self.d > 0
    }

    /// Whether `self` and `other` denote the same value.
    pub open spec fn same_value(self, other: Rational128) -> bool {
        self.n * other.d == other.n * self.d
    }

    /// Whether `self` denotes at most the value of `other`.
    pub open spec fn le_value(self, other: Rational128) -> bool {
        self.n * other.d <= other.n * self.d
    }

    /// `n / d`, with a denominator of zero replaced by one.
    pub fn from(n: u128, d: u128) -> (r: Rational128)
        ensures
            r.wf(),
            r.n == n,
            r.d == (if d == 0 {
                1
            } else {
                d
            }),
    {
        if d == 0 {
            Rational128 { n, d: 1 }
        } else {
            Rational128 { n, d }
        }
    }

    /// The numerator.
    pub fn n(self) -> (r: u128)
        ensures
            r == self.n,
    {
        self.n
    }

    /// The denominator.
    pub fn d(self) -> (r: u128)
        ensures
            r == self.d,
    {
        self.d
    }

    /// Whether `self` denotes at least the value of `other`, decided by the
    /// cross products.
    pub fn ge(self, other: Rational128) -> (r: bool)
        ensures
            r == other.le_value(self),
    {
        !full_mul_u128(self.n, other.d).lt(full_mul_u128(other.n, self.d))
    }
}

} // verus!
