//! Fractions of one in binary fixed point.
//!
//! A [`Fraction`] holds `bits / DIV`, where `DIV` is 2^127. The values from
//! zero to one are those with `bits` at most `DIV`.

use crate::arith::lemma_div_bounds;
use crate::arith::lemma_part_of_whole;
use crate::fixed::FixedU128;
use crate::fixed::FIXED_DIV;
use crate::types::Balance;
use crate::wide::full_mul_u128;
use crate::wide::U256;
use vstd::prelude::*;

verus! {

/// The scaling of a [`Fraction`]: 2^127.
pub const DIV: u128 = 0x8000_0000_0000_0000_0000_0000_0000_0000;

/// A number between zero and one: `bits / DIV`.
#[derive(Clone, Copy, Debug, PartialEq, Eq, Structural)]
pub struct Fraction {
    pub bits: u128,
}

impl View for Fraction {
    type V = int;

    open spec fn view(&self) -> int {
        self.bits as int
    }
}

impl Fraction {
    /// A well-formed fraction is at most one.
    pub open spec fn wf(self) -> bool {
        self.bits <= DIV
    }

    /// The fraction `bits / DIV`.
    pub fn from_bits(bits: u128) -> (r: Fraction)
        ensures
            r@ == bits,
    {
        Fraction { bits }
    }

    /// The numerator over `DIV`.
    pub fn to_bits(self) -> (r: u128)
        ensures
            r == self@,
    {
        self.bits
    }

    /// Zero.
    pub fn zero() -> (r: Fraction)
        ensures
            r@ == 0,
            r.wf(),
    {
        Fraction { bits: 0 }
    }

    /// One.
    pub fn one() -> (r: Fraction)
        ensures
            r@ == DIV,
            r.wf(),
    {
        Fraction { bits: DIV }
    }

    /// Whether `self` is zero.
    pub fn is_zero(self) -> (r: bool)
        ensures
            r == (self@ == 0),
    {
        self.bits == 0
    }

    /// Whether `self` is one.
    pub fn is_one(self) -> (r: bool)
        ensures
            r == (self@ == DIV),
    {
        self.bits == DIV
    }

    /// One less `self`, which is exact.
    pub fn complement(self) -> (r: Fraction)
        requires
            self.wf(),
        ensures
            r@ == DIV - self@,
            r.wf(),
    {
        Fraction { bits: DIV - self.bits }
    }
}

/// The smallest fraction above zero.
pub fn smallest_non_zero() -> (r: Fraction)
    ensures
        r@ == 1,
        r.wf(),
{
    Fraction { bits: 1 }
}

/// Create a fraction based on a `n`umerator and `d`enominator: `n / d`,
/// rounded down to a multiple of `1 / DIV`.
pub fn frac(n: u128, d: u128) -> (r: Fraction)
    requires
        n <= d,
        d > 0,
    ensures
        r@ == n * DIV / (d as int),
        r.wf(),
{
    proof {
        lemma_part_of_whole(DIV as int, n as int, d as int);
        vstd::arithmetic::mul::lemma_mul_is_commutative(n as int, DIV as int);
    }
    let q = full_mul_u128(n, DIV).checked_div(U256::from_u128(d));
    let bits = q.unwrap().to_u128();
    Fraction { bits: bits.unwrap() }
}

/// Multiply a balance by a fraction, rounding down.
pub fn multiply_by_balance(f: Fraction, b: Balance) -> (r: Balance)
    requires
        f.wf(),
    ensures
        r == f@ * b / (DIV as int),
        r <= b,
{
    proof {
        lemma_part_of_whole(b as int, f@, DIV as int);
        vstd::arithmetic::mul::lemma_mul_is_commutative(b as int, f@);
    }
    let q = full_mul_u128(b, f.to_bits()).checked_div(U256::from_u128(DIV));
    let r = q.unwrap().to_u128();
    r.unwrap()
}

/// Multiply a decimal fixed-point number by a fraction, rounding down. The
/// product is formed in 256 bits, so nothing is lost but in the one rounding.
pub fn multiply_by_fixed(f: Fraction, x: FixedU128) -> (r: FixedU128)
    requires
        f.wf(),
    ensures
        r@ == f@ * x@ / (DIV as int),
{
    FixedU128::from_inner(multiply_by_balance(f, x.into_inner()))
}

/// The fraction as a decimal fixed-point number, rounded down.
pub fn to_fixed(f: Fraction) -> (r: FixedU128)
    requires
        f.wf(),
    ensures
        r@ == f@ * FIXED_DIV / (DIV as int),
        r@ <= FIXED_DIV,
{
    proof {
        lemma_part_of_whole(FIXED_DIV as int, f@, DIV as int);
        vstd::arithmetic::mul::lemma_mul_is_commutative(FIXED_DIV as int, f@);
    }
    let r = FixedU128::checked_from_rational(f.to_bits(), DIV);
    r.unwrap()
}

/// Multiplying by a fraction directly is no farther from the true product
/// than converting the fraction to decimal fixed point first: with `direct`
/// the result of [`multiply_by_fixed`] and `converted` the fixed-point
/// product of `x` and [`to_fixed`] of `f`, both are at most the true product
/// `x * f`, and `converted` is at most `direct`.
pub proof fn lemma_multiply_by_fixed_precision(f: Fraction, x: FixedU128)
    requires
        f.wf(),
    ensures
        ({
            let direct = f@ * x@ / (DIV as int);
            let converted = x@ * (f@ * FIXED_DIV / (DIV as int)) / (FIXED_DIV as int);
            converted <= direct && direct * DIV <= f@ * x@
        }),
{
    let div = DIV as int;
    let fd = FIXED_DIV as int;
    let c = f@ * fd / div;
    let direct = f@ * x@ / div;
    let converted = x@ * c / fd;
    assert(0 <= f@ * fd && 0 <= f@ * x@) by (nonlinear_arith)
        requires
            0 <= f@,
            0 <= x@,
            0 <= fd,
    ;
    lemma_div_bounds(f@ * fd, div);
    lemma_div_bounds(f@ * x@, div);
    // c * div <= f * fd, hence x * c * div <= x * f * fd
    assert(x@ * c * div <= f@ * x@ * fd) by (nonlinear_arith)
        requires
            c * div <= f@ * fd,
            0 <= x@,
    ;
    // f * x < (direct + 1) * div, hence x * c * div < (direct + 1) * div * fd
    assert(x@ * c < (direct + 1) * fd) by (nonlinear_arith)
        requires
            x@ * c * div <= f@ * x@ * fd,
            f@ * x@ < direct * div + div,
            0 < div,
            0 < fd,
    ;
    assert(0 <= x@ * c) by (nonlinear_arith)
        requires
            0 <= x@,
            0 <= c,
    ;
    vstd::arithmetic::div_mod::lemma_multiply_divide_lt(x@ * c, fd, direct + 1);
}

} // verus!
