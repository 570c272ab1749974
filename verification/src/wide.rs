//! Unsigned integers of 256 and 512 bits.
//!
//! A number is held as little-endian 64-bit limbs; its view is the integer it
//! denotes. Conversions and comparisons are verified here. The arithmetic is
//! done by `primitive_types`, each operation behind a contract over the views.

use vstd::arithmetic::power2::pow2;
use vstd::prelude::*;

verus! {

/// 2^64.
pub open spec fn pow2_64() -> int {
    0x1_0000_0000_0000_0000
}

/// 2^128.
pub open spec fn pow2_128() -> int {
    0x1_0000_0000_0000_0000_0000_0000_0000_0000int
}

/// 2^192.
pub open spec fn pow2_192() -> int {
    0x1_0000_0000_0000_0000_0000_0000_0000_0000_0000_0000_0000_0000int
}

/// 2^256.
pub open spec fn pow2_256() -> int {
    0x1_0000_0000_0000_0000_0000_0000_0000_0000_0000_0000_0000_0000_0000_0000_0000_0000int
}

/// 2^320.
pub open spec fn pow2_320() -> int {
    0x1_0000_0000_0000_0000_0000_0000_0000_0000_0000_0000_0000_0000_0000_0000_0000_0000_0000_0000_0000_0000int
}

/// 2^384.
pub open spec fn pow2_384() -> int {
    0x1_0000_0000_0000_0000_0000_0000_0000_0000_0000_0000_0000_0000_0000_0000_0000_0000_0000_0000_0000_0000_0000_0000_0000_0000int
}

/// 2^448.
pub open spec fn pow2_448() -> int {
    0x1_0000_0000_0000_0000_0000_0000_0000_0000_0000_0000_0000_0000_0000_0000_0000_0000_0000_0000_0000_0000_0000_0000_0000_0000_0000_0000_0000_0000int
}

/// 2^512.
pub open spec fn pow2_512() -> int {
    0x1_0000_0000_0000_0000_0000_0000_0000_0000_0000_0000_0000_0000_0000_0000_0000_0000_0000_0000_0000_0000_0000_0000_0000_0000_0000_0000_0000_0000_0000_0000_0000_0000int
}

/// The least number of bits that hold `n`: 0 for 0, else the position of the
/// highest set bit, counted from 1.
pub open spec fn bit_len(n: int) -> nat
    decreases n,
{
    if n <= 0 {
        0
    } else {
        1 + bit_len(n / 2)
    }
}

/// A sum in 256 bits: `None` when a term is missing or the sum does not fit.
pub open spec fn sum_256(a: Option<int>, b: Option<int>) -> Option<int> {
    if a.is_some() && b.is_some() && a.unwrap() + b.unwrap() < pow2_256() {
        Some(a.unwrap() + b.unwrap())
    } else {
        None
    }
}

/// A difference in 256 bits: `None` when a term is missing or the result
/// would be negative.
pub open spec fn diff_256(a: Option<int>, b: Option<int>) -> Option<int> {
    if a.is_some() && b.is_some() && a.unwrap() >= b.unwrap() {
        Some(a.unwrap() - b.unwrap())
    } else {
        None
    }
}

/// A product in 256 bits: `None` when a factor is missing or the product
/// does not fit.
pub open spec fn prod_256(a: Option<int>, b: Option<int>) -> Option<int> {
    if a.is_some() && b.is_some() && a.unwrap() * b.unwrap() < pow2_256() {
        Some(a.unwrap() * b.unwrap())
    } else {
        None
    }
}

/// A quotient in 256 bits, rounded down: `None` when an operand is missing
/// or the divisor is zero.
pub open spec fn quot_256(a: Option<int>, b: Option<int>) -> Option<int> {
    if a.is_some() && b.is_some() && b.unwrap() != 0 {
        Some(a.unwrap() / b.unwrap())
    } else {
        None
    }
}

/// A 256-bit result as a 128-bit balance: `None` when it is missing or does
/// not fit.
pub open spec fn narrow_128(a: Option<int>) -> Option<int> {
    if a.is_some() && a.unwrap() <= u128::MAX {
        a
    } else {
        None
    }
}

/// The integer that four little-endian limbs denote.
pub open spec fn limbs4(l: [u64; 4]) -> int {
    l[0] as int + l[1] as int * pow2_64() + l[2] as int * pow2_128() + l[3] as int * pow2_192()
}

/// A 256-bit unsigned integer, least significant limb first.
#[derive(Clone, Copy, Debug, PartialEq, Eq)]
pub struct U256 {
    pub limbs: [u64; 4],
}

impl View for U256 {
    type V = int;

    open spec fn view(&self) -> int {
        limbs4(self.limbs)
    }
}

/// A 512-bit unsigned integer, least significant limb first.
#[derive(Clone, Copy, Debug, PartialEq, Eq)]
pub struct U512 {
    pub limbs: [u64; 8],
}

impl View for U512 {
    type V = int;

    open spec fn view(&self) -> int {
        self.limbs[0] as int + self.limbs[1] as int * pow2_64() + self.limbs[2] as int * pow2_128()
            + self.limbs[3] as int * pow2_192() + self.limbs[4] as int * pow2_256()
            + self.limbs[5] as int * pow2_320() + self.limbs[6] as int * pow2_384()
            + self.limbs[7] as int * pow2_448()
    }
}

/// A product of bounded factors is bounded by the product of the bounds.
pub proof fn lemma_mul_le(a: int, b: int, a_max: int, b_max: int)
    requires
        0 <= a <= a_max,
        0 <= b <= b_max,
    ensures
        0 <= a * b <= a_max * b_max,
{
    assert(0 <= a * b <= a_max * b_max) by (nonlinear_arith)
        requires
            0 <= a <= a_max,
            0 <= b <= b_max,
    ;
}

/// A product of two numbers below 2^128 is below 2^256.
pub proof fn lemma_mul_fits_256(a: int, b: int)
    requires
        0 <= a < pow2_128(),
        0 <= b < pow2_128(),
    ensures
        0 <= a * b < pow2_256(),
{
    assert(0 <= a * b <= (pow2_128() - 1) * (pow2_128() - 1)) by (nonlinear_arith)
        requires
            0 <= a <= pow2_128() - 1,
            0 <= b <= pow2_128() - 1,
    ;
}

impl U256 {
    /// Zero.
    pub fn zero() -> (r: U256)
        ensures
            r@ == 0,
    {
        U256 { limbs: [0, 0, 0, 0] }
    }

    /// One.
    pub fn one() -> (r: U256)
        ensures
            r@ == 1,
    {
        U256 { limbs: [1, 0, 0, 0] }
    }

    /// The 256-bit number equal to `x`.
    pub fn from_u128(x: u128) -> (r: U256)
        ensures
            r@ == x,
    {
        let lo: u128 = x & 0xFFFF_FFFF_FFFF_FFFF;
        let hi: u128 = x >> 64;
        proof {
            assert(lo <= 0xFFFF_FFFF_FFFF_FFFF && hi <= 0xFFFF_FFFF_FFFF_FFFF && lo + hi
                * 0x1_0000_0000_0000_0000 == x) by (bit_vector)
                requires
                    lo == x & 0xFFFF_FFFF_FFFF_FFFF,
                    hi == x >> 64,
            ;
        }
        U256 { limbs: [lo as u64, hi as u64, 0, 0] }
    }

    /// The low 128 bits of `self`.
    pub fn low_u128(self) -> (r: u128)
        ensures
            r == self@ % pow2_128(),
    {
        let lo: u128 = self.limbs[0] as u128;
        let hi: u128 = self.limbs[1] as u128;
        proof {
            assert((hi << 64) == hi * 0x1_0000_0000_0000_0000) by (bit_vector)
                requires
                    hi <= 0xFFFF_FFFF_FFFF_FFFF,
            ;
            let top = self.limbs[2] as int + self.limbs[3] as int * pow2_64();
            assert(self@ == top * pow2_128() + (lo + hi * pow2_64()));
            vstd::arithmetic::div_mod::lemma_fundamental_div_mod_converse(
                self@,
                pow2_128(),
                top,
                lo + hi * pow2_64(),
            );
        }
        (hi << 64) + lo
    }

    /// `x` times 2^128.
    pub fn from_high_u128(x: u128) -> (r: U256)
        ensures
            r@ == x * pow2_128(),
    {
        let low = U256::from_u128(x);
        U256 { limbs: [0, 0, low.limbs[0], low.limbs[1]] }
    }

    /// `self` divided by 2^128, rounded down.
    pub fn high_u128(self) -> (r: u128)
        ensures
            r == self@ / pow2_128(),
    {
        let lo: u128 = self.limbs[2] as u128;
        let hi: u128 = self.limbs[3] as u128;
        proof {
            assert((hi << 64) == hi * 0x1_0000_0000_0000_0000) by (bit_vector)
                requires
                    hi <= 0xFFFF_FFFF_FFFF_FFFF,
            ;
            vstd::arithmetic::div_mod::lemma_fundamental_div_mod_converse(
                self@,
                pow2_128(),
                lo + hi * pow2_64(),
                self.limbs[0] as int + self.limbs[1] as int * pow2_64(),
            );
        }
        (hi << 64) + lo
    }

    /// `self` as a `u128`, if it fits.
    pub fn to_u128(self) -> (r: Option<u128>)
        ensures
            self@ <= u128::MAX ==> r == Some(self@ as u128),
            self@ > u128::MAX ==> r.is_none(),
    {
        if self.limbs[2] != 0 || self.limbs[3] != 0 {
            None
        } else {
            let lo: u128 = self.limbs[0] as u128;
            let hi: u128 = self.limbs[1] as u128;
            proof {
                assert((hi << 64) == hi * 0x1_0000_0000_0000_0000) by (bit_vector)
                    requires
                        hi <= 0xFFFF_FFFF_FFFF_FFFF,
                ;
            }
            Some((hi << 64) + lo)
        }
    }

    /// `self` as a `u32`, if it fits.
    pub fn to_u32(self) -> (r: Option<u32>)
        ensures
            self@ <= u32::MAX ==> r == Some(self@ as u32),
            self@ > u32::MAX ==> r.is_none(),
    {
        if self.limbs[1] != 0 || self.limbs[2] != 0 || self.limbs[3] != 0 || self.limbs[0]
            > 0xFFFF_FFFF {
            None
        } else {
            Some(self.limbs[0] as u32)
        }
    }

    /// Whether `self` is zero.
    pub fn is_zero(self) -> (r: bool)
        ensures
            r == (self@ == 0),
    {
        self.limbs[0] == 0 && self.limbs[1] == 0 && self.limbs[2] == 0 && self.limbs[3] == 0
    }

    /// Whether `self` is below `other`.
    pub fn lt(self, other: U256) -> (r: bool)
        ensures
            r == (self@ < other@),
    {
        if self.limbs[3] != other.limbs[3] {
            self.limbs[3] < other.limbs[3]
        } else if self.limbs[2] != other.limbs[2] {
            self.limbs[2] < other.limbs[2]
        } else if self.limbs[1] != other.limbs[1] {
            self.limbs[1] < other.limbs[1]
        } else {
            self.limbs[0] < other.limbs[0]
        }
    }

    /// Whether `self` is at most `other`.
    pub fn le(self, other: U256) -> (r: bool)
        ensures
            r == (self@ <= other@),
    {
        !other.lt(self)
    }

    /// `primitive_types::U256::checked_add`: the sum, or `None` when it does
    /// not fit in 256 bits.
    #[verifier::external_body]
    pub(crate) fn checked_add(self, other: U256) -> (r: Option<U256>)
        ensures
            self@ + other@ < pow2_256() ==> r.is_some() && r.unwrap()@ == self@ + other@,
            self@ + other@ >= pow2_256() ==> r.is_none(),
    {
        match primitive_types::U256(self.limbs).checked_add(primitive_types::U256(other.limbs)) {
            Some(p) => Some(U256 { limbs: p.0 }),
            None => None,
        }
    }

    /// `primitive_types::U256::checked_sub`: the difference, or `None` when
    /// `other` is the larger.
    #[verifier::external_body]
    pub(crate) fn checked_sub(self, other: U256) -> (r: Option<U256>)
        ensures
            self@ >= other@ ==> r.is_some() && r.unwrap()@ == self@ - other@,
            self@ < other@ ==> r.is_none(),
    {
        match primitive_types::U256(self.limbs).checked_sub(primitive_types::U256(other.limbs)) {
            Some(p) => Some(U256 { limbs: p.0 }),
            None => None,
        }
    }

    /// `primitive_types::U256::checked_mul`: the product, or `None` when it
    /// does not fit in 256 bits.
    #[verifier::external_body]
    pub(crate) fn checked_mul(self, other: U256) -> (r: Option<U256>)
        ensures
            self@ * other@ < pow2_256() ==> r.is_some() && r.unwrap()@ == self@ * other@,
            self@ * other@ >= pow2_256() ==> r.is_none(),
    {
        match primitive_types::U256(self.limbs).checked_mul(primitive_types::U256(other.limbs)) {
            Some(p) => Some(U256 { limbs: p.0 }),
            None => None,
        }
    }

    /// `primitive_types::U256::checked_div`: the quotient rounded down, or
    /// `None` when `other` is zero.
    #[verifier::external_body]
    pub(crate) fn checked_div(self, other: U256) -> (r: Option<U256>)
        ensures
            other@ != 0 ==> r.is_some() && r.unwrap()@ == self@ / other@,
            other@ == 0 ==> r.is_none(),
    {
        match primitive_types::U256(self.limbs).checked_div(primitive_types::U256(other.limbs)) {
            Some(p) => Some(U256 { limbs: p.0 }),
            None => None,
        }
    }

    /// `primitive_types::U256::saturating_add`: the sum, or 2^256 - 1 when it
    /// does not fit.
    #[verifier::external_body]
    pub(crate) fn saturating_add(self, other: U256) -> (r: U256)
        ensures
            r@ == (if self@ + other@ < pow2_256() {
                self@ + other@
            } else {
                pow2_256() - 1
            }),
    {
        U256 {
            limbs: primitive_types::U256(self.limbs).saturating_add(
                primitive_types::U256(other.limbs),
            ).0,
        }
    }

    /// `primitive_types::U256::saturating_sub`: the difference, or zero when
    /// `other` is the larger.
    #[verifier::external_body]
    pub(crate) fn saturating_sub(self, other: U256) -> (r: U256)
        ensures
            r@ == (if self@ >= other@ {
                self@ - other@
            } else {
                0
            }),
    {
        U256 {
            limbs: primitive_types::U256(self.limbs).saturating_sub(
                primitive_types::U256(other.limbs),
            ).0,
        }
    }

    /// `primitive_types::U256::saturating_mul`: the product, or 2^256 - 1 when
    /// it does not fit.
    #[verifier::external_body]
    pub(crate) fn saturating_mul(self, other: U256) -> (r: U256)
        ensures
            r@ == (if self@ * other@ < pow2_256() {
                self@ * other@
            } else {
                pow2_256() - 1
            }),
    {
        U256 {
            limbs: primitive_types::U256(self.limbs).saturating_mul(
                primitive_types::U256(other.limbs),
            ).0,
        }
    }

    /// `primitive_types::U256::full_mul`: the exact product, in 512 bits.
    #[verifier::external_body]
    pub(crate) fn full_mul(self, other: U256) -> (r: U512)
        ensures
            r@ == self@ * other@,
    {
        U512 {
            limbs: primitive_types::U256(self.limbs).full_mul(primitive_types::U256(other.limbs)).0,
        }
    }

    /// `primitive_types::U256::bits`: the least number of bits that hold
    /// `self`.
    #[verifier::external_body]
    pub(crate) fn bits(self) -> (r: usize)
        ensures
            r == bit_len(self@),
            r <= 256,
    {
        primitive_types::U256(self.limbs).bits()
    }

    /// `>>` of `primitive_types::U256`: `self` divided by 2^`shift`, rounded
    /// down.
    #[verifier::external_body]
    pub(crate) fn shr(self, shift: usize) -> (r: U256)
        ensures
            r@ == self@ / (pow2(shift as nat) as int),
    {
        U256 { limbs: (primitive_types::U256(self.limbs) >> shift).0 }
    }
}

/// `primitive_types::U128::full_mul`: the exact product of two 128-bit
/// numbers, in 256 bits.
#[verifier::external_body]
pub(crate) fn full_mul_u128(a: u128, b: u128) -> (r: U256)
    ensures
        r@ == a * b,
{
    U256 { limbs: primitive_types::U128::from(a).full_mul(primitive_types::U128::from(b)).0 }
}

impl U512 {
    /// Zero.
    pub fn zero() -> (r: U512)
        ensures
            r@ == 0,
    {
        U512 { limbs: [0, 0, 0, 0, 0, 0, 0, 0] }
    }

    /// One.
    pub fn one() -> (r: U512)
        ensures
            r@ == 1,
    {
        U512 { limbs: [1, 0, 0, 0, 0, 0, 0, 0] }
    }

    /// The 512-bit number equal to `x`.
    pub fn from_u256(x: U256) -> (r: U512)
        ensures
            r@ == x@,
    {
        U512 { limbs: [x.limbs[0], x.limbs[1], x.limbs[2], x.limbs[3], 0, 0, 0, 0] }
    }

    /// The 512-bit number equal to `x`.
    pub fn from_u128(x: u128) -> (r: U512)
        ensures
            r@ == x,
    {
        U512::from_u256(U256::from_u128(x))
    }

    /// The low 128 bits of `self`.
    pub fn low_u128(self) -> (r: u128)
        ensures
            r == self@ % pow2_128(),
    {
        let lo: u128 = self.limbs[0] as u128;
        let hi: u128 = self.limbs[1] as u128;
        proof {
            assert((hi << 64) == hi * 0x1_0000_0000_0000_0000) by (bit_vector)
                requires
                    hi <= 0xFFFF_FFFF_FFFF_FFFF,
            ;
            let top = self.limbs[2] as int + self.limbs[3] as int * pow2_64() + self.limbs[4] as int
                * pow2_128() + self.limbs[5] as int * pow2_192() + self.limbs[6] as int
                * pow2_256() + self.limbs[7] as int * pow2_320();
            assert(self@ == top * pow2_128() + (lo + hi * pow2_64()));
            vstd::arithmetic::div_mod::lemma_fundamental_div_mod_converse(
                self@,
                pow2_128(),
                top,
                lo + hi * pow2_64(),
            );
        }
        (hi << 64) + lo
    }

    /// Whether `self` is zero.
    pub fn is_zero(self) -> (r: bool)
        ensures
            r == (self@ == 0),
    {
        self.limbs[0] == 0 && self.limbs[1] == 0 && self.limbs[2] == 0 && self.limbs[3] == 0
            && self.limbs[4] == 0 && self.limbs[5] == 0 && self.limbs[6] == 0 && self.limbs[7]
            == 0
    }

    /// The upper and the lower half of `self`.
    pub fn halves(self) -> (r: (U256, U256))
        ensures
            self@ == r.0@ * pow2_256() + r.1@,
    {
        (
            U256 { limbs: [self.limbs[4], self.limbs[5], self.limbs[6], self.limbs[7]] },
            U256 { limbs: [self.limbs[0], self.limbs[1], self.limbs[2], self.limbs[3]] },
        )
    }

    /// Whether `self` is below `other`.
    pub fn lt(self, other: U512) -> (r: bool)
        ensures
            r == (self@ < other@),
    {
        let (a_hi, a_lo) = self.halves();
        let (b_hi, b_lo) = other.halves();
        if a_hi.lt(b_hi) {
            true
        } else if b_hi.lt(a_hi) {
            false
        } else {
            a_lo.lt(b_lo)
        }
    }

    /// The larger of `self` and `other`.
    pub fn max(self, other: U512) -> (r: U512)
        ensures
            r@ == (if self@ >= other@ {
                self@
            } else {
                other@
            }),
    {
        if self.lt(other) {
            other
        } else {
            self
        }
    }

    /// `primitive_types::U512::saturating_add`: the sum, or 2^512 - 1 when it
    /// does not fit.
    #[verifier::external_body]
    pub(crate) fn saturating_add(self, other: U512) -> (r: U512)
        ensures
            r@ == (if self@ + other@ < pow2_512() {
                self@ + other@
            } else {
                pow2_512() - 1
            }),
    {
        U512 {
            limbs: primitive_types::U512(self.limbs).saturating_add(
                primitive_types::U512(other.limbs),
            ).0,
        }
    }

    /// `primitive_types::U512::saturating_sub`: the difference, or zero when
    /// `other` is the larger.
    #[verifier::external_body]
    pub(crate) fn saturating_sub(self, other: U512) -> (r: U512)
        ensures
            r@ == (if self@ >= other@ {
                self@ - other@
            } else {
                0
            }),
    {
        U512 {
            limbs: primitive_types::U512(self.limbs).saturating_sub(
                primitive_types::U512(other.limbs),
            ).0,
        }
    }

    /// `primitive_types::U512::saturating_mul`: the product, or 2^512 - 1 when
    /// it does not fit.
    #[verifier::external_body]
    pub(crate) fn saturating_mul(self, other: U512) -> (r: U512)
        ensures
            r@ == (if self@ * other@ < pow2_512() {
                self@ * other@
            } else {
                pow2_512() - 1
            }),
    {
        U512 {
            limbs: primitive_types::U512(self.limbs).saturating_mul(
                primitive_types::U512(other.limbs),
            ).0,
        }
    }

    /// `primitive_types::U512::bits`: the least number of bits that hold
    /// `self`.
    #[verifier::external_body]
    pub(crate) fn bits(self) -> (r: usize)
        ensures
            r == bit_len(self@),
            r <= 512,
    {
        primitive_types::U512(self.limbs).bits()
    }

    /// `>>` of `primitive_types::U512`: `self` divided by 2^`shift`, rounded
    /// down.
    #[verifier::external_body]
    pub(crate) fn shr(self, shift: usize) -> (r: U512)
        ensures
            r@ == self@ / (pow2(shift as nat) as int),
    {
        U512 { limbs: (primitive_types::U512(self.limbs) >> shift).0 }
    }
}

} // verus!
