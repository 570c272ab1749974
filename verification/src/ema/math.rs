//! The moving averages, with prices as rationals of two 128-bit integers.
//!
//! A price average is formed on integers of 256 and 512 bits and rounded
//! back to 128 bits at the end, towards the previous value.

use crate::arith::lemma_below_pow2;
use crate::arith::lemma_part_of_whole;
use crate::arith::lemma_pow2_values;
use crate::arith::lemma_shifted_fits;
use crate::fixed::Rational128;
use crate::fraction::frac;
use crate::fraction::multiply_by_balance;
use crate::fraction::Fraction;
use crate::fraction::DIV;
use crate::transcendental::lemma_powi_bits;
use crate::transcendental::powi_bits;
use crate::transcendental::saturating_powi_high_precision;
use crate::types::Balance;
use crate::wide::bit_len;
use crate::wide::full_mul_u128;
use crate::wide::lemma_mul_le;
use crate::wide::pow2_128;
use crate::wide::pow2_256;
use crate::wide::pow2_512;
use crate::wide::U256;
use crate::wide::U512;
use vstd::arithmetic::power::pow;
use vstd::arithmetic::power2::pow2;
use vstd::prelude::*;

verus! {

/// A price: hub asset per asset, as a rational number.
pub type Price = Rational128;

/// The smoothing factor after `iterations` steps with `smoothing`, as the
/// numerator over `DIV`: one less the `iterations`-th power of what
/// `smoothing` leaves of one.
pub open spec fn smoothing_after(smoothing: Fraction, iterations: nat) -> int {
    DIV - powi_bits(DIV - smoothing@, iterations)
}

/// The smoothing factor for a period, as the numerator over `DIV`:
/// `2 / (period + 1)`, for a period of at least one.
pub open spec fn smoothing_of_period(period: u64) -> int {
    2 * DIV / (if period >= 1 {
        period + 1
    } else {
        2
    })
}

/// The weighted average of two balances: `prev` moved towards `incoming` by
/// `weight` of their distance, rounded down.
pub open spec fn balance_average(prev: Balance, incoming: Balance, weight: Fraction) -> int {
    if incoming >= prev {
        prev + weight@ * (incoming - prev) / (DIV as int)
    } else {
        prev - weight@ * (prev - incoming) / (DIV as int)
    }
}

/// The weighted averages of four balances.
pub open spec fn volume_average(
    prev: (Balance, Balance, Balance, Balance),
    incoming: (Balance, Balance, Balance, Balance),
    weight: Fraction,
) -> (int, int, int, int) {
    (
        balance_average(prev.0, incoming.0, weight),
        balance_average(prev.1, incoming.1, weight),
        balance_average(prev.2, incoming.2, weight),
        balance_average(prev.3, incoming.3, weight),
    )
}

/// Whether `x` lies between `a` and `b`, whichever of them is the larger.
pub open spec fn between(x: int, a: int, b: int) -> bool {
    (a <= x <= b) || (b <= x <= a)
}

/// One iteration smooths by the smoothing factor itself, so that an iterated
/// average over one iteration is the plain weighted average. No iteration at
/// all does not smooth.
pub proof fn lemma_smoothing_after_one(smoothing: Fraction)
    requires
        smoothing.wf(),
    ensures
        smoothing_after(smoothing, 1) == smoothing@,
        smoothing_after(smoothing, 0) == 0,
{
    lemma_powi_bits(DIV - smoothing@, 1);
    lemma_powi_bits(DIV - smoothing@, 0);
}

/// More iterations never smooth less: the smoothing factor after a number
/// of iterations is at least that after any smaller number.
pub proof fn lemma_smoothing_after_grows(smoothing: Fraction, fewer: nat, more: nat)
    requires
        smoothing.wf(),
        fewer <= more <= u32::MAX,
    ensures
        smoothing_after(smoothing, fewer) <= smoothing_after(smoothing, more),
    decreases more - fewer,
{
    if fewer < more {
        lemma_smoothing_after_grows(smoothing, fewer, (more - 1) as nat);
        crate::powers::lemma_powi_falls(DIV - smoothing@, (more - 1) as nat);
    }
}

/// Calculate the iterated exponential moving average for the given prices.
/// `iterations` is the number of iterations of the EMA to calculate.
/// `prev` is the previous oracle value, `incoming` is the new value to integrate.
/// `smoothing` is the smoothing factor of the EMA.
pub fn iterated_price_ema(iterations: u32, prev: Price, incoming: Price, smoothing: Fraction) -> (r:
    Price)
    requires
        smoothing.wf(),
        prev.wf(),
        incoming.wf(),
    ensures
        r == price_average(
            prev,
            incoming,
            Fraction { bits: smoothing_after(smoothing, iterations as nat) as u128 },
        ),
        iterations == 1 ==> r == price_average(prev, incoming, smoothing),
        r.wf(),
{
    price_weighted_average(prev, incoming, exp_smoothing(smoothing, iterations))
}

/// Calculate the iterated exponential moving average for the given balances.
/// `iterations` is the number of iterations of the EMA to calculate.
/// `prev` is the previous oracle value, `incoming` is the new value to integrate.
/// `smoothing` is the smoothing factor of the EMA.
pub fn iterated_balance_ema(
    iterations: u32,
    prev: Balance,
    incoming: Balance,
    smoothing: Fraction,
) -> (r: Balance)
    requires
        smoothing.wf(),
    ensures
        r == balance_average(
            prev,
            incoming,
            Fraction { bits: smoothing_after(smoothing, iterations as nat) as u128 },
        ),
        iterations == 1 ==> r == balance_average(prev, incoming, smoothing),
        between(r as int, prev as int, incoming as int),
{
    balance_weighted_average(prev, incoming, exp_smoothing(smoothing, iterations))
}

/// Calculate the iterated exponential moving average for the given volumes.
/// `iterations` is the number of iterations of the EMA to calculate.
/// `prev` is the previous oracle value, `incoming` is the new value to integrate.
/// `smoothing` is the smoothing factor of the EMA.
pub fn iterated_volume_ema(
    iterations: u32,
    prev: (Balance, Balance, Balance, Balance),
    incoming: (Balance, Balance, Balance, Balance),
    smoothing: Fraction,
) -> (r: (Balance, Balance, Balance, Balance))
    requires
        smoothing.wf(),
    ensures
        (r.0 as int, r.1 as int, r.2 as int, r.3 as int) == volume_average(
            prev,
            incoming,
            Fraction { bits: smoothing_after(smoothing, iterations as nat) as u128 },
        ),
        iterations == 1 ==> (r.0 as int, r.1 as int, r.2 as int, r.3 as int) == volume_average(
            prev,
            incoming,
            smoothing,
        ),
        between(r.0 as int, prev.0 as int, incoming.0 as int),
        between(r.1 as int, prev.1 as int, incoming.1 as int),
        between(r.2 as int, prev.2 as int, incoming.2 as int),
        between(r.3 as int, prev.3 as int, incoming.3 as int),
{
    volume_weighted_average(prev, incoming, exp_smoothing(smoothing, iterations))
}

/// Calculate the smoothing factor for a number of iterations from the smoothing factor of one
/// iteration, by exponentiating the complement by the iterations.
///
/// Example:
/// `exp_smoothing(0.6, 2) = 1 - (1 - 0.6)^2 = 1 - 0.40^2 = 1 - 0.16 = 0.84`
///
/// One iteration gives `smoothing` back unchanged, and more iterations
/// never give less than fewer do ([`lemma_smoothing_after_grows`]). What is
/// left of one is the true power of what `smoothing` leaves, rounded down to
/// a fraction, or one step below it.
pub fn exp_smoothing(smoothing: Fraction, iterations: u32) -> (r: Fraction)
    requires
        smoothing.wf(),
    ensures
        r@ == smoothing_after(smoothing, iterations as nat),
        r.wf(),
        iterations == 0 ==> r@ == 0,
        iterations == 1 ==> r == smoothing,
        iterations >= 1 ==> r@ >= smoothing@,
        iterations >= 1 ==> (DIV - r@) * pow(DIV as int, (iterations - 1) as nat) <= pow(
            DIV - smoothing@,
            iterations as nat,
        ) < (DIV - r@ + 2) * pow(DIV as int, (iterations - 1) as nat),
{
    let complement = smoothing.complement();
    proof {
        lemma_powi_bits(complement@, iterations as nat);
    }
    // in order to determine the iterated smoothing factor we exponentiate the complement
    let exp_complement: Fraction = saturating_powi_high_precision(complement, iterations);
    exp_complement.complement()
}

/// Calculates smoothing factor alpha for an exponential moving average based on `period`:
/// `alpha = 2 / (period + 1)`. It leads to the "center of mass" of the EMA corresponding to be the
/// "center of mass" of a `period`-length SMA.
///
/// A period of zero counts as one. The factor is above zero and at most
/// one.
pub fn smoothing_from_period(period: u64) -> (r: Fraction)
    ensures
        r@ == smoothing_of_period(period),
        0 < r@ <= DIV,
{
    let p: u64 = if period >= 1 {
        period
    } else {
        1
    };
    let d: u128 = (p as u128).saturating_add(1);
    proof {
        lemma_smoothing_of_period(period);
    }
    frac(2, d)
}

/// The smoothing factor of any period is above zero and at most one, and a
/// longer period never has a larger one.
pub proof fn lemma_smoothing_of_period(period: u64)
    ensures
        0 < smoothing_of_period(period) <= DIV,
        forall|longer: u64| period <= longer ==> smoothing_of_period(longer) <= smoothing_of_period(period),
{
    let d: int = if period >= 1 {
        period + 1
    } else {
        2
    };
    lemma_part_of_whole(DIV as int, 2, d);
    vstd::arithmetic::mul::lemma_mul_is_commutative(2, DIV as int);
    crate::arith::lemma_div_bounds(2 * DIV, d);
    assert(2 * DIV / d > 0) by (nonlinear_arith)
        requires
            2 * DIV < (2 * DIV / d) * d + d,
            0 <= 2 * DIV / d,
            0 < d < 2 * DIV,
    ;
    assert forall|longer: u64| period <= longer implies smoothing_of_period(longer)
        <= smoothing_of_period(period) by {
        let e: int = if longer >= 1 {
            longer + 1
        } else {
            2
        };
        vstd::arithmetic::div_mod::lemma_div_is_ordered_by_denominator(2 * DIV, d, e);
    }
}

/// Calculate a weighted average for the given balances.
/// `prev` is the previous oracle value, `incoming` is the new value to integrate.
/// `weight` is how much weight to give the new value.
///
/// Note: Rounding is biased towards `prev`.
pub fn balance_weighted_average(prev: Balance, incoming: Balance, weight: Fraction) -> (r: Balance)
    requires
        weight.wf(),
    ensures
        r == balance_average(prev, incoming, weight),
        between(r as int, prev as int, incoming as int),
        incoming == prev ==> r == prev,
{
    if incoming >= prev {
        // Safe to use bare `+` because `weight <= 1` and `a + (b - a) <= b`.
        // Safe to use bare `-` because of the conditional.
        prev + multiply_by_balance(weight, incoming - prev)
    } else {
        // Safe to use bare `-` because `weight <= 1` and `a - (a - b) >= 0` and the conditional.
        prev - multiply_by_balance(weight, prev - incoming)
    }
}

/// Calculate a weighted average for the given volumes.
/// `prev` is the previous oracle value, `incoming` is the new value to integrate.
/// `weight` is how much weight to give the new value.
///
/// Note: Just delegates to `balance_weighted_average` under the hood.
/// Note: Rounding is biased towards `prev`.
pub fn volume_weighted_average(
    prev: (Balance, Balance, Balance, Balance),
    incoming: (Balance, Balance, Balance, Balance),
    weight: Fraction,
) -> (r: (Balance, Balance, Balance, Balance))
    requires
        weight.wf(),
    ensures
        (r.0 as int, r.1 as int, r.2 as int, r.3 as int) == volume_average(prev, incoming, weight),
        between(r.0 as int, prev.0 as int, incoming.0 as int),
        between(r.1 as int, prev.1 as int, incoming.1 as int),
        between(r.2 as int, prev.2 as int, incoming.2 as int),
        between(r.3 as int, prev.3 as int, incoming.3 as int),
        incoming == prev ==> r == prev,
{
    let (prev_a_in, prev_b_out, prev_a_out, prev_b_in) = prev;
    let (a_in, b_out, a_out, b_in) = incoming;
    (
        balance_weighted_average(prev_a_in, a_in, weight),
        balance_weighted_average(prev_b_out, b_out, weight),
        balance_weighted_average(prev_a_out, a_out, weight),
        balance_weighted_average(prev_b_in, b_in, weight),
    )
}

// Utility functions for working with rational numbers.

/// `l - r` as numerator and denominator, zero where `r` is the larger.
pub open spec fn rational_diff(l: Rational128, r: Rational128) -> (int, int) {
    if l.n == 0 || r.n == 0 {
        (l.n as int, l.d as int)
    } else if l.n * r.d >= r.n * l.d {
        (l.n * r.d - r.n * l.d, l.d * r.d)
    } else {
        (0, l.d * r.d)
    }
}

/// Subtract `r` from `l` and return a tuple of `U256` for full precision.
/// Saturates if `r >= l`.
pub fn saturating_sub(l: Rational128, r: Rational128) -> (out: (U256, U256))
    ensures
        (out.0@, out.1@) == rational_diff(l, r),
{
    if l.n() == 0 || r.n() == 0 {
        return (U256::from_u128(l.n()), U256::from_u128(l.d()));
    }
    // n = l.n * r.d - r.n * l.d
    let n = full_mul_u128(l.n(), r.d()).saturating_sub(full_mul_u128(r.n(), l.d()));
    // d = l.d * r.d
    let d = full_mul_u128(l.d(), r.d());
    (n, d)
}

/// The rational `r` times the fraction `f`, as numerator and denominator.
pub open spec fn scaled(f: Fraction, r: (int, int)) -> (int, int) {
    if f@ == 0 || r.0 == 0 {
        (0, 1)
    } else if f@ == DIV {
        r
    } else {
        (r.0 * f@, r.1 * DIV)
    }
}

/// Multiply a `Fraction` `f` with a rational number of `U256`s, returning a tuple of `U512`s for full
/// precision.
pub fn multiply(f: Fraction, r: (U256, U256)) -> (out: (U512, U512))
    requires
        f.wf(),
    ensures
        (out.0@, out.1@) == scaled(f, (r.0@, r.1@)),
{
    let (r_n, r_d) = r;
    if f.is_zero() || r_n.is_zero() {
        return (U512::zero(), U512::one());
    } else if f.is_one() {
        return (U512::from_u256(r_n), U512::from_u256(r_d));
    }
    // n = l.n * f.to_bits
    let n = r_n.full_mul(U256::from_u128(f.to_bits()));
    // d = l.d * DIV
    let d = r_d.full_mul(U256::from_u128(DIV));
    (n, d)
}

/// Enum to specify how to round a rational number.
/// `Nearest` rounds both numerator and denominator down.
/// `Down` ensures the output is less than or equal to the input.
/// `Up` ensures the output is greater than or equal to the input.
#[derive(Clone, Copy, Debug, Eq, PartialEq, Structural)]
pub enum Rounding {
    Nearest,
    Down,
    Up,
}

impl Rounding {
    /// What to add to numerator and denominator to round in this direction.
    pub open spec fn bias(self, magnitude: int) -> (int, int) {
        match self {
            Rounding::Nearest => (0, 0),
            Rounding::Down => (0, magnitude),
            Rounding::Up => (magnitude, 0),
        }
    }

    /// What to add to numerator and denominator to round in this direction:
    /// to the denominator to round down, to the numerator to round up.
    pub fn to_bias(self, magnitude: u128) -> (r: (u128, u128))
        ensures
            (r.0 as int, r.1 as int) == self.bias(magnitude as int),
    {
        match self {
            Rounding::Nearest => (0, 0),
            Rounding::Down => (0, magnitude),
            Rounding::Up => (magnitude, 0),
        }
    }
}

/// By how many bits the longer of `n` and `d` exceeds `keep` bits.
pub open spec fn excess_bits(n: int, d: int, keep: nat) -> nat {
    let longest = if bit_len(n) >= bit_len(d) {
        bit_len(n)
    } else {
        bit_len(d)
    };
    if longest > keep {
        (longest - keep) as nat
    } else {
        0
    }
}

/// The larger of two integers.
pub open spec fn larger(a: int, b: int) -> int {
    if a >= b {
        a
    } else {
        b
    }
}

/// The smaller of two integers.
pub open spec fn smaller(a: int, b: int) -> int {
    if a <= b {
        a
    } else {
        b
    }
}

/// The least numerator that stands for `n`: zero for zero, else one.
pub open spec fn least(n: int) -> int {
    if n == 0 {
        0
    } else {
        1
    }
}

/// `r` cut to at most 383 bits: see [`round`].
pub open spec fn rounded(r: (int, int), rounding: Rounding) -> (int, int) {
    let shift = excess_bits(r.0, r.1, 383);
    if shift > 0 {
        (
            larger(r.0 / (pow2(shift) as int) + rounding.bias(1).0, least(r.0)),
            larger(r.1 / (pow2(shift) as int) + rounding.bias(1).1, 1),
        )
    } else {
        r
    }
}

/// The longer of the two lengths in bits.
fn longest_bits(n: U512, d: U512) -> (r: usize)
    ensures
        r == (if bit_len(n@) >= bit_len(d@) {
            bit_len(n@)
        } else {
            bit_len(d@)
        }),
        r <= 512,
{
    let n_bits = n.bits();
    let d_bits = d.bits();
    if n_bits >= d_bits {
        n_bits
    } else {
        d_bits
    }
}

/// Reduce the precision of a 512 bit rational number to 383 bits.
/// The rounding is done by shifting which implicitly rounds down both numerator and denominator.
/// This can effectivly round the complete rational number up or down pseudo-randomly.
/// Specify `rounding` other than `Nearest` to round the whole number up or down.
///
/// A numerator that is not zero stays at least one, and so does the
/// denominator.
pub fn round(r: (U512, U512), rounding: Rounding) -> (out: (U512, U512))
    ensures
        (out.0@, out.1@) == rounded((r.0@, r.1@), rounding),
{
    let (n, d) = r;
    let shift = longest_bits(n, d).saturating_sub(383);  // anticipate the saturating_add
    if shift > 0 {
        let min_n = if n.is_zero() {
            U512::zero()
        } else {
            U512::one()
        };
        let (bias_n, bias_d) = rounding.to_bias(1);
        proof {
            lemma_rounded_bounds((n@, d@), rounding);
        }
        (
            n.shr(shift).saturating_add(U512::from_u128(bias_n)).max(min_n),
            d.shr(shift).saturating_add(U512::from_u128(bias_d)).max(U512::one()),
        )
    } else {
        (n, d)
    }
}

/// After cutting to 383 bits, both parts are at most 2^383, and a
/// denominator that was not zero is not zero.
pub proof fn lemma_rounded_bounds(r: (int, int), rounding: Rounding)
    requires
        0 <= r.0,
        0 <= r.1,
    ensures
        ({
            let shift = excess_bits(r.0, r.1, 383);
            &&& 0 <= r.0 / (pow2(shift) as int) < pow2(383)
            &&& 0 <= r.1 / (pow2(shift) as int) < pow2(383)
            &&& pow2(383) + 1 < pow2_512()
            &&& 0 <= rounded(r, rounding).0 <= pow2(383)
            &&& 0 <= rounded(r, rounding).1 <= pow2(383)
            &&& r.1 > 0 ==> rounded(r, rounding).1 > 0
            &&& r.0 > 0 ==> rounded(r, rounding).0 > 0
        }),
{
    let shift = excess_bits(r.0, r.1, 383);
    if shift > 0 {
        lemma_shifted_fits(r.0, 383, shift);
        lemma_shifted_fits(r.1, 383, shift);
    } else {
        lemma_below_pow2(r.0, 383);
        lemma_below_pow2(r.1, 383);
        vstd::arithmetic::power2::lemma2_to64();
    }
    lemma_pow2_383();
}

/// 2^383 is well below 2^512.
proof fn lemma_pow2_383()
    ensures
        pow2(383) * pow2_128() < pow2_512(),
        pow2(383) + 1 < pow2_512(),
        pow2(383) > 0,
{
    lemma_pow2_values();
    vstd::arithmetic::power2::lemma_pow2_adds(383, 128);
    vstd::arithmetic::power2::lemma_pow2_adds(256, 256);
    vstd::arithmetic::power2::lemma_pow2_strictly_increases(511, 512);
    vstd::arithmetic::power2::lemma_pow2_pos(383);
    assert(pow2(512) == pow2_256() * pow2_256());
    assert(pow2_256() * pow2_256() == pow2_512()) by (nonlinear_arith);
}

/// `r` cut to a rational of two 128-bit integers: see
/// [`round_to_rational`].
pub open spec fn rounded_to_rational(r: (int, int), rounding: Rounding) -> Rational128 {
    let shift = excess_bits(r.0, r.1, 128);
    if shift > 0 {
        Rational128 {
            n: larger(
                smaller(r.0 / (pow2(shift) as int) + rounding.bias(1).0, u128::MAX as int),
                least(r.0),
            ) as u128,
            d: larger(
                smaller(r.1 / (pow2(shift) as int) + rounding.bias(1).1, u128::MAX as int),
                1,
            ) as u128,
        }
    } else {
        Rational128 { n: r.0 as u128, d: larger(r.1, 1) as u128 }
    }
}

/// Round a 512 bit rational number to a 128 bit rational number.
/// The rounding is done by shifting which implicitly rounds down both numerator and denominator.
/// This can effectivly round the complete rational number up or down pseudo-randomly.
/// Specify `rounding` other than `Nearest` to round the whole number up or down.
pub fn round_to_rational(r: (U512, U512), rounding: Rounding) -> (out: Rational128)
    ensures
        out == rounded_to_rational((r.0@, r.1@), rounding),
        out.wf(),
{
    let (n, d) = r;
    let shift = longest_bits(n, d).saturating_sub(128);
    proof {
        lemma_pow2_values();
        if shift > 0 {
            lemma_shifted_fits(n@, 128, shift as nat);
            lemma_shifted_fits(d@, 128, shift as nat);
        } else {
            lemma_below_pow2(n@, 128);
            lemma_below_pow2(d@, 128);
        }
    }
    let (n, d) = if shift > 0 {
        let min_n: u128 = if n.is_zero() {
            0
        } else {
            1
        };
        let (bias_n, bias_d) = rounding.to_bias(1);
        let shifted_n = n.shr(shift).low_u128();
        let shifted_d = d.shr(shift).low_u128();
        proof {
            vstd::arithmetic::div_mod::lemma_small_mod(
                (n@ / (pow2(shift as nat) as int)) as nat,
                pow2_128() as nat,
            );
            vstd::arithmetic::div_mod::lemma_small_mod(
                (d@ / (pow2(shift as nat) as int)) as nat,
                pow2_128() as nat,
            );
        }
        let biased_n = shifted_n.saturating_add(bias_n);
        let biased_d = shifted_d.saturating_add(bias_d);
        (
            if biased_n >= min_n {
                biased_n
            } else {
                min_n
            },
            if biased_d >= 1 {
                biased_d
            } else {
                1
            },
        )
    } else {
        proof {
            vstd::arithmetic::div_mod::lemma_small_mod(n@ as nat, pow2_128() as nat);
            vstd::arithmetic::div_mod::lemma_small_mod(d@ as nat, pow2_128() as nat);
        }
        (n.low_u128(), d.low_u128())
    };
    Rational128::from(n, d)
}

/// `l + r`, rounded to two 128-bit integers: see [`rounding_add`].
pub open spec fn rounded_sum(l: Rational128, r: (int, int), rounding: Rounding) -> Rational128 {
    if l.n == 0 {
        rounded_to_rational(r, Rounding::Nearest)
    } else if r.0 == 0 {
        l
    } else {
        let (r_n, r_d) = rounded(r, rounding);
        rounded_to_rational((l.n * r_d + r_n * l.d, l.d * r_d), rounding)
    }
}

/// Add `l` and `r` and round the result to a 128 bit rational number.
/// The precision of `r` is reduced to 383 bits so the multiplications don't saturate.
pub fn rounding_add(l: Rational128, r: (U512, U512), rounding: Rounding) -> (out: Rational128)
    requires
        l.wf(),
    ensures
        out == rounded_sum(l, (r.0@, r.1@), rounding),
        out.wf(),
{
    let (r_n, r_d) = r;
    if l.n() == 0 {
        return round_to_rational((r_n, r_d), Rounding::Nearest);
    } else if r_n.is_zero() {
        return l;
    }
    let l_n = U512::from_u128(l.n());
    let l_d = U512::from_u128(l.d());
    let (r_n, r_d) = round((r_n, r_d), rounding);
    proof {
        lemma_rounded_bounds((r.0@, r.1@), rounding);
        lemma_pow2_383();
        lemma_mul_le(l.n as int, r_d@, pow2_128() - 1, pow2(383) as int);
        lemma_mul_le(r_n@, l.d as int, pow2(383) as int, pow2_128() - 1);
        lemma_mul_le(l.d as int, r_d@, pow2_128() - 1, pow2(383) as int);
        assert((pow2_128() - 1) * pow2(383) == pow2(383) * pow2_128() - pow2(383))
            by (nonlinear_arith);
        assert(pow2(383) * (pow2_128() - 1) == pow2(383) * pow2_128() - pow2(383))
            by (nonlinear_arith);
        assert(2 * (pow2(383) * pow2_128()) == pow2_512()) by {
            vstd::arithmetic::power2::lemma_pow2_adds(383, 128);
            vstd::arithmetic::power2::lemma_pow2_unfold(512);
            vstd::arithmetic::power2::lemma_pow2_adds(256, 256);
            lemma_pow2_values();
            assert(pow2_256() * pow2_256() == pow2_512()) by (nonlinear_arith);
        }
    }
    // n = l.n * r.d + r.n * l.d
    let n = l_n.saturating_mul(r_d).saturating_add(r_n.saturating_mul(l_d));
    // d = l.d * r.d
    let d = l_d.saturating_mul(r_d);
    round_to_rational((n, d), rounding)
}

/// `l - r`, not below zero, rounded to two 128-bit integers: see
/// [`rounding_sub`].
pub open spec fn rounded_difference(l: Rational128, r: (int, int), rounding: Rounding) -> Rational128 {
    if l.n == 0 || r.0 == 0 {
        l
    } else {
        let (r_n, r_d) = rounded(r, rounding);
        rounded_to_rational((larger(l.n * r_d - r_n * l.d, 0), l.d * r_d), rounding)
    }
}

/// Subract `l` and `r` (saturating) and round the result to a 128 bit rational number.
/// The precision of `r` is reduced to 383 bits so the multiplications don't saturate.
pub fn rounding_sub(l: Rational128, r: (U512, U512), rounding: Rounding) -> (out: Rational128)
    requires
        l.wf(),
    ensures
        out == rounded_difference(l, (r.0@, r.1@), rounding),
        out.wf(),
{
    let (r_n, r_d) = r;
    if l.n() == 0 || r_n.is_zero() {
        return l;
    }
    let l_n = U512::from_u128(l.n());
    let l_d = U512::from_u128(l.d());
    let (r_n, r_d) = round((r_n, r_d), rounding);
    proof {
        lemma_rounded_bounds((r.0@, r.1@), rounding);
        lemma_pow2_383();
        lemma_mul_le(l.n as int, r_d@, pow2_128() - 1, pow2(383) as int);
        lemma_mul_le(r_n@, l.d as int, pow2(383) as int, pow2_128() - 1);
        lemma_mul_le(l.d as int, r_d@, pow2_128() - 1, pow2(383) as int);
        assert((pow2_128() - 1) * pow2(383) == pow2(383) * pow2_128() - pow2(383))
            by (nonlinear_arith);
        assert(pow2(383) * (pow2_128() - 1) == pow2(383) * pow2_128() - pow2(383))
            by (nonlinear_arith);
    }
    // n = l.n * r.d - r.n * l.d
    let n = l_n.saturating_mul(r_d).saturating_sub(r_n.saturating_mul(l_d));
    // d = l.d * r.d
    let d = l_d.saturating_mul(r_d);
    round_to_rational((n, d), rounding)
}

/// The weighted average of two prices: see [`price_weighted_average`].
pub open spec fn price_average(prev: Price, incoming: Price, weight: Fraction) -> Price {
    if prev.le_value(incoming) {
        rounded_sum(prev, scaled(weight, rational_diff(incoming, prev)), Rounding::Down)
    } else {
        rounded_difference(prev, scaled(weight, rational_diff(prev, incoming)), Rounding::Up)
    }
}

/// The average of a price with a price of the same value has that value
/// again, whatever the weight.
pub proof fn lemma_price_average_stable(prev: Price, incoming: Price, weight: Fraction)
    requires
        prev.wf(),
        incoming.wf(),
        incoming.same_value(prev),
    ensures
        price_average(prev, incoming, weight).same_value(prev),
{
    assert(incoming.n == 0 <==> prev.n == 0) by (nonlinear_arith)
        requires
            incoming.n * prev.d == prev.n * incoming.d,
            prev.d > 0,
            incoming.d > 0,
    ;
    assert(rational_diff(incoming, prev).0 == 0);
    assert(scaled(weight, rational_diff(incoming, prev)) == (0int, 1int));
    assert(bit_len(0) == 0);
    assert(bit_len(1) == 1) by {
        reveal_with_fuel(bit_len, 3);
    }
    assert(excess_bits(0, 1, 128) == 0);
    assert(0 * prev.d == prev.n * 1 <==> prev.n == 0) by (nonlinear_arith);
}

/// Calculate a weighted average for the given prices.
/// `prev` is the previous oracle value, `incoming` is the new value to integrate.
/// `weight` is how much weight to give the new value.
///
/// Note: Rounding is biased towards `prev`.
///
/// Where `incoming` has the value of `prev`, so has the average.
pub fn price_weighted_average(prev: Price, incoming: Price, weight: Fraction) -> (r: Price)
    requires
        weight.wf(),
        prev.wf(),
        incoming.wf(),
    ensures
        r == price_average(prev, incoming, weight),
        r.wf(),
        incoming.same_value(prev) ==> r.same_value(prev),
{
    proof {
        if incoming.same_value(prev) {
            lemma_price_average_stable(prev, incoming, weight);
        }
    }
    if incoming.ge(prev) {
        rounding_add(prev, multiply(weight, saturating_sub(incoming, prev)), Rounding::Down)
    } else {
        rounding_sub(prev, multiply(weight, saturating_sub(prev, incoming)), Rounding::Up)
    }
}

} // verus!
