//! The moving averages with prices rounded at every step.
//!
//! Here a price average is formed either on 128-bit rationals, each result
//! cut back to 128 bits at once, or on rationals of 256-bit integers that
//! are cut to 128 bits wherever a product would not fit. Both cut by
//! shifting numerator and denominator alike, which rounds either way.

use crate::arith::lemma_pow2_values;
use crate::arith::lemma_shifted_fits;
use crate::ema::math::between;
use crate::ema::math::smoothing_after;
use crate::ema::math::volume_average;
use crate::ema::math::balance_average;
use crate::ema::math::excess_bits;
use crate::ema::math::larger;
use crate::fixed::Rational128;
use crate::fraction::Fraction;
use crate::fraction::DIV;
use crate::types::Balance;
use crate::wide::bit_len;
use crate::wide::full_mul_u128;
use crate::wide::pow2_128;
use crate::wide::pow2_256;
use crate::wide::U256;
use vstd::arithmetic::power2::pow2;
use vstd::prelude::*;

pub use crate::ema::math::smoothing_from_period;

verus! {

/// A price: hub asset per asset, as a rational number.
pub type Price = Rational128;

/// Calculate the iterated exponential moving average for the given prices.
/// `iterations` is the number of iterations of the EMA to calculate.
/// `prev` is the previous oracle value, `incoming` is the new value to integrate.
/// `smoothing` is the smoothing factor of the EMA.
pub fn iterated_price_ema(iterations: u32, prev: Price, incoming: Price, smoothing: Fraction) -> (r:
    Price)
    requires
        smoothing.wf(),
        prev.wf(),
        incoming.wf(),
    ensures
        r == price_average(
            prev,
            incoming,
            Fraction { bits: smoothing_after(smoothing, iterations as nat) as u128 },
        ),
        iterations == 1 ==> r == price_average(prev, incoming, smoothing),
        r.wf(),
{
    price_weighted_average(prev, incoming, exp_smoothing(smoothing, iterations))
}

/// The iterated moving average of prices, formed on 256-bit rationals.
pub fn iterated_price_ema_u256(
    iterations: u32,
    prev: Price,
    incoming: Price,
    smoothing: Fraction,
) -> (r: Price)
    requires
        smoothing.wf(),
        prev.wf(),
        incoming.wf(),
    ensures
        r == price_average_u256(
            prev,
            incoming,
            Fraction { bits: smoothing_after(smoothing, iterations as nat) as u128 },
        ),
        iterations == 1 ==> r == price_average_u256(prev, incoming, smoothing),
        r.wf(),
{
    price_weighted_average_u256(prev, incoming, exp_smoothing(smoothing, iterations))
}

/// Calculate the iterated exponential moving average for the given balances.
/// `iterations` is the number of iterations of the EMA to calculate.
/// `prev` is the previous oracle value, `incoming` is the new value to integrate.
/// `smoothing` is the smoothing factor of the EMA.
pub fn iterated_balance_ema(
    iterations: u32,
    prev: Balance,
    incoming: Balance,
    smoothing: Fraction,
) -> (r: Balance)
    requires
        smoothing.wf(),
    ensures
        r == balance_average(
            prev,
            incoming,
            Fraction { bits: smoothing_after(smoothing, iterations as nat) as u128 },
        ),
        iterations == 1 ==> r == balance_average(prev, incoming, smoothing),
        between(r as int, prev as int, incoming as int),
{
    balance_weighted_average(prev, incoming, exp_smoothing(smoothing, iterations))
}

/// Calculate the iterated exponential moving average for the given volumes.
/// `iterations` is the number of iterations of the EMA to calculate.
/// `prev` is the previous oracle value, `incoming` is the new value to integrate.
/// `smoothing` is the smoothing factor of the EMA.
pub fn iterated_volume_ema(
    iterations: u32,
    prev: (Balance, Balance, Balance, Balance),
    incoming: (Balance, Balance, Balance, Balance),
    smoothing: Fraction,
) -> (r: (Balance, Balance, Balance, Balance))
    requires
        smoothing.wf(),
    ensures
        (r.0 as int, r.1 as int, r.2 as int, r.3 as int) == volume_average(
            prev,
            incoming,
            Fraction { bits: smoothing_after(smoothing, iterations as nat) as u128 },
        ),
        iterations == 1 ==> (r.0 as int, r.1 as int, r.2 as int, r.3 as int) == volume_average(
            prev,
            incoming,
            smoothing,
        ),
{
    volume_weighted_average(prev, incoming, exp_smoothing(smoothing, iterations))
}

/// Calculate the smoothing factor for a number of iterations from the smoothing factor of one
/// iteration, by exponentiating the complement by the iterations.
///
/// Example:
/// `exp_smoothing(0.6, 2) = 1 - (1 - 0.6)^2 = 1 - 0.40^2 = 1 - 0.16 = 0.84`
pub fn exp_smoothing(smoothing: Fraction, iterations: u32) -> (r: Fraction)
    requires
        smoothing.wf(),
    ensures
        r@ == smoothing_after(smoothing, iterations as nat),
        r.wf(),
        iterations == 1 ==> r == smoothing,
        iterations >= 1 ==> r@ >= smoothing@,
{
    crate::ema::math::exp_smoothing(smoothing, iterations)
}

/// The weighted average of two prices, each step cut to 128 bits: see
/// [`price_weighted_average`].
pub open spec fn price_average(prev: Price, incoming: Price, weight: Fraction) -> Price {
    if prev.le_value(incoming) {
        rational_sum(prev, rational_times(weight, rational_minus(incoming, prev)))
    } else {
        rational_minus(prev, rational_times(weight, rational_minus(prev, incoming)))
    }
}

/// Calculate a weighted average for the given prices.
/// `prev` is the previous oracle value, `incoming` is the new value to integrate.
/// `weight` is how much weight to give the new value.
///
/// Note: Rounding is slightly biased towards `prev`.
pub fn price_weighted_average(prev: Price, incoming: Price, weight: Fraction) -> (r: Price)
    requires
        weight.wf(),
        prev.wf(),
        incoming.wf(),
    ensures
        r == price_average(prev, incoming, weight),
        r.wf(),
{
    if incoming.ge(prev) {
        rounding_add(prev, multiply_by_rational(weight, rounding_sub(incoming, prev)))
    } else {
        rounding_sub(prev, multiply_by_rational(weight, rounding_sub(prev, incoming)))
    }
}

/// The weighted average of two prices, formed on 256-bit rationals: see
/// [`price_weighted_average_u256`].
pub open spec fn price_average_u256(prev: Price, incoming: Price, weight: Fraction) -> Price {
    let p = (prev.n as int, prev.d as int);
    let i = (incoming.n as int, incoming.d as int);
    if prev.le_value(incoming) {
        shortened_rational(plus(p, times(weight, minus(i, p))))
    } else {
        shortened_rational(minus(p, times(weight, minus(p, i))))
    }
}

/// The weighted average of two prices, formed on rationals of 256-bit
/// integers and cut to 128 bits at the end.
pub fn price_weighted_average_u256(prev: Price, incoming: Price, weight: Fraction) -> (r: Price)
    requires
        weight.wf(),
        prev.wf(),
        incoming.wf(),
    ensures
        r == price_average_u256(prev, incoming, weight),
        r.wf(),
{
    let prev_u256 = (U256::from_u128(prev.n()), U256::from_u128(prev.d()));
    let incoming_u256 = (U256::from_u128(incoming.n()), U256::from_u128(incoming.d()));
    if incoming.ge(prev) {
        rounded_to_rational(
            self::add(prev_u256, self::mul(weight, self::sub(incoming_u256, prev_u256))),
        )
    } else {
        rounded_to_rational(
            self::sub(prev_u256, self::mul(weight, self::sub(prev_u256, incoming_u256))),
        )
    }
}

/// Calculate a weighted average for the given balances.
/// `prev` is the previous oracle value, `incoming` is the new value to integrate.
/// `weight` is how much weight to give the new value.
///
/// Note: Rounding is biased towards `prev`.
pub fn balance_weighted_average(prev: Balance, incoming: Balance, weight: Fraction) -> (r: Balance)
    requires
        weight.wf(),
    ensures
        r == balance_average(prev, incoming, weight),
        between(r as int, prev as int, incoming as int),
        incoming == prev ==> r == prev,
{
    crate::ema::math::balance_weighted_average(prev, incoming, weight)
}

/// Calculate a weighted average for the given volumes.
/// `prev` is the previous oracle value, `incoming` is the new value to integrate.
/// `weight` is how much weight to give the new value.
///
/// Note: Just delegates to `balance_weighted_average` under the hood.
/// Note: Rounding is biased towards `prev`.
pub fn volume_weighted_average(
    prev: (Balance, Balance, Balance, Balance),
    incoming: (Balance, Balance, Balance, Balance),
    weight: Fraction,
) -> (r: (Balance, Balance, Balance, Balance))
    requires
        weight.wf(),
    ensures
        (r.0 as int, r.1 as int, r.2 as int, r.3 as int) == volume_average(prev, incoming, weight),
        incoming == prev ==> r == prev,
{
    let (prev_a_in, prev_b_out, prev_a_out, prev_b_in) = prev;
    let (a_in, b_out, a_out, b_in) = incoming;
    (
        balance_weighted_average(prev_a_in, a_in, weight),
        balance_weighted_average(prev_b_out, b_out, weight),
        balance_weighted_average(prev_a_out, a_out, weight),
        balance_weighted_average(prev_b_in, b_in, weight),
    )
}

/// A product in 256 bits that stops at the largest value.
pub open spec fn sat_mul(a: int, b: int) -> int {
    if a * b < pow2_256() {
        a * b
    } else {
        pow2_256() - 1
    }
}

/// A sum in 256 bits that stops at the largest value.
pub open spec fn sat_add(a: int, b: int) -> int {
    if a + b < pow2_256() {
        a + b
    } else {
        pow2_256() - 1
    }
}

/// Numerator and denominator cut alike to at most 128 bits.
pub open spec fn shortened(r: (int, int)) -> (int, int) {
    let shift = excess_bits(r.0, r.1, 128);
    (r.0 / (pow2(shift) as int), r.1 / (pow2(shift) as int))
}

/// Whether two factors may give a product of more than `limit` bits.
pub open spec fn too_long(a: int, b: int, limit: nat) -> bool {
    bit_len(a) + bit_len(b) > limit
}

/// The rational `r` times the fraction `f`: see [`mul`].
pub open spec fn times(f: Fraction, r: (int, int)) -> (int, int) {
    let (n, d) = if too_long(f@, r.0, 256) || too_long(DIV as int, r.1, 256) {
        shortened(r)
    } else {
        r
    };
    (sat_mul(f@, n), sat_mul(DIV as int, d))
}

/// The sum of the lengths of two numbers in bits.
fn bits_sum(a: U256, b: U256) -> (r: usize)
    ensures
        r == bit_len(a@) + bit_len(b@),
        r <= 512,
{
    a.bits() + b.bits()
}

/// The rational `(n, d)` times the fraction `f`. Where a product would not
/// fit in 256 bits, the rational is cut to 128 bits first.
pub fn mul(f: Fraction, r: (U256, U256)) -> (out: (U256, U256))
    requires
        f.wf(),
    ensures
        (out.0@, out.1@) == times(f, (r.0@, r.1@)),
{
    let (n, d) = r;
    let f_n = U256::from_u128(f.to_bits());
    let f_d = U256::from_u128(DIV);
    let (n, d) = if bits_sum(f_n, n) > 256 || bits_sum(f_d, d) > 256 {
        round((n, d))
    } else {
        (n, d)
    };
    (f_n.saturating_mul(n), f_d.saturating_mul(d))
}

/// The difference of two rationals, not below zero: see [`sub`].
pub open spec fn minus(l: (int, int), r: (int, int)) -> (int, int) {
    let (l, r) = if too_long(l.0, r.1, 256) || too_long(r.0, l.1, 256) || too_long(l.1, r.1, 256) {
        (shortened(l), shortened(r))
    } else {
        (l, r)
    };
    (larger(sat_mul(l.0, r.1) - sat_mul(r.0, l.1), 0), sat_mul(l.1, r.1))
}

/// The difference of two rationals by cross multiplication, zero where the
/// second is the larger. Where a product would not fit in 256 bits, both
/// are cut to 128 bits first.
pub fn sub(l: (U256, U256), r: (U256, U256)) -> (out: (U256, U256))
    ensures
        (out.0@, out.1@) == minus((l.0@, l.1@), (r.0@, r.1@)),
{
    let (l_n, l_d) = l;
    let (r_n, r_d) = r;
    // check for overflow on multiplication, if so round the rational numbers
    let ((l_n, l_d), (r_n, r_d)) = if bits_sum(l_n, r_d) > 256 || bits_sum(r_n, l_d) > 256
        || bits_sum(l_d, r_d) > 256 {
        (round((l_n, l_d)), round((r_n, r_d)))
    } else {
        ((l_n, l_d), (r_n, r_d))
    };
    (l_n.saturating_mul(r_d).saturating_sub(r_n.saturating_mul(l_d)), l_d.saturating_mul(r_d))
}

/// The sum of two rationals: see [`add`].
pub open spec fn plus(l: (int, int), r: (int, int)) -> (int, int) {
    let (l, r) = if too_long(l.0, r.1, 255) || too_long(r.0, l.1, 255) || too_long(l.1, r.1, 256) {
        (shortened(l), shortened(r))
    } else {
        (l, r)
    };
    (sat_add(sat_mul(l.0, r.1), sat_mul(r.0, l.1)), sat_mul(l.1, r.1))
}

/// The sum of two rationals by cross multiplication. Where a product or the
/// sum would not fit in 256 bits, both are cut to 128 bits first.
pub fn add(l: (U256, U256), r: (U256, U256)) -> (out: (U256, U256))
    ensures
        (out.0@, out.1@) == plus((l.0@, l.1@), (r.0@, r.1@)),
{
    let (l_n, l_d) = l;
    let (r_n, r_d) = r;
    // check for overflow on multiplication and add, if so round the rational numbers
    let ((l_n, l_d), (r_n, r_d)) = if bits_sum(l_n, r_d) + 1 > 256 || bits_sum(r_n, l_d) + 1 > 256
        || bits_sum(l_d, r_d) > 256 {
        (round((l_n, l_d)), round((r_n, r_d)))
    } else {
        ((l_n, l_d), (r_n, r_d))
    };
    (l_n.saturating_mul(r_d).saturating_add(r_n.saturating_mul(l_d)), l_d.saturating_mul(r_d))
}

/// By how many bits to shift so that both parts fit in 128 bits.
fn excess_over_128(n: U256, d: U256) -> (r: usize)
    ensures
        r == excess_bits(n@, d@, 128),
        0 <= n@ / (pow2(r as nat) as int) <= u128::MAX,
        0 <= d@ / (pow2(r as nat) as int) <= u128::MAX,
{
    let n_bits = n.bits();
    let d_bits = d.bits();
    let longest = if n_bits >= d_bits {
        n_bits
    } else {
        d_bits
    };
    let shift = longest.saturating_sub(128);
    proof {
        lemma_pow2_values();
        lemma_shifted_fits(n@, 128, shift as nat);
        lemma_shifted_fits(d@, 128, shift as nat);
    }
    shift
}

/// Cut numerator and denominator alike to at most 128 bits.
pub fn round(r: (U256, U256)) -> (out: (U256, U256))
    ensures
        (out.0@, out.1@) == shortened((r.0@, r.1@)),
{
    let (n, d) = r;
    let shift = excess_over_128(n, d);
    (n.shr(shift), d.shr(shift))
}

/// `r` cut to a rational of two 128-bit integers: see
/// [`rounded_to_rational`].
pub open spec fn shortened_rational(r: (int, int)) -> Rational128 {
    Rational128 { n: shortened(r).0 as u128, d: larger(shortened(r).1, 1) as u128 }
}

/// Cut a rational of 256-bit integers to one of 128-bit integers. A
/// denominator that comes out as zero becomes one.
pub fn rounded_to_rational(r: (U256, U256)) -> (out: Rational128)
    ensures
        out == shortened_rational((r.0@, r.1@)),
        out.wf(),
{
    let (n, d) = r;
    let shift = excess_over_128(n, d);
    proof {
        vstd::arithmetic::div_mod::lemma_small_mod(
            (n@ / (pow2(shift as nat) as int)) as nat,
            pow2_128() as nat,
        );
        vstd::arithmetic::div_mod::lemma_small_mod(
            (d@ / (pow2(shift as nat) as int)) as nat,
            pow2_128() as nat,
        );
    }
    Rational128::from(n.shr(shift).low_u128(), d.shr(shift).low_u128())
}

/// The rational `r` times the fraction `f`, cut to 128 bits: see
/// [`multiply_by_rational`].
pub open spec fn rational_times(f: Fraction, r: Rational128) -> Rational128 {
    shortened_rational((r.n * f@, r.d * DIV))
}

/// Multiply a rational by a fraction and cut the result to 128 bits.
pub fn multiply_by_rational(f: Fraction, r: Rational128) -> (out: Rational128)
    requires
        f.wf(),
    ensures
        out == rational_times(f, r),
        out.wf(),
{
    let n = full_mul_u128(r.n(), f.to_bits());
    let d = full_mul_u128(r.d(), DIV);
    rounded_to_rational((n, d))
}

/// The sum of two rationals, cut to 128 bits: see [`rounding_add`].
pub open spec fn rational_sum(l: Rational128, r: Rational128) -> Rational128 {
    shortened_rational((sat_add(l.n * r.d, r.n * l.d), l.d * r.d))
}

/// Add two rationals by cross multiplication and cut the result to 128 bits.
pub fn rounding_add(l: Rational128, r: Rational128) -> (out: Rational128)
    ensures
        out == rational_sum(l, r),
        out.wf(),
{
    let d = full_mul_u128(l.d(), r.d());
    let n = full_mul_u128(l.n(), r.d()).saturating_add(full_mul_u128(r.n(), l.d()));
    rounded_to_rational((n, d))
}

/// The difference of two rationals, not below zero, cut to 128 bits: see
/// [`rounding_sub`].
pub open spec fn rational_minus(l: Rational128, r: Rational128) -> Rational128 {
    shortened_rational((larger(l.n * r.d - r.n * l.d, 0), l.d * r.d))
}

/// Subtract two rationals by cross multiplication, stopping at zero, and cut
/// the result to 128 bits.
pub fn rounding_sub(l: Rational128, r: Rational128) -> (out: Rational128)
    ensures
        out == rational_minus(l, r),
        out.wf(),
{
    let d = full_mul_u128(l.d(), r.d());
    let n = full_mul_u128(l.n(), r.d()).saturating_sub(full_mul_u128(r.n(), l.d()));
    rounded_to_rational((n, d))
}

} // verus!
