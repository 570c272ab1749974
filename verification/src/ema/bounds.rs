//! How far the average of two prices can be from the prices.
//!
//! A price average is rounded once: the step towards the incoming price is
//! exact, and the sum is cut to 128 bits, down where the price rises and up
//! where it falls. The average lies between the two prices just where the
//! cut moves the uncut average back by no more than the step and on by no
//! more than the rest of the distance: [`lemma_price_average_between`] and
//! [`lemma_average_lies_between_exactly`].
//!
//! The other lemmas give conditions on the prices and the weight that are
//! enough for one side or for both. The cut is towards the previous price,
//! so the average does not pass the incoming price unless the cut has to
//! raise a part to its least value or stop it at the largest; and it does
//! not fall short of the previous price where the step outweighs what the
//! cut can take away.

use crate::arith::lemma_below_pow2;
use crate::arith::lemma_bit_len_le;
use crate::arith::lemma_div_bounds;
use crate::arith::lemma_pow2_values;
use crate::arith::lemma_shifted_fits;
use crate::ema::math::excess_bits;
use crate::ema::math::larger;
use crate::ema::math::least;
use crate::ema::math::price_average;
use crate::ema::math::rational_diff;
use crate::ema::math::rounded;
use crate::ema::math::rounded_to_rational;
use crate::ema::math::scaled;
use crate::ema::math::Price;
use crate::ema::math::Rounding;
use crate::fraction::Fraction;
use crate::fraction::DIV;
use crate::wide::bit_len;
use crate::wide::lemma_mul_le;
use crate::wide::pow2_128;
use crate::wide::pow2_256;
use vstd::arithmetic::power2::pow2;
use vstd::prelude::*;

verus! {

/// Whether the rational `a_n / a_d` is at most `b_n / b_d`.
pub open spec fn ratio_le(a: (int, int), b: (int, int)) -> bool {
    a.0 * b.1 <= b.0 * a.1
}

/// The order of rationals with positive denominators is transitive.
pub proof fn lemma_ratio_le_transitive(a: (int, int), b: (int, int), c: (int, int))
    requires
        0 < a.1,
        0 < b.1,
        0 < c.1,
        0 <= a.0,
        0 <= b.0,
        0 <= c.0,
        ratio_le(a, b),
        ratio_le(b, c),
    ensures
        ratio_le(a, c),
{
    assert((a.0 * c.1) * b.1 <= (c.0 * a.1) * b.1) by (nonlinear_arith)
        requires
            a.0 * b.1 <= b.0 * a.1,
            b.0 * c.1 <= c.0 * b.1,
            0 < a.1,
            0 < c.1,
            0 <= a.0,
            0 <= b.0,
    ;
    assert(a.0 * c.1 <= c.0 * a.1) by (nonlinear_arith)
        requires
            (a.0 * c.1) * b.1 <= (c.0 * a.1) * b.1,
            0 < b.1,
    ;
}

/// Whether cutting `r` to 128 bits leaves both parts as the shift and the
/// bias give them: the numerator is not raised to its least value, the
/// denominator is not raised to one, and neither is stopped at the largest
/// value.
pub open spec fn cut_is_plain(r: (int, int), rounding: Rounding) -> bool {
    let shift = excess_bits(r.0, r.1, 128);
    shift > 0 ==> {
        &&& least(r.0) <= r.0 / (pow2(shift) as int) + rounding.bias(1).0 <= u128::MAX
        &&& 1 <= r.1 / (pow2(shift) as int) + rounding.bias(1).1 <= u128::MAX
    }
}

/// A plain cut downwards gives no more than there was.
pub proof fn lemma_cut_down(r: (int, int))
    requires
        0 <= r.0,
        0 < r.1,
        cut_is_plain(r, Rounding::Down),
    ensures
        ratio_le(
            (
                rounded_to_rational(r, Rounding::Down).n as int,
                rounded_to_rational(r, Rounding::Down).d as int,
            ),
            r,
        ),
        rounded_to_rational(r, Rounding::Down).d > 0,
{
    let shift = excess_bits(r.0, r.1, 128);
    lemma_pow2_values();
    if shift > 0 {
        lemma_shifted_fits(r.0, 128, shift);
        lemma_shifted_fits(r.1, 128, shift);
        vstd::arithmetic::power2::lemma_pow2_pos(shift);
        let p = pow2(shift) as int;
        let q_n = r.0 / p;
        let q_d = r.1 / p;
        lemma_div_bounds(r.0, p);
        lemma_div_bounds(r.1, p);
        assert(q_n * r.1 <= r.0 * (q_d + 1)) by (nonlinear_arith)
            requires
                q_n * p <= r.0,
                r.1 < q_d * p + p,
                0 <= q_n,
                0 <= q_d,
                0 < p,
                0 <= r.0,
        ;
    } else {
        lemma_below_pow2(r.0, 128);
        lemma_below_pow2(r.1, 128);
    }
}

/// A plain cut upwards gives no less than there was.
pub proof fn lemma_cut_up(r: (int, int))
    requires
        0 <= r.0,
        0 < r.1,
        cut_is_plain(r, Rounding::Up),
    ensures
        ratio_le(
            r,
            (
                rounded_to_rational(r, Rounding::Up).n as int,
                rounded_to_rational(r, Rounding::Up).d as int,
            ),
        ),
        rounded_to_rational(r, Rounding::Up).d > 0,
{
    let shift = excess_bits(r.0, r.1, 128);
    lemma_pow2_values();
    if shift > 0 {
        lemma_shifted_fits(r.0, 128, shift);
        lemma_shifted_fits(r.1, 128, shift);
        vstd::arithmetic::power2::lemma_pow2_pos(shift);
        let p = pow2(shift) as int;
        let q_n = r.0 / p;
        let q_d = r.1 / p;
        lemma_div_bounds(r.0, p);
        lemma_div_bounds(r.1, p);
        assert(r.0 * q_d <= (q_n + 1) * r.1) by (nonlinear_arith)
            requires
                r.0 < q_n * p + p,
                q_d * p <= r.1,
                0 <= q_n,
                0 <= q_d,
                0 < p,
                0 <= r.0,
        ;
    } else {
        lemma_below_pow2(r.0, 128);
        lemma_below_pow2(r.1, 128);
    }
}

/// The step from `from` towards `to`, for `to` the larger: the weight times
/// their distance. It is not cut to 383 bits, for it has no more.
pub proof fn lemma_step_is_exact(from: Price, to: Price, weight: Fraction, rounding: Rounding)
    requires
        from.wf(),
        to.wf(),
        weight.wf(),
    ensures
        rounded(scaled(weight, rational_diff(to, from)), rounding) == scaled(
            weight,
            rational_diff(to, from),
        ),
        0 <= scaled(weight, rational_diff(to, from)).0,
        0 < scaled(weight, rational_diff(to, from)).1,
{
    let diff = rational_diff(to, from);
    let step = scaled(weight, diff);
    lemma_pow2_values();
    lemma_mul_le(to.n as int, from.d as int, pow2_128() - 1, pow2_128() - 1);
    lemma_mul_le(from.n as int, to.d as int, pow2_128() - 1, pow2_128() - 1);
    lemma_mul_le(to.d as int, from.d as int, pow2_128() - 1, pow2_128() - 1);
    assert((pow2_128() - 1) * (pow2_128() - 1) < pow2_256()) by (nonlinear_arith);
    assert(0 <= diff.0 < pow2_256());
    assert(0 < diff.1 < pow2_256()) by {
        assert(0 < to.d * from.d) by (nonlinear_arith)
            requires
                to.d > 0,
                from.d > 0,
        ;
    }
    lemma_mul_le(diff.0, weight@, pow2_256() - 1, DIV as int);
    lemma_mul_le(diff.1, DIV as int, pow2_256() - 1, DIV as int);
    vstd::arithmetic::power2::lemma_pow2_adds(256, 127);
    assert((pow2_256() - 1) * DIV < pow2_256() * DIV) by (nonlinear_arith);
    assert(pow2(383) == pow2_256() * DIV);
    assert(0 < diff.1 * DIV) by (nonlinear_arith)
        requires
            0 < diff.1,
    ;
    vstd::arithmetic::power2::lemma_pow2_strictly_increases(256, 383);
    vstd::arithmetic::power2::lemma_pow2_strictly_increases(0, 383);
    vstd::arithmetic::power2::lemma2_to64();
    lemma_bit_len_le(step.0, 383);
    lemma_bit_len_le(step.1, 383);
}

/// The sum or difference that the average is cut from: `prev` and the step
/// towards `incoming`, brought to one denominator.
pub open spec fn uncut_average(prev: Price, incoming: Price, weight: Fraction) -> (int, int) {
    if prev.le_value(incoming) {
        let step = scaled(weight, rational_diff(incoming, prev));
        (prev.n * step.1 + step.0 * prev.d, prev.d * step.1)
    } else {
        let step = scaled(weight, rational_diff(prev, incoming));
        (larger(prev.n * step.1 - step.0 * prev.d, 0), prev.d * step.1)
    }
}

/// Whether the average is found by a plain cut of [`uncut_average`]: always
/// where the previous price is zero or the step is, for then the sum is not
/// formed at all.
pub open spec fn average_is_plain(prev: Price, incoming: Price, weight: Fraction) -> bool {
    if prev.le_value(incoming) {
        prev.n == 0 || scaled(weight, rational_diff(incoming, prev)).0 == 0 || cut_is_plain(
            uncut_average(prev, incoming, weight),
            Rounding::Down,
        )
    } else {
        scaled(weight, rational_diff(prev, incoming)).0 == 0 || cut_is_plain(
            uncut_average(prev, incoming, weight),
            Rounding::Up,
        )
    }
}

/// With `x = a * d - c * b` and `y = b * d`:
/// `a * (d * (y * k)) - (c * (y * k) + (x * w) * d) * b == x * y * (k - w)`.
proof fn lemma_rise_identity(a: int, b: int, c: int, d: int, w: int, k: int)
    ensures
        ({
            let x = a * d - c * b;
            let y = b * d;
            a * (d * (y * k)) - (c * (y * k) + (x * w) * d) * b == x * y * (k - w)
        }),
{
    let x = a * d - c * b;
    let y = b * d;
    let t = y * k;
    let ad = a * d;
    let cb = c * b;
    let xw = x * w;
    assert(a * (d * t) == ad * t) by (nonlinear_arith)
        requires
            ad == a * d,
    ;
    assert((c * t + xw * d) * b == cb * t + xw * y) by (nonlinear_arith)
        requires
            cb == c * b,
            y == b * d,
    ;
    assert(ad * t - cb * t == x * t) by (nonlinear_arith)
        requires
            x == ad - cb,
    ;
    assert(x * t == (x * y) * k) by (nonlinear_arith)
        requires
            t == y * k,
    ;
    assert(xw * y == (x * y) * w) by (nonlinear_arith)
        requires
            xw == x * w,
    ;
    assert((x * y) * k - (x * y) * w == x * y * (k - w)) by (nonlinear_arith);
}

/// With `x = c * b - a * d` and `y = d * b`:
/// `(c * (y * k) - (x * w) * d) * b - a * (d * (y * k)) == x * y * (k - w)`.
proof fn lemma_fall_identity(a: int, b: int, c: int, d: int, w: int, k: int)
    ensures
        ({
            let x = c * b - a * d;
            let y = d * b;
            (c * (y * k) - (x * w) * d) * b - a * (d * (y * k)) == x * y * (k - w)
        }),
{
    let x = c * b - a * d;
    let y = d * b;
    let t = y * k;
    let ad = a * d;
    let cb = c * b;
    let xw = x * w;
    assert(a * (d * t) == ad * t) by (nonlinear_arith)
        requires
            ad == a * d,
    ;
    assert((c * t - xw * d) * b == cb * t - xw * y) by (nonlinear_arith)
        requires
            cb == c * b,
            y == d * b,
    ;
    assert(cb * t - ad * t == x * t) by (nonlinear_arith)
        requires
            x == cb - ad,
    ;
    assert(x * t == (x * y) * k) by (nonlinear_arith)
        requires
            t == y * k,
    ;
    assert(xw * y == (x * y) * w) by (nonlinear_arith)
        requires
            xw == x * w,
    ;
    assert((x * y) * k - (x * y) * w == x * y * (k - w)) by (nonlinear_arith);
}

/// A step of at most the whole distance leaves the falling price at zero or
/// above: with `0 <= x <= c * b`, `0 <= w <= k` and `y = d * b`,
/// `(x * w) * d <= c * (y * k)`.
proof fn lemma_fall_stays_positive(b: int, c: int, d: int, w: int, k: int, x: int)
    requires
        0 <= x <= c * b,
        0 <= w <= k,
        0 <= d,
    ensures
        (x * w) * d <= c * ((d * b) * k),
{
    let cb = c * b;
    lemma_mul_le(x, w, cb, k);
    assert((x * w) * d <= (cb * k) * d) by (nonlinear_arith)
        requires
            x * w <= cb * k,
            0 <= d,
    ;
    assert((cb * k) * d == c * ((d * b) * k)) by (nonlinear_arith)
        requires
            cb == c * b,
    ;
}

/// Before it is cut, a rising average is at most the incoming price, and a
/// falling one at least.
pub proof fn lemma_uncut_average(prev: Price, incoming: Price, weight: Fraction)
    requires
        prev.wf(),
        incoming.wf(),
        weight.wf(),
        prev.n != 0,
        incoming.n != 0,
    ensures
        0 <= uncut_average(prev, incoming, weight).0,
        0 < uncut_average(prev, incoming, weight).1,
        prev.le_value(incoming) ==> ratio_le(
            uncut_average(prev, incoming, weight),
            (incoming.n as int, incoming.d as int),
        ),
        !prev.le_value(incoming) ==> ratio_le(
            (incoming.n as int, incoming.d as int),
            uncut_average(prev, incoming, weight),
        ),
        !prev.le_value(incoming) ==> uncut_average(prev, incoming, weight).0 == ({
            let step = scaled(weight, rational_diff(prev, incoming));
            prev.n * step.1 - step.0 * prev.d
        }),
{
    let w = weight@;
    let div = DIV as int;
    let pn = prev.n as int;
    let pd = prev.d as int;
    let i_n = incoming.n as int;
    let id = incoming.d as int;
    if prev.le_value(incoming) {
        let x = i_n * pd - pn * id;
        let y = id * pd;
        assert(rational_diff(incoming, prev) == (x, y));
        assert(0 < y) by (nonlinear_arith)
            requires
                y == id * pd,
                0 < id,
                0 < pd,
        ;
        let step = scaled(weight, (x, y));
        if w == 0 || x == 0 {
            assert(step == (0int, 1int));
            assert(pn * 1 + 0 * pd == pn && pd * 1 == pd) by (nonlinear_arith);
        } else if w == div {
            assert((pn * y + x * pd) * id == i_n * (pd * y)) by (nonlinear_arith)
                requires
                    x == i_n * pd - pn * id,
                    y == id * pd,
            ;
            assert(0 <= pn * y + x * pd && 0 < pd * y) by (nonlinear_arith)
                requires
                    0 <= x,
                    0 < y,
                    0 < pd,
                    0 <= pn,
            ;
        } else {
            assert(step == (x * w, y * div));
            lemma_rise_identity(i_n, id, pn, pd, w, div);
            assert(0 <= x * y * (div - w)) by (nonlinear_arith)
                requires
                    0 <= x,
                    0 < y,
                    0 <= div - w,
            ;
            assert(0 <= pn * (y * div) + (x * w) * pd && 0 < pd * (y * div)) by (nonlinear_arith)
                requires
                    0 <= x,
                    0 < y,
                    0 < pd,
                    0 <= pn,
                    0 <= w,
                    0 < div,
            ;
        }
    } else {
        let x = pn * id - i_n * pd;
        let y = pd * id;
        assert(rational_diff(prev, incoming) == (x, y));
        assert(0 < y) by (nonlinear_arith)
            requires
                y == pd * id,
                0 < id,
                0 < pd,
        ;
        let step = scaled(weight, (x, y));
        if w == 0 {
            assert(step == (0int, 1int));
            assert(pn * 1 - 0 * pd == pn && pd * 1 == pd) by (nonlinear_arith);
        } else if w == div {
            assert((pn * y - x * pd) * id == i_n * (pd * y)) by (nonlinear_arith)
                requires
                    x == pn * id - i_n * pd,
                    y == pd * id,
            ;
            assert(pn * y - x * pd == i_n * pd * pd) by (nonlinear_arith)
                requires
                    x == pn * id - i_n * pd,
                    y == pd * id,
            ;
            assert(0 <= i_n * pd * pd && 0 < pd * y) by (nonlinear_arith)
                requires
                    0 < y,
                    0 < pd,
                    0 <= i_n,
            ;
        } else {
            assert(step == (x * w, y * div));
            lemma_fall_identity(i_n, id, pn, pd, w, div);
            assert(0 <= x * y * (div - w)) by (nonlinear_arith)
                requires
                    0 <= x,
                    0 < y,
                    0 <= div - w,
            ;
            assert(x <= pn * id) by (nonlinear_arith)
                requires
                    x == pn * id - i_n * pd,
                    0 <= i_n,
                    0 <= pd,
            ;
            lemma_fall_stays_positive(id, pn, pd, w, div, x);
            assert(0 < pd * (y * div)) by (nonlinear_arith)
                requires
                    0 < y,
                    0 < pd,
                    0 < div,
            ;
        }
    }
}

/// From a price of zero the average rises to the weight's share of the
/// incoming price, cut to 128 bits in numerator and denominator alike. The
/// cut never brings it above the incoming price.
pub proof fn lemma_average_from_zero(incoming: Price, weight: Fraction)
    requires
        incoming.wf(),
        weight.wf(),
    ensures
        rounded_to_rational(
            scaled(weight, (incoming.n as int, incoming.d as int)),
            Rounding::Nearest,
        ).le_value(incoming),
{
    let w = weight@;
    let div = DIV as int;
    let i_n = incoming.n as int;
    let id = incoming.d as int;
    let step = scaled(weight, (i_n, id));
    let out = rounded_to_rational(step, Rounding::Nearest);
    lemma_pow2_values();
    if w == 0 || i_n == 0 {
        assert(bit_len(0) == 0);
        assert(bit_len(1) == 1) by {
            reveal_with_fuel(bit_len, 3);
        }
        assert(out.n == 0);
        assert(0 * id <= i_n * (out.d as int)) by (nonlinear_arith)
            requires
                0 <= i_n,
                0 <= out.d,
        ;
    } else if w == div {
        lemma_bit_len_le(i_n, 128);
        lemma_bit_len_le(id, 128);
        assert(out.n == i_n && out.d == id);
    } else {
        let n = i_n * w;
        let d = id * div;
        assert(step == (n, d));
        // both parts are below 2^255, so that at most 127 bits are cut
        lemma_mul_le(i_n, w, pow2_128() - 1, div - 1);
        lemma_mul_le(id, div, pow2_128() - 1, div);
        assert((pow2_128() - 1) * div < pow2(255)) by {
            assert((pow2_128() - 1) * div == pow2_128() * div - div) by (nonlinear_arith);
            assert(pow2_128() * div == pow2(255)) by (nonlinear_arith)
                requires
                    pow2(255) == 0x8000_0000_0000_0000_0000_0000_0000_0000int * pow2_128(),
                    div == 0x8000_0000_0000_0000_0000_0000_0000_0000int,
            ;
        }
        assert((pow2_128() - 1) * (div - 1) <= (pow2_128() - 1) * div) by (nonlinear_arith)
            requires
                0 < div,
        ;
        lemma_bit_len_le(n, 255);
        lemma_bit_len_le(d, 255);
        let shift = excess_bits(n, d, 128);
        assert(shift <= 127);
        assert(0 < n) by (nonlinear_arith)
            requires
                n == i_n * w,
                0 < i_n,
                0 < w,
        ;
        if shift == 0 {
            lemma_below_pow2(n, 128);
            lemma_below_pow2(d, 128);
            assert(0 < d) by (nonlinear_arith)
                requires
                    d == id * div,
                    0 < id,
                    0 < div,
            ;
            assert(out.n == n && out.d == d);
            assert(n * id <= i_n * d) by (nonlinear_arith)
                requires
                    n == i_n * w,
                    d == id * div,
                    w <= div,
                    0 <= i_n,
                    0 <= id,
            ;
        } else {
            let p = pow2(shift) as int;
            let rest = pow2((127 - shift) as nat) as int;
            vstd::arithmetic::power2::lemma_pow2_adds((127 - shift) as nat, shift);
            vstd::arithmetic::power2::lemma_pow2_pos(shift);
            vstd::arithmetic::power2::lemma_pow2_pos((127 - shift) as nat);
            assert(rest * p == div);
            // the denominator is cut exactly
            assert(d == (id * rest) * p) by (nonlinear_arith)
                requires
                    d == id * div,
                    rest * p == div,
            ;
            vstd::arithmetic::div_mod::lemma_div_by_multiple(id * rest, p);
            assert(0 < id * rest) by (nonlinear_arith)
                requires
                    0 < id,
                    0 < rest,
            ;
            let q_d = d / p;
            assert(q_d == id * rest);
            lemma_shifted_fits(n, 128, shift);
            lemma_shifted_fits(d, 128, shift);
            let q_n = n / p;
            lemma_div_bounds(n, p);
            assert(out.d == q_d);
            // the numerator is rounded down, or raised to one
            assert(q_n <= i_n * rest) by (nonlinear_arith)
                requires
                    q_n * p <= n,
                    n == i_n * w,
                    w <= div,
                    rest * p == div,
                    0 <= i_n,
                    0 < p,
                    0 <= q_n,
                    0 <= rest,
            ;
            assert(1 <= i_n * rest) by (nonlinear_arith)
                requires
                    1 <= i_n,
                    1 <= rest,
            ;
            assert(out.n <= i_n * rest);
            assert(out.n * id <= i_n * (id * rest)) by (nonlinear_arith)
                requires
                    out.n <= i_n * rest,
                    0 < id,
            ;
        }
    }
}

/// A condition that is enough, though not needed, for the average not to
/// pass the incoming price: that it is found by a plain cut, or that the
/// price falls to zero. Then the average is at most the incoming price
/// where the price rises, and at least where it falls.
pub proof fn lemma_price_average_within_incoming(prev: Price, incoming: Price, weight: Fraction)
    requires
        prev.wf(),
        incoming.wf(),
        weight.wf(),
        average_is_plain(prev, incoming, weight) || incoming.n == 0,
    ensures
        prev.le_value(incoming) ==> price_average(prev, incoming, weight).le_value(incoming),
        !prev.le_value(incoming) ==> incoming.le_value(price_average(prev, incoming, weight)),
{
    let result = price_average(prev, incoming, weight);
    let goal = (incoming.n as int, incoming.d as int);
    if prev.le_value(incoming) {
        let step = scaled(weight, rational_diff(incoming, prev));
        if prev.n == 0 {
            assert(rational_diff(incoming, prev) == (incoming.n as int, incoming.d as int));
            lemma_average_from_zero(incoming, weight);
        } else if step.0 == 0 {
            assert(result == prev);
        } else {
            assert(incoming.n != 0) by (nonlinear_arith)
                requires
                    prev.n * incoming.d <= incoming.n * prev.d,
                    prev.n > 0,
                    incoming.d > 0,
                    prev.d > 0,
            ;
            lemma_step_is_exact(prev, incoming, weight, Rounding::Down);
            lemma_uncut_average(prev, incoming, weight);
            let uncut = uncut_average(prev, incoming, weight);
            assert(result == rounded_to_rational(uncut, Rounding::Down));
            lemma_cut_down(uncut);
            lemma_ratio_le_transitive((result.n as int, result.d as int), uncut, goal);
        }
    } else {
        let step = scaled(weight, rational_diff(prev, incoming));
        if incoming.n == 0 {
            assert(0 * result.d <= result.n * incoming.d) by (nonlinear_arith)
                requires
                    0 <= result.n,
                    0 <= incoming.d,
            ;
        } else if prev.n == 0 || step.0 == 0 {
            assert(result == prev);
        } else {
            lemma_step_is_exact(incoming, prev, weight, Rounding::Up);
            lemma_uncut_average(prev, incoming, weight);
            let uncut = uncut_average(prev, incoming, weight);
            assert(result == rounded_to_rational(uncut, Rounding::Up));
            lemma_cut_up(uncut);
            lemma_ratio_le_transitive(goal, uncut, (result.n as int, result.d as int));
        }
    }
}

/// The step towards the incoming price that the average takes before it is
/// cut.
pub open spec fn average_step(prev: Price, incoming: Price, weight: Fraction) -> (int, int) {
    if prev.le_value(incoming) {
        scaled(weight, rational_diff(incoming, prev))
    } else {
        scaled(weight, rational_diff(prev, incoming))
    }
}

/// Whether the step towards the incoming price is at least what the cut to
/// 128 bits can take away: with `shift` the bits that are cut off,
/// `step * prev.d^2 >= 2^shift * (prev.n + prev.d)`, in numerators over the
/// denominator of the uncut average.
pub open spec fn step_outweighs_cut(prev: Price, incoming: Price, weight: Fraction) -> bool {
    let uncut = uncut_average(prev, incoming, weight);
    let shift = excess_bits(uncut.0, uncut.1, 128);
    shift > 0 ==> average_step(prev, incoming, weight).0 * prev.d * prev.d >= pow2(shift) * (prev.n
        + prev.d)
}

/// A sum that is cut downwards stays at or above the first term, where the
/// second term outweighs the cut.
proof fn lemma_cut_sum_stays_above(prev: Price, step: (int, int))
    requires
        prev.wf(),
        0 <= step.0,
        0 < step.1,
        cut_is_plain((prev.n * step.1 + step.0 * prev.d, prev.d * step.1), Rounding::Down),
        ({
            let shift = excess_bits(prev.n * step.1 + step.0 * prev.d, prev.d * step.1, 128);
            shift > 0 ==> step.0 * prev.d * prev.d >= pow2(shift) * (prev.n + prev.d)
        }),
    ensures
        prev.le_value(
            rounded_to_rational(
                (prev.n * step.1 + step.0 * prev.d, prev.d * step.1),
                Rounding::Down,
            ),
        ),
{
    let pn = prev.n as int;
    let pd = prev.d as int;
    let n = pn * step.1 + step.0 * pd;
    let d = pd * step.1;
    let out = rounded_to_rational((n, d), Rounding::Down);
    let shift = excess_bits(n, d, 128);
    assert(0 <= n && 0 < d) by (nonlinear_arith)
        requires
            n == pn * step.1 + step.0 * pd,
            d == pd * step.1,
            0 <= pn,
            0 < pd,
            0 <= step.0,
            0 < step.1,
    ;
    // what the sum has above the first term
    assert(n * pd - pn * d == step.0 * pd * pd) by (nonlinear_arith)
        requires
            n == pn * step.1 + step.0 * pd,
            d == pd * step.1,
    ;
    assert(0 <= step.0 * pd * pd) by (nonlinear_arith)
        requires
            0 <= step.0,
            0 < pd,
    ;
    lemma_pow2_values();
    if shift > 0 {
        lemma_shifted_fits(n, 128, shift);
        lemma_shifted_fits(d, 128, shift);
        vstd::arithmetic::power2::lemma_pow2_pos(shift);
        let p = pow2(shift) as int;
        let q_n = n / p;
        let q_d = d / p;
        lemma_div_bounds(n, p);
        lemma_div_bounds(d, p);
        assert(out.n == q_n && out.d == q_d + 1);
        assert((pn * (q_d + 1)) * p <= (q_n * pd) * p) by (nonlinear_arith)
            requires
                n < q_n * p + p,
                q_d * p <= d,
                n * pd - pn * d >= p * (pn + pd),
                0 <= pn,
                0 < pd,
        ;
        assert(pn * (q_d + 1) <= q_n * pd) by (nonlinear_arith)
            requires
                (pn * (q_d + 1)) * p <= (q_n * pd) * p,
                0 < p,
        ;
    } else {
        lemma_below_pow2(n, 128);
        lemma_below_pow2(d, 128);
        assert(out.n == n && out.d == d);
    }
}

/// A difference that is cut upwards stays at or below the first term, where
/// the second term outweighs the cut.
proof fn lemma_cut_difference_stays_below(prev: Price, step: (int, int))
    requires
        prev.wf(),
        0 <= step.0,
        0 < step.1,
        step.0 * prev.d <= prev.n * step.1,
        cut_is_plain((prev.n * step.1 - step.0 * prev.d, prev.d * step.1), Rounding::Up),
        ({
            let shift = excess_bits(prev.n * step.1 - step.0 * prev.d, prev.d * step.1, 128);
            shift > 0 ==> step.0 * prev.d * prev.d >= pow2(shift) * (prev.n + prev.d)
        }),
    ensures
        rounded_to_rational(
            (prev.n * step.1 - step.0 * prev.d, prev.d * step.1),
            Rounding::Up,
        ).le_value(prev),
{
    let pn = prev.n as int;
    let pd = prev.d as int;
    let n = pn * step.1 - step.0 * pd;
    let d = pd * step.1;
    let out = rounded_to_rational((n, d), Rounding::Up);
    let shift = excess_bits(n, d, 128);
    assert(0 < d) by (nonlinear_arith)
        requires
            d == pd * step.1,
            0 < pd,
            0 < step.1,
    ;
    // what the difference has below the first term
    assert(pn * d - n * pd == step.0 * pd * pd) by (nonlinear_arith)
        requires
            n == pn * step.1 - step.0 * pd,
            d == pd * step.1,
    ;
    assert(0 <= step.0 * pd * pd) by (nonlinear_arith)
        requires
            0 <= step.0,
            0 < pd,
    ;
    lemma_pow2_values();
    if shift > 0 {
        lemma_shifted_fits(n, 128, shift);
        lemma_shifted_fits(d, 128, shift);
        vstd::arithmetic::power2::lemma_pow2_pos(shift);
        let p = pow2(shift) as int;
        let q_n = n / p;
        let q_d = d / p;
        lemma_div_bounds(n, p);
        lemma_div_bounds(d, p);
        assert(out.n == q_n + 1 && out.d == q_d);
        assert(((q_n + 1) * pd) * p <= (pn * q_d) * p) by (nonlinear_arith)
            requires
                q_n * p <= n,
                d < q_d * p + p,
                pn * d - n * pd >= p * (pn + pd),
                0 <= pn,
                0 < pd,
        ;
        assert((q_n + 1) * pd <= pn * q_d) by (nonlinear_arith)
            requires
                ((q_n + 1) * pd) * p <= (pn * q_d) * p,
                0 < p,
        ;
    } else {
        lemma_below_pow2(n, 128);
        lemma_below_pow2(d, 128);
        assert(out.n == n && out.d == d);
    }
}

/// A step of the weight's share of a price is at most the price.
proof fn lemma_share_of_price(prev: Price, weight: Fraction)
    requires
        prev.wf(),
        weight.wf(),
    ensures
        ({
            let step = scaled(weight, (prev.n as int, prev.d as int));
            step.0 * prev.d <= prev.n * step.1
        }),
{
    let w = weight@;
    let div = DIV as int;
    let pn = prev.n as int;
    let pd = prev.d as int;
    let step = scaled(weight, (pn, pd));
    if w == 0 || pn == 0 {
        assert(0 * pd <= pn * 1) by (nonlinear_arith)
            requires
                0 <= pn,
        ;
    } else if w == div {
        assert(pn * pd <= pn * pd);
    } else {
        assert((pn * w) * pd <= pn * (pd * div)) by (nonlinear_arith)
            requires
                0 <= w <= div,
                0 <= pn,
                0 <= pd,
        ;
    }
}

/// A condition that is enough, though not needed, for the average not to
/// fall short of the previous price: that it is found by a plain cut and
/// that the step towards the incoming price outweighs the cut. Then the
/// average is at least the previous price where the price rises, and at
/// most where it falls.
pub proof fn lemma_price_average_within_previous(prev: Price, incoming: Price, weight: Fraction)
    requires
        prev.wf(),
        incoming.wf(),
        weight.wf(),
        average_is_plain(prev, incoming, weight),
        step_outweighs_cut(prev, incoming, weight),
    ensures
        prev.le_value(incoming) ==> prev.le_value(price_average(prev, incoming, weight)),
        !prev.le_value(incoming) ==> price_average(prev, incoming, weight).le_value(prev),
{
    let result = price_average(prev, incoming, weight);
    let step = average_step(prev, incoming, weight);
    let uncut = uncut_average(prev, incoming, weight);
    if prev.le_value(incoming) {
        if prev.n == 0 {
            assert(0 * result.d <= result.n * prev.d) by (nonlinear_arith)
                requires
                    0 <= result.n,
                    0 <= prev.d,
            ;
        } else if step.0 == 0 {
            assert(result == prev);
        } else {
            assert(incoming.n != 0) by (nonlinear_arith)
                requires
                    prev.n * incoming.d <= incoming.n * prev.d,
                    prev.n > 0,
                    incoming.d > 0,
                    prev.d > 0,
            ;
            lemma_step_is_exact(prev, incoming, weight, Rounding::Down);
            assert(result == rounded_to_rational(uncut, Rounding::Down));
            lemma_cut_sum_stays_above(prev, step);
        }
    } else {
        if prev.n == 0 || step.0 == 0 {
            assert(result == prev);
        } else {
            lemma_step_is_exact(incoming, prev, weight, Rounding::Up);
            if incoming.n == 0 {
                assert(rational_diff(prev, incoming) == (prev.n as int, prev.d as int));
                lemma_share_of_price(prev, weight);
            } else {
                lemma_uncut_average(prev, incoming, weight);
            }
            assert(uncut.0 == prev.n * step.1 - step.0 * prev.d);
            assert(result == rounded_to_rational(uncut, Rounding::Up));
            lemma_cut_difference_stays_below(prev, step);
        }
    }
}

/// A condition on the prices and the weight that is enough, though not
/// needed, for the average to lie between the prices: that it is found by a
/// plain cut and that the step towards the incoming price outweighs the cut.
pub proof fn lemma_plain_cut_of_large_step_lies_between(
    prev: Price,
    incoming: Price,
    weight: Fraction,
)
    requires
        prev.wf(),
        incoming.wf(),
        weight.wf(),
        average_is_plain(prev, incoming, weight),
        step_outweighs_cut(prev, incoming, weight),
    ensures
        ({
            let average = price_average(prev, incoming, weight);
            if prev.le_value(incoming) {
                prev.le_value(average) && average.le_value(incoming)
            } else {
                incoming.le_value(average) && average.le_value(prev)
            }
        }),
{
    lemma_price_average_within_incoming(prev, incoming, weight);
    lemma_price_average_within_previous(prev, incoming, weight);
}

/// By how much the rational `a` is below the rational `u`: `u - a`, as a
/// numerator that may be negative over a common denominator.
pub open spec fn below(u: (int, int), a: (int, int)) -> (int, int) {
    (u.0 * a.1 - a.0 * u.1, u.1 * a.1)
}

/// What the step leaves of the distance to the incoming price: how far the
/// uncut average is from the incoming price.
pub open spec fn average_rest(prev: Price, incoming: Price, weight: Fraction) -> (int, int) {
    let uncut = uncut_average(prev, incoming, weight);
    if prev.le_value(incoming) {
        below((incoming.n as int, incoming.d as int), uncut)
    } else {
        below(uncut, (incoming.n as int, incoming.d as int))
    }
}

/// Whether the cut to 128 bits moves the uncut average back by no more than
/// the step, and on by no more than what the step leaves of the distance.
pub open spec fn cut_stays_within(prev: Price, incoming: Price, weight: Fraction) -> bool {
    let uncut = uncut_average(prev, incoming, weight);
    let average = price_average(prev, incoming, weight);
    let cut = (average.n as int, average.d as int);
    let step = average_step(prev, incoming, weight);
    let rest = average_rest(prev, incoming, weight);
    if prev.le_value(incoming) {
        ratio_le(below(uncut, cut), step) && ratio_le(below(cut, uncut), rest)
    } else {
        ratio_le(below(cut, uncut), step) && ratio_le(below(uncut, cut), rest)
    }
}

/// Whether the average of the two prices lies between them.
pub open spec fn average_lies_between(prev: Price, incoming: Price, weight: Fraction) -> bool {
    let average = price_average(prev, incoming, weight);
    if prev.le_value(incoming) {
        prev.le_value(average) && average.le_value(incoming)
    } else {
        incoming.le_value(average) && average.le_value(prev)
    }
}

/// With `u = p + s`: `a` is at least `p` just where `a` is below `u` by no
/// more than `s`.
proof fn lemma_back_by_at_most(a: (int, int), u: (int, int), p: (int, int), s: (int, int))
    requires
        0 < a.1,
        0 < u.1,
        0 < p.1,
        0 < s.1,
        (u.0 * p.1 - p.0 * u.1) * s.1 == s.0 * (u.1 * p.1),
    ensures
        ratio_le(p, a) <==> ratio_le(below(u, a), s),
{
    let x = (u.0 * a.1 - a.0 * u.1) * s.1;
    let y = s.0 * (u.1 * a.1);
    let k = a.0 * p.1 - p.0 * a.1;
    let up = u.0 * p.1 - p.0 * u.1;
    assert(y * p.1 == (up * s.1) * a.1) by (nonlinear_arith)
        requires
            y == s.0 * (u.1 * a.1),
            up * s.1 == s.0 * (u.1 * p.1),
    ;
    assert((up * s.1) * a.1 - x * p.1 == (s.1 * u.1) * k) by {
        let ua = u.0 * a.1 - a.0 * u.1;
        assert(up * a.1 - ua * p.1 == u.1 * k) by (nonlinear_arith)
            requires
                up == u.0 * p.1 - p.0 * u.1,
                ua == u.0 * a.1 - a.0 * u.1,
                k == a.0 * p.1 - p.0 * a.1,
        ;
        assert((up * s.1) * a.1 - (ua * s.1) * p.1 == s.1 * (up * a.1 - ua * p.1))
            by (nonlinear_arith);
        assert(s.1 * (u.1 * k) == (s.1 * u.1) * k) by (nonlinear_arith);
    }
    let su = s.1 * u.1;
    assert(0 < su) by (nonlinear_arith)
        requires
            su == s.1 * u.1,
            0 < s.1,
            0 < u.1,
    ;
    assert((y - x) * p.1 == su * k) by (nonlinear_arith)
        requires
            y * p.1 == (up * s.1) * a.1,
            (up * s.1) * a.1 - x * p.1 == su * k,
    ;
    assert(x <= y <==> 0 <= k) by (nonlinear_arith)
        requires
            (y - x) * p.1 == su * k,
            0 < p.1,
            0 < su,
    ;
    assert(a.1 * u.1 == u.1 * a.1) by (nonlinear_arith);
}

/// With `i = u + r`: `a` is at most `i` just where `a` is above `u` by no
/// more than `r`.
proof fn lemma_on_by_at_most(a: (int, int), u: (int, int), i: (int, int), r: (int, int))
    requires
        0 < a.1,
        0 < u.1,
        0 < i.1,
        0 < r.1,
        (i.0 * u.1 - u.0 * i.1) * r.1 == r.0 * (i.1 * u.1),
    ensures
        ratio_le(a, i) <==> ratio_le(below(a, u), r),
{
    let x = (a.0 * u.1 - u.0 * a.1) * r.1;
    let y = r.0 * (a.1 * u.1);
    let k = i.0 * a.1 - a.0 * i.1;
    let iu = i.0 * u.1 - u.0 * i.1;
    assert(y * i.1 == (iu * r.1) * a.1) by (nonlinear_arith)
        requires
            y == r.0 * (a.1 * u.1),
            iu * r.1 == r.0 * (i.1 * u.1),
    ;
    assert((iu * r.1) * a.1 - x * i.1 == (r.1 * u.1) * k) by {
        let au = a.0 * u.1 - u.0 * a.1;
        assert(iu * a.1 - au * i.1 == u.1 * k) by (nonlinear_arith)
            requires
                iu == i.0 * u.1 - u.0 * i.1,
                au == a.0 * u.1 - u.0 * a.1,
                k == i.0 * a.1 - a.0 * i.1,
        ;
        assert((iu * r.1) * a.1 - (au * r.1) * i.1 == r.1 * (iu * a.1 - au * i.1))
            by (nonlinear_arith);
        assert(r.1 * (u.1 * k) == (r.1 * u.1) * k) by (nonlinear_arith);
    }
    let ru = r.1 * u.1;
    assert(0 < ru) by (nonlinear_arith)
        requires
            ru == r.1 * u.1,
            0 < r.1,
            0 < u.1,
    ;
    assert((y - x) * i.1 == ru * k) by (nonlinear_arith)
        requires
            y * i.1 == (iu * r.1) * a.1,
            (iu * r.1) * a.1 - x * i.1 == ru * k,
    ;
    assert(x <= y <==> 0 <= k) by (nonlinear_arith)
        requires
            (y - x) * i.1 == ru * k,
            0 < i.1,
            0 < ru,
    ;
}

/// Cutting to 128 bits leaves a denominator that is not zero.
pub proof fn lemma_cut_has_denominator(r: (int, int), rounding: Rounding)
    requires
        0 <= r.0,
        0 <= r.1,
    ensures
        rounded_to_rational(r, rounding).d > 0,
{
    let shift = excess_bits(r.0, r.1, 128);
    lemma_pow2_values();
    if shift == 0 {
        lemma_below_pow2(r.1, 128);
    } else {
        lemma_shifted_fits(r.1, 128, shift);
    }
}

/// The average of two prices lies between them, wherever the cut to 128
/// bits moves the uncut average back by no more than the step, and on by no
/// more than what the step leaves of the distance. Nowhere else does it:
/// see [`lemma_average_lies_between_exactly`].
pub proof fn lemma_price_average_between(prev: Price, incoming: Price, weight: Fraction)
    requires
        prev.wf(),
        incoming.wf(),
        weight.wf(),
        cut_stays_within(prev, incoming, weight),
    ensures
        average_lies_between(prev, incoming, weight),
{
    lemma_average_lies_between_exactly(prev, incoming, weight);
}

/// The average lies between the two prices just where the cut to 128 bits
/// moves the uncut average back by no more than the step, and on by no more
/// than what the step leaves of the distance.
pub proof fn lemma_average_lies_between_exactly(prev: Price, incoming: Price, weight: Fraction)
    requires
        prev.wf(),
        incoming.wf(),
        weight.wf(),
    ensures
        average_lies_between(prev, incoming, weight) <==> cut_stays_within(prev, incoming, weight),
{
    let average = price_average(prev, incoming, weight);
    let cut = (average.n as int, average.d as int);
    let uncut = uncut_average(prev, incoming, weight);
    let step = average_step(prev, incoming, weight);
    let rest = average_rest(prev, incoming, weight);
    let p = (prev.n as int, prev.d as int);
    let i = (incoming.n as int, incoming.d as int);
    if prev.le_value(incoming) {
        lemma_step_is_exact(prev, incoming, weight, Rounding::Down);
        assert(0 < uncut.1) by (nonlinear_arith)
            requires
                uncut.1 == p.1 * step.1,
                0 < p.1,
                0 < step.1,
        ;
        assert(0 <= uncut.0) by (nonlinear_arith)
            requires
                uncut.0 == p.0 * step.1 + step.0 * p.1,
                0 <= p.0,
                0 < p.1,
                0 <= step.0,
                0 < step.1,
        ;
        // the average has a denominator
        if prev.n == 0 {
            lemma_cut_has_denominator(step, Rounding::Nearest);
        } else if step.0 != 0 {
            lemma_cut_has_denominator(uncut, Rounding::Down);
        }
        assert(0 < cut.1);
        // the uncut average is the previous price and the step
        assert((uncut.0 * p.1 - p.0 * uncut.1) * step.1 == step.0 * (uncut.1 * p.1))
            by (nonlinear_arith)
            requires
                uncut.0 == p.0 * step.1 + step.0 * p.1,
                uncut.1 == p.1 * step.1,
        ;
        lemma_back_by_at_most(cut, uncut, p, step);
        assert(0 < rest.1) by (nonlinear_arith)
            requires
                rest.1 == i.1 * uncut.1,
                0 < i.1,
                0 < uncut.1,
        ;
        lemma_on_by_at_most(cut, uncut, i, rest);
    } else {
        lemma_step_is_exact(incoming, prev, weight, Rounding::Up);
        assert(0 < uncut.1) by (nonlinear_arith)
            requires
                uncut.1 == p.1 * step.1,
                0 < p.1,
                0 < step.1,
        ;
        // the step is no more than the previous price
        if step.0 == 0 {
            assert(0 * p.1 <= p.0 * step.1) by (nonlinear_arith)
                requires
                    0 <= p.0,
                    0 < step.1,
            ;
        } else if incoming.n == 0 {
            assert(rational_diff(prev, incoming) == p);
            lemma_share_of_price(prev, weight);
        } else {
            lemma_uncut_average(prev, incoming, weight);
        }
        assert(uncut.0 == p.0 * step.1 - step.0 * p.1);
        if step.0 != 0 {
            lemma_cut_has_denominator(uncut, Rounding::Up);
        }
        assert(0 < cut.1);
        // the previous price is the uncut average and the step
        assert((p.0 * uncut.1 - uncut.0 * p.1) * step.1 == step.0 * (p.1 * uncut.1))
            by (nonlinear_arith)
            requires
                uncut.0 == p.0 * step.1 - step.0 * p.1,
                uncut.1 == p.1 * step.1,
        ;
        lemma_on_by_at_most(cut, uncut, p, step);
        assert(0 < rest.1) by (nonlinear_arith)
            requires
                rest.1 == uncut.1 * i.1,
                0 < i.1,
                0 < uncut.1,
        ;
        lemma_back_by_at_most(cut, uncut, i, rest);
    }
}

} // verus!
