//! How close the power of a fraction is to the true power.
//!
//! Every product in [`saturating_powi_high_precision`] is rounded down on
//! 255 fractional bits. The errors add up to less than three steps of that
//! scale for each unit of the exponent, which is far less than one step of a
//! fraction: the result is the true power rounded down, or one step below.
//! For the same reason no power is above the power before it.

use crate::arith::lemma_div_bounds;
use crate::fraction::DIV;
use crate::transcendental::hp_mul;
use crate::transcendental::lemma_hp_mul_one;
use crate::transcendental::lemma_powi_bits;
use crate::transcendental::hp_one;
use crate::transcendental::hp_powi;
use crate::transcendental::lemma_hp_powi_first;
use crate::transcendental::lemma_hp_powi_le;
use crate::transcendental::powi_bits;
use crate::wide::lemma_mul_le;
use crate::wide::pow2_128;
use vstd::arithmetic::power::lemma_pow0;
use vstd::arithmetic::power::lemma_pow1;
use vstd::arithmetic::power::lemma_pow_adds;
use vstd::arithmetic::power::lemma_pow_distributes;
use vstd::arithmetic::power::lemma_pow_positive;
use vstd::arithmetic::power::pow;
use vstd::prelude::*;

verus! {

/// A power of a number that is not negative is not negative.
proof fn lemma_pow_nonnegative(b: int, e: nat)
    requires
        0 <= b,
    ensures
        0 <= pow(b, e),
    decreases e,
{
    if e == 0 {
        lemma_pow0(b);
    } else {
        lemma_pow_nonnegative(b, (e - 1) as nat);
        lemma_pow_adds(b, 1, (e - 1) as nat);
        lemma_pow1(b);
        assert(0 <= b * pow(b, (e - 1) as nat)) by (nonlinear_arith)
            requires
                0 <= b,
                0 <= pow(b, (e - 1) as nat),
        ;
    }
}

/// The square of a rounded power against the true one: with `h` the power
/// `m` rounded down within `c` steps, the rounded square of `h` is the power
/// `2 m` rounded down within `2 c + 2` steps.
proof fn lemma_square_step(h: int, c: int, tm: int, em: int, one: int, sq: int)
    requires
        0 <= h <= one,
        1 <= c,
        c * c <= one,
        0 < em,
        0 <= tm,
        h * em <= tm,
        tm < (h + c) * em,
        sq * one <= h * h,
        h * h < sq * one + one,
        0 <= sq,
    ensures
        sq * (one * (em * em)) <= tm * tm,
        tm * tm < (sq + 2 * c + 2) * (one * (em * em)),
{
    let ee = em * em;
    let hh = h * h;
    let he = h * em;
    let x = (h + c) * em;
    assert(0 < ee) by (nonlinear_arith)
        requires
            ee == em * em,
            0 < em,
    ;
    // the rounded square is not above the true one
    assert(sq * (one * ee) == (sq * one) * ee) by (nonlinear_arith);
    assert((sq * one) * ee <= hh * ee) by (nonlinear_arith)
        requires
            sq * one <= hh,
            0 < ee,
    ;
    assert(hh * ee == he * he) by (nonlinear_arith)
        requires
            hh == h * h,
            ee == em * em,
            he == h * em,
    ;
    assert(0 <= he) by (nonlinear_arith)
        requires
            he == h * em,
            0 <= h,
            0 < em,
    ;
    assert(he * he <= tm * tm) by (nonlinear_arith)
        requires
            0 <= he <= tm,
    ;
    // and not more than 2 c + 2 steps below it
    assert(tm * tm < x * x) by (nonlinear_arith)
        requires
            0 <= tm < x,
    ;
    let hc = (h + c) * (h + c);
    assert(x * x == hc * ee) by (nonlinear_arith)
        requires
            x == (h + c) * em,
            hc == (h + c) * (h + c),
            ee == em * em,
    ;
    assert(hc == hh + 2 * (h * c) + c * c) by (nonlinear_arith)
        requires
            hc == (h + c) * (h + c),
            hh == h * h,
    ;
    assert(h * c <= one * c) by (nonlinear_arith)
        requires
            0 <= h <= one,
            0 <= c,
    ;
    assert(hc <= (sq + 2 * c + 2) * one) by (nonlinear_arith)
        requires
            hc == hh + 2 * (h * c) + c * c,
            hh < sq * one + one,
            h * c <= one * c,
            c * c <= one,
    ;
    assert(hc * ee <= ((sq + 2 * c + 2) * one) * ee) by (nonlinear_arith)
        requires
            hc <= (sq + 2 * c + 2) * one,
            0 < ee,
    ;
    assert(((sq + 2 * c + 2) * one) * ee == (sq + 2 * c + 2) * (one * ee)) by (nonlinear_arith);
}

/// One more factor against the true power: with `sq` the power `2 m`
/// rounded down within `c` steps, the rounded product of `sq` and `b` is the
/// power `2 m + 1` rounded down within `c + 1` steps.
proof fn lemma_multiply_step(sq: int, c: int, tt: int, ee: int, one: int, b: int, r: int)
    requires
        0 <= b <= one,
        0 < one,
        1 <= c,
        0 < ee,
        0 <= tt,
        0 <= sq,
        sq * ee <= tt,
        tt < (sq + c) * ee,
        r * one <= sq * b,
        sq * b < r * one + one,
        0 <= r,
    ensures
        r * (ee * one) <= tt * b,
        tt * b < (r + c + 1) * (ee * one),
{
    assert(r * (ee * one) == (r * one) * ee) by (nonlinear_arith);
    assert((r * one) * ee <= (sq * b) * ee) by (nonlinear_arith)
        requires
            r * one <= sq * b,
            0 < ee,
    ;
    assert((sq * b) * ee == (sq * ee) * b) by (nonlinear_arith);
    assert((sq * ee) * b <= tt * b) by (nonlinear_arith)
        requires
            sq * ee <= tt,
            0 <= b,
    ;
    assert(0 < ee * one) by (nonlinear_arith)
        requires
            0 < ee,
            0 < one,
    ;
    if b == 0 {
        assert(tt * b == 0) by (nonlinear_arith)
            requires
                b == 0,
        ;
        assert(0 < (r + c + 1) * (ee * one)) by (nonlinear_arith)
            requires
                0 < ee * one,
                0 < r + c + 1,
        ;
    } else {
        let y = (sq + c) * ee;
        assert(tt * b < y * b) by (nonlinear_arith)
            requires
                tt < y,
                0 < b,
        ;
        assert(y * b == ((sq + c) * b) * ee) by (nonlinear_arith)
            requires
                y == (sq + c) * ee,
        ;
        assert((sq + c) * b == sq * b + c * b) by (nonlinear_arith);
        assert(c * b <= c * one) by (nonlinear_arith)
            requires
                0 <= c,
                0 <= b <= one,
        ;
        assert((sq + c) * b <= (r + c + 1) * one) by (nonlinear_arith)
            requires
                (sq + c) * b == sq * b + c * b,
                sq * b < r * one + one,
                c * b <= c * one,
        ;
        assert(((sq + c) * b) * ee <= ((r + c + 1) * one) * ee) by (nonlinear_arith)
            requires
                (sq + c) * b <= (r + c + 1) * one,
                0 < ee,
        ;
        assert(((r + c + 1) * one) * ee == (r + c + 1) * (ee * one)) by (nonlinear_arith);
    }
}

/// On 255 fractional bits, the power of a number that is at most one is the
/// true power rounded down, within less than three steps for each unit of
/// the exponent: with `one` for [`hp_one`],
/// `hp_powi(b, n) * one^(n-1) <= b^n < (hp_powi(b, n) + 3 n - 2) * one^(n-1)`.
pub proof fn lemma_hp_powi_accuracy(b: int, n: nat)
    requires
        0 <= b <= hp_one(),
        1 <= n <= u32::MAX,
    ensures
        hp_powi(b, n) * pow(hp_one(), (n - 1) as nat) <= pow(b, n),
        pow(b, n) < (hp_powi(b, n) + 3 * n - 2) * pow(hp_one(), (n - 1) as nat),
    decreases n,
{
    let one = hp_one();
    if n == 1 {
        lemma_hp_powi_first(b);
        lemma_pow1(b);
        lemma_pow0(one);
    } else {
        let m: nat = n / 2;
        lemma_hp_powi_accuracy(b, m);
        lemma_hp_powi_le(b, m);
        let h = hp_powi(b, m);
        let c = 3 * m - 2;
        let tm = pow(b, m);
        let em = pow(one, (m - 1) as nat);
        lemma_pow_positive(one, (m - 1) as nat);
        lemma_pow_nonnegative(b, m);
        let sq = hp_mul(h, h);
        assert(0 <= h * h) by (nonlinear_arith)
            requires
                0 <= h,
        ;
        lemma_div_bounds(h * h, one);
        assert(c * c <= one) by {
            lemma_mul_le(c, c, 0x3_0000_0000, 0x3_0000_0000);
        }
        lemma_square_step(h, c, tm, em, one, sq);
        let tt = tm * tm;
        let ee = one * (em * em);
        // the true square and its scale
        lemma_pow_adds(b, m, m);
        lemma_pow_adds(one, (m - 1) as nat, (m - 1) as nat);
        lemma_pow_adds(one, 1, (2 * m - 2) as nat);
        lemma_pow1(one);
        assert(pow(b, 2 * m) == tt);
        assert(pow(one, (2 * m - 1) as nat) == ee);
        if n % 2 == 0 {
            assert(n == 2 * m);
            assert(hp_powi(b, n) == sq);
        } else {
            assert(n == 2 * m + 1);
            let r = hp_mul(sq, b);
            assert(hp_powi(b, n) == r);
            assert(0 <= sq * b) by (nonlinear_arith)
                requires
                    0 <= sq,
                    0 <= b,
            ;
            lemma_div_bounds(sq * b, one);
            assert(0 < ee) by (nonlinear_arith)
                requires
                    ee == one * (em * em),
                    0 < em,
                    0 < one,
            ;
            assert(0 <= tt) by (nonlinear_arith)
                requires
                    tt == tm * tm,
            ;
            lemma_multiply_step(sq, 2 * c + 2, tt, ee, one, b, r);
            lemma_pow_adds(b, 2 * m, 1);
            lemma_pow1(b);
            lemma_pow_adds(one, (2 * m - 1) as nat, 1);
            assert(pow(b, n) == tt * b);
            assert(pow(one, (n - 1) as nat) == ee * one);
            assert(0 < ee * one) by (nonlinear_arith)
                requires
                    0 < ee,
                    0 < one,
            ;
            assert((r + (2 * c + 2) + 1) * (ee * one) <= (r + 3 * n - 2) * (ee * one))
                by (nonlinear_arith)
                requires
                    (2 * c + 2) + 1 <= 3 * n - 2,
                    0 < ee * one,
            ;
        }
    }
}

/// The power of a fraction is the true power rounded down to a fraction, or
/// one step below it: for the fraction `bits / DIV` and `n` at least one,
/// `powi_bits(bits, n) * DIV^(n-1) <= bits^n < (powi_bits(bits, n) + 2) * DIV^(n-1)`.
pub proof fn lemma_powi_accuracy(bits: int, n: nat)
    requires
        0 <= bits <= DIV,
        1 <= n <= u32::MAX,
    ensures
        powi_bits(bits, n) * pow(DIV as int, (n - 1) as nat) <= pow(bits, n),
        pow(bits, n) < (powi_bits(bits, n) + 2) * pow(DIV as int, (n - 1) as nat),
{
    let one = hp_one();
    let k = pow2_128();
    let div = DIV as int;
    let b = bits * k;
    lemma_mul_le(bits, k, div, k);
    assert(div * k == one) by (nonlinear_arith)
        requires
            div == 0x8000_0000_0000_0000_0000_0000_0000_0000int,
            k == 0x1_0000_0000_0000_0000_0000_0000_0000_0000int,
            one == 0x8000_0000_0000_0000_0000_0000_0000_0000_0000_0000_0000_0000_0000_0000_0000_0000int,
    ;
    lemma_hp_powi_accuracy(b, n);
    lemma_hp_powi_le(b, n);
    let r = hp_powi(b, n);
    let out = r / k;
    lemma_div_bounds(r, k);
    let e = (n - 1) as nat;
    // the powers of the two scales, taken apart
    lemma_pow_distributes(bits, k, n);
    lemma_pow_distributes(div, k, e);
    let xn = pow(bits, n);
    let kn = pow(k, n);
    let de = pow(div, e);
    let ke = pow(k, e);
    assert(pow(b, n) == xn * kn);
    assert(pow(one, e) == de * ke);
    lemma_pow_adds(k, e, 1);
    lemma_pow1(k);
    assert(kn == ke * k);
    lemma_pow_positive(k, e);
    lemma_pow_positive(div, e);
    lemma_pow_nonnegative(bits, n);
    // not above the true power
    assert(out * de <= xn) by (nonlinear_arith)
        requires
            out * k <= r,
            r * (de * ke) <= xn * (ke * k),
            0 < ke,
            0 < k,
            0 <= de,
            0 <= out,
    ;
    // and less than two steps below it
    assert(r + 3 * n - 2 <= (out + 2) * k);
    assert(xn < (out + 2) * de) by (nonlinear_arith)
        requires
            r + 3 * n - 2 <= (out + 2) * k,
            xn * (ke * k) < (r + 3 * n - 2) * (de * ke),
            0 < ke,
            0 < k,
            0 < de,
    ;
}

/// Every power of one is one.
proof fn lemma_hp_powi_of_one(n: nat)
    ensures
        hp_powi(hp_one(), n) == hp_one(),
    decreases n,
{
    if n > 0 {
        lemma_hp_powi_of_one(n / 2);
        lemma_hp_mul_one(hp_one());
    }
}

/// A power falls short of one by no more than the exponent times what the
/// base falls short of one: `b^n >= one^(n-1) * (one - n * (one - b))`.
proof fn lemma_power_shortfall(b: int, one: int, n: nat)
    requires
        0 <= b <= one,
        0 < one,
        1 <= n,
    ensures
        pow(b, n) >= pow(one, (n - 1) as nat) * (one - n * (one - b)),
    decreases n,
{
    let e = one - b;
    if n == 1 {
        lemma_pow1(b);
        lemma_pow0(one);
    } else {
        let m = (n - 1) as nat;
        lemma_power_shortfall(b, one, m);
        let t = pow(b, m);
        let scale = pow(one, (m - 1) as nat);
        lemma_pow_adds(b, m, 1);
        lemma_pow1(b);
        lemma_pow_adds(one, (m - 1) as nat, 1);
        lemma_pow1(one);
        lemma_pow_positive(one, (m - 1) as nat);
        lemma_pow_nonnegative(b, m);
        assert(pow(b, n) == t * b);
        assert(pow(one, m) == scale * one);
        let q = one - m * e;
        assert(0 <= t * b) by (nonlinear_arith)
            requires
                0 <= t,
                0 <= b,
        ;
        assert(0 < scale * one) by (nonlinear_arith)
            requires
                0 < scale,
                0 < one,
        ;
        if q <= 0 {
            assert(n * e == m * e + e) by (nonlinear_arith)
                requires
                    n == m + 1,
            ;
            assert((scale * one) * (one - n * e) <= 0) by (nonlinear_arith)
                requires
                    0 < scale * one,
                    one - n * e <= 0,
            ;
        } else {
            assert(t * b >= (scale * q) * b) by (nonlinear_arith)
                requires
                    t >= scale * q,
                    0 <= b,
            ;
            assert(q * b >= one * (one - n * e)) by (nonlinear_arith)
                requires
                    q == one - m * e,
                    b == one - e,
                    n == m + 1,
                    0 <= e,
                    0 <= m,
            ;
            assert((scale * q) * b >= (scale * one) * (one - n * e)) by (nonlinear_arith)
                requires
                    q * b >= one * (one - n * e),
                    0 < scale,
            ;
        }
    }
}

/// A fraction's power does not grow with the exponent: no rounding lifts a
/// later power above an earlier one.
pub proof fn lemma_powi_falls(bits: int, n: nat)
    requires
        0 <= bits <= DIV,
        n + 1 <= u32::MAX,
    ensures
        powi_bits(bits, n + 1) <= powi_bits(bits, n),
{
    let one = hp_one();
    let k = pow2_128();
    let div = DIV as int;
    let b = bits * k;
    lemma_powi_bits(bits, n);
    lemma_powi_bits(bits, n + 1);
    assert(div * k == one) by (nonlinear_arith)
        requires
            div == 0x8000_0000_0000_0000_0000_0000_0000_0000int,
            k == 0x1_0000_0000_0000_0000_0000_0000_0000_0000int,
            one == 0x8000_0000_0000_0000_0000_0000_0000_0000_0000_0000_0000_0000_0000_0000_0000_0000int,
    ;
    if n == 0 {
    } else if bits == div {
        lemma_hp_powi_of_one(n);
        vstd::arithmetic::div_mod::lemma_div_by_multiple(div, k);
    } else {
        lemma_mul_le(bits, k, div - 1, k);
        assert((div - 1) * k == one - k) by (nonlinear_arith)
            requires
                div * k == one,
        ;
        let e = one - b;
        assert(e >= k);
        lemma_hp_powi_accuracy(b, n);
        lemma_hp_powi_accuracy(b, n + 1);
        lemma_hp_powi_le(b, n);
        lemma_hp_powi_le(b, n + 1);
        let r = hp_powi(b, n);
        let r_next = hp_powi(b, n + 1);
        let t = pow(b, n);
        let scale = pow(one, (n - 1) as nat);
        lemma_pow_adds(b, n, 1);
        lemma_pow1(b);
        lemma_pow_adds(one, (n - 1) as nat, 1);
        lemma_pow1(one);
        lemma_pow_positive(one, (n - 1) as nat);
        lemma_pow_nonnegative(b, n);
        assert(pow(b, n + 1) == t * b);
        assert(pow(one, n) == scale * one);
        // the next power against this one
        assert(r_next * one <= (r + 3 * n) * b) by (nonlinear_arith)
            requires
                r_next * (scale * one) <= t * b,
                t < (r + 3 * n - 2) * scale,
                0 < scale,
                0 <= b,
                0 <= r,
                0 <= r_next,
        ;
        lemma_div_bounds(r, k);
        lemma_div_bounds(r_next, k);
        if r_next / k > r / k {
            // then the next power is above this one, and at least one step of a fraction
            assert(r_next >= k && r_next >= r + 1) by (nonlinear_arith)
                requires
                    r_next / k >= r / k + 1,
                    (r_next / k) * k <= r_next,
                    r < (r / k) * k + k,
                    0 <= r / k,
                    0 < k,
            ;
            // so this power is small
            assert((r + 3 * n) * e <= (3 * n - 1) * one) by (nonlinear_arith)
                requires
                    r_next * one <= (r + 3 * n) * b,
                    b == one - e,
                    r_next >= r + 1,
                    0 < one,
            ;
            assert(r + 3 * n <= (3 * n - 1) * div) by (nonlinear_arith)
                requires
                    (r + 3 * n) * e <= (3 * n - 1) * one,
                    e >= k,
                    div * k == one,
                    0 < k,
                    0 <= r + 3 * n,
                    1 <= n,
            ;
            // which takes a base well below one
            lemma_power_shortfall(b, one, n);
            assert(one - n * e < r + 3 * n - 2) by (nonlinear_arith)
                requires
                    t >= scale * (one - n * e),
                    t < (r + 3 * n - 2) * scale,
                    0 < scale,
            ;
            let half = 0x4000_0000_0000_0000_0000_0000_0000_0000_0000_0000_0000_0000_0000_0000_0000_0000int;
            assert((3 * n - 1) * div < half) by (nonlinear_arith)
                requires
                    1 <= n <= 0xFFFF_FFFF,
                    div == 0x8000_0000_0000_0000_0000_0000_0000_0000int,
                    half
                        == 0x4000_0000_0000_0000_0000_0000_0000_0000_0000_0000_0000_0000_0000_0000_0000_0000int,
            ;
            assert(n * e > half);
            // and with such a base this power is smaller still
            assert((r + 3 * n) * half <= 3 * (n * n) * one) by (nonlinear_arith)
                requires
                    (r + 3 * n) * e <= (3 * n - 1) * one,
                    n * e > half,
                    0 <= r + 3 * n,
                    1 <= n,
                    0 < one,
                    0 <= e,
            ;
            assert(r + 3 * n <= 6 * (n * n)) by (nonlinear_arith)
                requires
                    (r + 3 * n) * half <= 3 * (n * n) * one,
                    one == 2 * half,
                    0 < half,
            ;
            lemma_mul_le(n as int, n as int, 0xFFFF_FFFF, 0xFFFF_FFFF);
            assert(r_next <= r + 3 * n) by (nonlinear_arith)
                requires
                    r_next * one <= (r + 3 * n) * b,
                    b <= one,
                    0 < one,
                    0 <= r + 3 * n,
            ;
            assert(false);
        }
    }
}

} // verus!
