//! Powers in fixed point.
//!
//! [`saturating_powi_high_precision`] raises a fraction to a whole power by
//! squaring and multiplying on 255 fractional bits. [`pow`] raises a binary
//! fixed-point number to a fixed-point power through the binary logarithm
//! and the exponential series.

use crate::arith::lemma_div_bounds;
use crate::arith::lemma_div_mono;
use crate::arith::lemma_part_of_whole;
use crate::arith::lemma_pow2_values;
use crate::fraction::Fraction;
use crate::fraction::DIV;
use crate::types::fixed_product;
use crate::types::fixed_quotient;
use crate::types::FixedBalance;
use crate::types::FIXED_BALANCE_ONE;
use crate::wide::lemma_mul_le;
use crate::wide::pow2_128;
use crate::wide::U256;
use vstd::arithmetic::power2::pow2;
use vstd::prelude::*;

verus! {

/// One, on 255 fractional bits.
pub open spec fn hp_one() -> int {
    0x8000_0000_0000_0000_0000_0000_0000_0000_0000_0000_0000_0000_0000_0000_0000_0000int
}

/// The product of two numbers on 255 fractional bits, rounded down.
pub open spec fn hp_mul(a: int, b: int) -> int {
    a * b / hp_one()
}

/// `b^n` on 255 fractional bits: the square of `b^(n / 2)`, times `b` once
/// more for an odd `n`, each product rounded down.
pub open spec fn hp_powi(b: int, n: nat) -> int
    decreases n,
{
    if n == 0 {
        hp_one()
    } else {
        let half = hp_powi(b, n / 2);
        if n % 2 == 1 {
            hp_mul(hp_mul(half, half), b)
        } else {
            hp_mul(half, half)
        }
    }
}

/// The `n`-th power of the fraction `bits / DIV`, as the numerator over
/// `DIV`: computed on 255 fractional bits and then cut to 127.
pub open spec fn powi_bits(bits: int, n: nat) -> int {
    hp_powi(bits * pow2_128(), n) / pow2_128()
}

/// A product of two numbers that are at most one is at most each of them.
pub proof fn lemma_hp_mul_le(a: int, b: int)
    requires
        0 <= a <= hp_one(),
        0 <= b <= hp_one(),
    ensures
        0 <= hp_mul(a, b) <= a,
        hp_mul(a, b) <= b,
{
    lemma_part_of_whole(a, b, hp_one());
    lemma_part_of_whole(b, a, hp_one());
    vstd::arithmetic::mul::lemma_mul_is_commutative(a, b);
}

/// One is neutral: a product with it is exact.
pub proof fn lemma_hp_mul_one(a: int)
    requires
        0 <= a,
    ensures
        hp_mul(hp_one(), a) == a,
        hp_mul(a, hp_one()) == a,
{
    vstd::arithmetic::div_mod::lemma_div_multiples_vanish(a, hp_one());
    vstd::arithmetic::mul::lemma_mul_is_commutative(a, hp_one());
}

/// A power of a number that is at most one is at most one, and from the
/// first power on it is at most the number itself.
pub proof fn lemma_hp_powi_le(b: int, n: nat)
    requires
        0 <= b <= hp_one(),
    ensures
        0 <= hp_powi(b, n) <= hp_one(),
        n >= 1 ==> hp_powi(b, n) <= b,
    decreases n,
{
    if n > 0 {
        lemma_hp_powi_le(b, n / 2);
        let half = hp_powi(b, n / 2);
        lemma_hp_mul_le(half, half);
        lemma_hp_mul_le(hp_mul(half, half), b);
    }
}

/// The first power is the number itself, with nothing lost.
pub proof fn lemma_hp_powi_first(b: int)
    requires
        0 <= b,
    ensures
        hp_powi(b, 1) == b,
{
    assert(hp_powi(b, 0) == hp_one());
    lemma_hp_mul_one(hp_one());
    lemma_hp_mul_one(b);
    assert(hp_powi(b, 1) == hp_mul(hp_mul(hp_powi(b, 0), hp_powi(b, 0)), b));
}

/// The power of a fraction is a fraction; the power zero is one, the first
/// power is the fraction itself, and no later power is above it.
pub proof fn lemma_powi_bits(bits: int, n: nat)
    requires
        0 <= bits <= DIV,
    ensures
        0 <= powi_bits(bits, n) <= DIV,
        n == 0 ==> powi_bits(bits, n) == DIV,
        n == 1 ==> powi_bits(bits, n) == bits,
        n >= 1 ==> powi_bits(bits, n) <= bits,
{
    let b = bits * pow2_128();
    lemma_mul_le(bits, pow2_128(), DIV as int, pow2_128());
    assert(DIV * pow2_128() == hp_one()) by (nonlinear_arith);
    lemma_hp_powi_le(b, n);
    lemma_div_bounds(hp_powi(b, n), pow2_128());
    lemma_div_mono(hp_powi(b, n), hp_one(), pow2_128());
    vstd::arithmetic::div_mod::lemma_div_multiples_vanish(DIV as int, pow2_128());
    vstd::arithmetic::mul::lemma_mul_is_commutative(DIV as int, pow2_128());
    vstd::arithmetic::div_mod::lemma_div_multiples_vanish(bits, pow2_128());
    vstd::arithmetic::mul::lemma_mul_is_commutative(bits, pow2_128());
    if n == 1 {
        lemma_hp_powi_first(b);
    }
    if n >= 1 {
        lemma_div_mono(hp_powi(b, n), b, pow2_128());
    }
}

/// The product of two numbers on 255 fractional bits.
fn mul_high_precision(a: U256, b: U256) -> (r: U256)
    requires
        a@ <= hp_one(),
        b@ <= hp_one(),
    ensures
        r@ == hp_mul(a@, b@),
{
    proof {
        lemma_pow2_values();
        lemma_hp_mul_le(a@, b@);
    }
    let (hi, lo) = a.full_mul(b).shr(255).halves();
    lo
}

/// Determine `operand^n` with higher precision than the fraction holds.
///
/// The power is formed by squaring and multiplying on 255 fractional bits,
/// each product rounded down, and cut to the 127 bits of a fraction at the
/// end. The result never exceeds one. It is the true power rounded down to a
/// fraction, or one step below it.
pub fn saturating_powi_high_precision(operand: Fraction, n: u32) -> (r: Fraction)
    requires
        operand.wf(),
    ensures
        r@ == powi_bits(operand@, n as nat),
        r.wf(),
        n == 0 ==> r@ == DIV,
        n == 1 ==> r == operand,
        n >= 1 ==> r@ * vstd::arithmetic::power::pow(DIV as int, (n - 1) as nat)
            <= vstd::arithmetic::power::pow(operand@, n as nat) < (r@ + 2)
            * vstd::arithmetic::power::pow(DIV as int, (n - 1) as nat),
{
    proof {
        if n >= 1 {
            crate::powers::lemma_powi_accuracy(operand@, n as nat);
        }
    }
    let base = U256::from_high_u128(operand.to_bits());
    let mut result = U256::from_high_u128(DIV);
    let exponent: u64 = n as u64;
    let mut i: u32 = 32;
    proof {
        lemma_mul_le(operand@, pow2_128(), DIV as int, pow2_128());
        assert(DIV * pow2_128() == hp_one()) by (nonlinear_arith);
        assert(exponent >> 32 == 0) by (bit_vector)
            requires
                exponent <= 0xFFFF_FFFF,
        ;
    }
    while i > 0
        invariant
            i <= 32,
            exponent == n,
            base@ == operand@ * pow2_128(),
            0 <= base@ <= hp_one(),
            result@ == hp_powi(base@, (exponent >> i) as nat),
        decreases i,
    {
        let ghost before = (exponent >> i) as nat;
        i -= 1;
        proof {
            lemma_hp_powi_le(base@, before);
            lemma_hp_mul_le(result@, result@);
            let after = exponent >> i;
            assert(after / 2 == (exponent >> ((i + 1) as u32)) && (after % 2 == 1 <==> (after & 1)
                == 1)) by (bit_vector)
                requires
                    after == exponent >> i,
                    i < 32,
            ;
            assert(before == after as nat / 2);
            lemma_hp_mul_one(hp_one());
            assert(hp_powi(base@, after as nat) == (if after == 0 {
                hp_one()
            } else if after as nat % 2 == 1 {
                hp_mul(hp_mul(result@, result@), base@)
            } else {
                hp_mul(result@, result@)
            }));
        }
        result = mul_high_precision(result, result);
        if (exponent >> i) & 1 == 1 {
            result = mul_high_precision(result, base);
        }
    }
    proof {
        assert(exponent >> 0 == exponent) by (bit_vector);
        lemma_powi_bits(operand@, n as nat);
    }
    let bits = result.high_u128();
    if bits > DIV {
        Fraction::one()
    } else {
        Fraction::from_bits(bits)
    }
}

/// The binary logarithm of `e`, 1.442695, to the nearest step of 2^-64.
pub const LOG2_E: u128 = 26_613_025_441_420_401_569;

/// Euler's number to the nearest step of 2^-64.
pub const E: u128 = 50_143_449_209_799_256_683;

/// How many terms of the exponential series are summed, counting from zero.
pub const EXP_TERMS: u128 = 192;

/// Half of `x`, rounded up.
pub open spec fn halved(x: int) -> int {
    x / 2 + x % 2
}

/// `x` halved until it is below two, with the number of halvings added to
/// `count`: the mantissa and the whole part of the logarithm.
pub open spec fn log2_whole(x: int, count: int) -> (int, int)
    decreases x,
{
    if x >= 2 * FIXED_BALANCE_ONE {
        log2_whole(halved(x), count + 1)
    } else {
        (x, count)
    }
}

/// `steps` more binary digits of the logarithm of the mantissa `x`, pushed
/// onto `result`: the mantissa is squared, and where the square reaches two
/// the digit is one and the square is halved.
pub open spec fn log2_digits(x: int, result: int, steps: nat) -> int
    decreases steps,
{
    if steps == 0 {
        result
    } else {
        let square = x * x / (FIXED_BALANCE_ONE as int);
        if square >= 2 * FIXED_BALANCE_ONE {
            log2_digits(halved(square), 2 * result + 1, (steps - 1) as nat)
        } else {
            log2_digits(square, 2 * result, (steps - 1) as nat)
        }
    }
}

/// The binary logarithm of a raw fixed-point value that is at least one.
pub open spec fn log2_at_least_one(x: int) -> int {
    let (mantissa, whole) = log2_whole(x, 0);
    if mantissa == FIXED_BALANCE_ONE {
        whole * FIXED_BALANCE_ONE
    } else {
        log2_digits(mantissa, whole, 64)
    }
}

/// The magnitude of the binary logarithm of a raw fixed-point value, and
/// whether the logarithm is negative: `None` for zero, or where the inverse
/// of a value below one does not fit.
pub open spec fn log2_of(x: int) -> Option<(int, bool)> {
    if x <= 0 {
        None
    } else if x < FIXED_BALANCE_ONE {
        let inverse = fixed_quotient(FIXED_BALANCE_ONE as int, x);
        if inverse.is_none() {
            None
        } else {
            Some((log2_at_least_one(inverse.unwrap()), true))
        }
    } else {
        Some((log2_at_least_one(x), false))
    }
}

/// The magnitude of the natural logarithm and its sign: the binary
/// logarithm divided by that of `e`.
pub open spec fn ln_of(x: int) -> Option<(int, bool)> {
    let log2 = log2_of(x);
    if log2.is_none() {
        None
    } else {
        let scaled = fixed_quotient(log2.unwrap().0, LOG2_E as int);
        if scaled.is_none() {
            None
        } else {
            Some((scaled.unwrap(), log2.unwrap().1))
        }
    }
}

/// The exponential series from the term `i` on: `term` is the term before,
/// `acc` the sum so far. Each term is the one before times `x` over `i`.
pub open spec fn exp_series(x: int, term: int, acc: int, i: nat) -> Option<int>
    decreases EXP_TERMS - i,
{
    if i >= EXP_TERMS {
        Some(acc)
    } else {
        let raised = fixed_product(term, x);
        if raised.is_none() {
            None
        } else {
            let next = fixed_quotient(raised.unwrap(), i * FIXED_BALANCE_ONE);
            if next.is_none() || acc + next.unwrap() > u128::MAX {
                None
            } else {
                exp_series(x, next.unwrap(), acc + next.unwrap(), i + 1)
            }
        }
    }
}

/// `e` to the power of `x`, or of `-x` where `negative` is set.
pub open spec fn exp_of(x: int, negative: bool) -> Option<int> {
    let value = if x == 0 {
        Some(FIXED_BALANCE_ONE as int)
    } else if x == FIXED_BALANCE_ONE {
        Some(E as int)
    } else if x + FIXED_BALANCE_ONE > u128::MAX {
        None
    } else {
        exp_series(x, x, x + FIXED_BALANCE_ONE, 2)
    };
    if value.is_none() {
        None
    } else if negative && x != 0 {
        fixed_quotient(FIXED_BALANCE_ONE as int, value.unwrap())
    } else {
        value
    }
}

/// `operand` to the power of `exponent`, both raw fixed-point values: see
/// [`pow`].
pub open spec fn pow_of(operand: int, exponent: int) -> Option<int> {
    if operand == 0 {
        Some(0)
    } else if exponent == 0 {
        Some(FIXED_BALANCE_ONE as int)
    } else if exponent == FIXED_BALANCE_ONE {
        Some(operand)
    } else {
        let ln = ln_of(operand);
        if ln.is_none() {
            None
        } else {
            let product = fixed_product(ln.unwrap().0, exponent);
            if product.is_none() {
                None
            } else {
                exp_of(product.unwrap(), ln.unwrap().1)
            }
        }
    }
}

/// right-shift with rounding
fn rs(operand: u128) -> (r: u128)
    ensures
        r == halved(operand as int),
{
    operand / 2 + operand % 2
}

/// Halving a value that is at most 2^`m` leaves at most 2^(`m` - 1).
proof fn lemma_halved_bound(x: int, m: nat)
    requires
        0 <= x <= pow2(m),
        m >= 1,
    ensures
        halved(x) <= pow2((m - 1) as nat),
{
    vstd::arithmetic::power2::lemma_pow2_unfold(m);
}

/// Powers of two grow with the exponent.
proof fn lemma_pow2_le(a: nat, b: nat)
    requires
        a <= b,
    ensures
        pow2(a) <= pow2(b),
{
    if a < b {
        vstd::arithmetic::power2::lemma_pow2_strictly_increases(a, b);
    }
}

/// base 2 logarithm assuming self >=1
fn log2_inner(operand: FixedBalance) -> (r: FixedBalance)
    requires
        operand@ >= FIXED_BALANCE_ONE,
    ensures
        r@ == log2_at_least_one(operand@),
        r@ <= 64 * FIXED_BALANCE_ONE,
{
    let two: u128 = 2 * FIXED_BALANCE_ONE;
    let mut x: u128 = operand.to_bits();
    let mut result: u128 = 0;
    proof {
        lemma_pow2_values();
    }
    while x >= two
        invariant
            two == 2 * FIXED_BALANCE_ONE,
            result <= 64,
            x <= pow2((128 - result) as nat),
            x >= FIXED_BALANCE_ONE,
            log2_whole(x as int, result as int) == log2_whole(operand@, 0),
        decreases x,
    {
        proof {
            lemma_pow2_values();
            if result >= 64 {
                lemma_pow2_le((128 - result) as nat, 64);
            }
            lemma_halved_bound(x as int, (128 - result) as nat);
        }
        result += 1;
        x = rs(x);
    }
    if x == FIXED_BALANCE_ONE {
        return FixedBalance::from_bits(result * FIXED_BALANCE_ONE);
    }
    proof {
        lemma_pow2_values();
        if result >= 64 {
            lemma_pow2_le((128 - result) as nat, 64);
        }
        vstd::arithmetic::power2::lemma2_to64();
    }
    let ghost mantissa = x as int;
    let ghost whole = result as int;
    let ghost mut limit: int = 64;
    let mut i: u32 = 0;
    while i < 64
        invariant
            i <= 64,
            two == 2 * FIXED_BALANCE_ONE,
            FIXED_BALANCE_ONE <= x <= two,
            result < limit,
            limit == 64 * pow2(i as nat),
            log2_digits(x as int, result as int, (64 - i) as nat) == log2_digits(
                mantissa,
                whole,
                64,
            ),
        decreases 64 - i,
    {
        proof {
            let one = 0x1_0000_0000_0000_0000int;
            let t = 0x2_0000_0000_0000_0000int;
            lemma_mul_le(x as int, x as int, t, t);
            lemma_mul_le(one, one, x as int, x as int);
            assert(t * t == 0x4_0000_0000_0000_0000_0000_0000_0000_0000int) by (nonlinear_arith)
                requires
                    t == 0x2_0000_0000_0000_0000int,
            ;
            assert(one * one == 0x1_0000_0000_0000_0000_0000_0000_0000_0000int)
                by (nonlinear_arith)
                requires
                    one == 0x1_0000_0000_0000_0000int,
            ;
            crate::arith::lemma_div_mono(one * one, x * x, one);
            crate::arith::lemma_div_mono(x * x, t * t, one);
            vstd::arithmetic::power2::lemma_pow2_unfold((i + 1) as nat);
            lemma_pow2_le((i + 1) as nat, 64);
            lemma_pow2_values();
        }
        let square = FixedBalance::from_bits(x).checked_mul(FixedBalance::from_bits(x));
        x = square.unwrap().to_bits();
        result = result * 2;
        if x >= two {
            result = result + 1;
            x = rs(x);
        }
        proof {
            limit = 2 * limit;
        }
        i += 1;
    }
    proof {
        lemma_pow2_values();
    }
    FixedBalance::from_bits(result)
}

/// base 2 logarithm
///
/// Returns the magnitude and whether the logarithm is negative. This happens
/// when operand is < 1.
pub fn log2(operand: FixedBalance) -> (r: Result<(FixedBalance, bool), ()>)
    ensures
        r.is_ok() == log2_of(operand@).is_some(),
        r.is_ok() ==> (r.unwrap().0@, r.unwrap().1) == log2_of(operand@).unwrap(),
        r.is_ok() ==> r.unwrap().0@ <= 64 * FIXED_BALANCE_ONE,
{
    if operand.to_bits() == 0 {
        return Err(());
    }
    if operand.to_bits() < FIXED_BALANCE_ONE {
        let inverse = match FixedBalance::one().checked_div(operand) {
            Some(v) => v,
            None => {
                return Err(());
            },
        };
        proof {
            // the inverse of a number below one is at least one
            lemma_mul_le(
                operand@,
                FIXED_BALANCE_ONE as int,
                FIXED_BALANCE_ONE as int,
                FIXED_BALANCE_ONE as int,
            );
            vstd::arithmetic::mul::lemma_mul_is_commutative(
                operand@,
                FIXED_BALANCE_ONE as int,
            );
            crate::arith::lemma_div_mono(
                operand@ * FIXED_BALANCE_ONE,
                FIXED_BALANCE_ONE * FIXED_BALANCE_ONE,
                operand@,
            );
            vstd::arithmetic::div_mod::lemma_div_multiples_vanish(
                FIXED_BALANCE_ONE as int,
                operand@,
            );
        }
        return Ok((log2_inner(inverse), true));
    }
    Ok((log2_inner(operand), false))
}

/// natural logarithm
pub fn ln(operand: FixedBalance) -> (r: Result<(FixedBalance, bool), ()>)
    ensures
        r.is_ok() == ln_of(operand@).is_some(),
        r.is_ok() ==> (r.unwrap().0@, r.unwrap().1) == ln_of(operand@).unwrap(),
{
    let (magnitude, negative) = log2(operand)?;
    match magnitude.checked_div(FixedBalance::from_bits(LOG2_E)) {
        Some(v) => Ok((v, negative)),
        None => Err(()),
    }
}

/// Once the series has failed, it has failed.
proof fn lemma_exp_series_unfold(x: int, term: int, acc: int, i: nat)
    requires
        i < EXP_TERMS,
    ensures
        exp_series(x, term, acc, i) == ({
            let raised = fixed_product(term, x);
            if raised.is_none() {
                None
            } else {
                let next = fixed_quotient(raised.unwrap(), i * FIXED_BALANCE_ONE);
                if next.is_none() || acc + next.unwrap() > u128::MAX {
                    None
                } else {
                    exp_series(x, next.unwrap(), acc + next.unwrap(), i + 1)
                }
            }
        }),
{
}

/// exponential function e^(operand), or e^(-operand) where `neg` is set
///
/// The series `1 + x + x^2 / 2! + ...` is summed term by term; `Err` where a
/// term or the sum does not fit.
#[verifier::loop_isolation(false)]
pub fn exp(operand: FixedBalance, neg: bool) -> (r: Result<FixedBalance, ()>)
    ensures
        r.is_ok() == exp_of(operand@, neg).is_some(),
        r.is_ok() ==> r.unwrap()@ == exp_of(operand@, neg).unwrap(),
{
    if operand.to_bits() == 0 {
        return Ok(FixedBalance::one());
    }
    let value = if operand.to_bits() == FIXED_BALANCE_ONE {
        FixedBalance::from_bits(E)
    } else {
        let mut result = match operand.checked_add(FixedBalance::one()) {
            Some(v) => v,
            None => {
                return Err(());
            },
        };
        let mut term = operand;
        let mut i: u128 = 2;
        while i < EXP_TERMS
            invariant
                2 <= i <= EXP_TERMS,
                exp_series(operand@, term@, result@, i as nat) == exp_series(
                    operand@,
                    operand@,
                    operand@ + FIXED_BALANCE_ONE,
                    2,
                ),
            decreases EXP_TERMS - i,
        {
            proof {
                lemma_exp_series_unfold(operand@, term@, result@, i as nat);
            }
            let raised = match term.checked_mul(operand) {
                Some(v) => v,
                None => {
                    return Err(());
                },
            };
            term = match raised.checked_div(FixedBalance::from_bits(i * FIXED_BALANCE_ONE)) {
                Some(v) => v,
                None => {
                    return Err(());
                },
            };
            result = match result.checked_add(term) {
                Some(v) => v,
                None => {
                    return Err(());
                },
            };
            i += 1;
        }
        result
    };
    if neg {
        match FixedBalance::one().checked_div(value) {
            Some(v) => Ok(v),
            None => Err(()),
        }
    } else {
        Ok(value)
    }
}

/// power with arbitrary exponent
///
/// `operand^exponent` as `e^(exponent * ln(operand))`. Zero to any power is
/// zero; any other number to the power zero is one, and to the power one
/// itself. `Err` where the logarithm or the series leaves the range of the
/// numbers.
pub fn pow(operand: FixedBalance, exponent: FixedBalance) -> (r: Result<FixedBalance, ()>)
    ensures
        r.is_ok() == pow_of(operand@, exponent@).is_some(),
        r.is_ok() ==> r.unwrap()@ == pow_of(operand@, exponent@).unwrap(),
        operand@ == 0 ==> r == Ok::<FixedBalance, ()>(FixedBalance { bits: 0 }),
        operand@ != 0 && exponent@ == 0 ==> r == Ok::<FixedBalance, ()>(
            FixedBalance { bits: FIXED_BALANCE_ONE },
        ),
        operand@ != 0 && exponent@ == FIXED_BALANCE_ONE ==> r == Ok::<FixedBalance, ()>(operand),
{
    if operand.to_bits() == 0 {
        return Ok(FixedBalance::from_bits(0));
    }
    if exponent.to_bits() == 0 {
        return Ok(FixedBalance::one());
    }
    if exponent.to_bits() == FIXED_BALANCE_ONE {
        return Ok(operand);
    }
    let (r, neg) = ln(operand)?;

    let r = match r.checked_mul(exponent) {
        Some(v) => v,
        None => {
            return Err(());
        },
    };
    exp(r, neg)
}

} // verus!
