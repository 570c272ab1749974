//! Prices of a weighted pool of two assets, and the weights over time.
//!
//! A trade keeps the weighted product of the reserves. The power in it is
//! taken on binary fixed-point numbers that count whole tokens.

use crate::transcendental::pow;
use crate::transcendental::pow_of;
use crate::types::fixed_product;
use crate::types::fixed_quotient;
use crate::types::Balance;
use crate::types::FixedBalance;
use crate::types::LBPWeight;
use crate::types::FIXED_BALANCE_ONE;
use crate::types::HYDRA_ONE;
use crate::wide::lemma_mul_fits_256;
use crate::wide::lemma_mul_le;
use crate::wide::pow2_256;
use crate::wide::U256;
use crate::MathError;
use vstd::prelude::*;

verus! {

/// What is added to a fixed-point number to round it up: 10^-11, to the
/// nearest step of 2^-64.
pub const FIXED_ROUND_UP: u128 = 184_467_441;

/// The spot price of `amount`: see [`calculate_spot_price`].
pub open spec fn spot_price(
    in_reserve: Balance,
    out_reserve: Balance,
    in_weight: LBPWeight,
    out_weight: LBPWeight,
    amount: Balance,
) -> Result<Balance, MathError> {
    if in_reserve == 0 {
        Err(MathError::ZeroReserve)
    } else if amount == 0 || out_reserve == 0 {
        Ok(0)
    } else if amount * out_reserve * in_weight >= pow2_256() || out_weight == 0 || amount
        * out_reserve * in_weight / (in_reserve * out_weight) > u128::MAX {
        Err(MathError::Overflow)
    } else {
        Ok((amount * out_reserve * in_weight / (in_reserve * out_weight)) as u128)
    }
}

/// Calculating spot price given reserve of selling asset and reserve of buying asset.
/// Formula : BUY_RESERVE * AMOUNT / SELL_RESERVE
///
/// - `in_reserve` - reserve amount of selling asset
/// - `out_reserve` - reserve amount of buying asset
/// - `in_weight` - pool weight of selling asset
/// - `out_Weight` - pool weight of buying asset
/// - `amount` - amount
///
/// The price is `amount * out_reserve * in_weight / (in_reserve *
/// out_weight)`, rounded down. An empty selling reserve is an error; nothing
/// sold or nothing to buy gives zero.
pub fn calculate_spot_price(
    in_reserve: Balance,
    out_reserve: Balance,
    in_weight: LBPWeight,
    out_weight: LBPWeight,
    amount: Balance,
) -> (r: Result<Balance, MathError>)
    ensures
        r == spot_price(in_reserve, out_reserve, in_weight, out_weight, amount),
{
    // If any is 0 - let's not progress any further.
    if in_reserve == 0 {
        return Err(MathError::ZeroReserve);
    }
    if amount == 0 || out_reserve == 0 {
        return Ok(0);
    }
    proof {
        lemma_mul_fits_256(amount as int, out_reserve as int);
        lemma_mul_fits_256(in_reserve as int, out_weight as int);
    }
    let product = U256::from_u128(amount).checked_mul(U256::from_u128(out_reserve));
    let numerator = match product.unwrap().checked_mul(U256::from_u128(in_weight as u128)) {
        Some(v) => v,
        None => {
            return Err(MathError::Overflow);
        },
    };
    let denominator = U256::from_u128(in_reserve).checked_mul(U256::from_u128(out_weight as u128));
    assert(in_reserve * out_weight == 0 <==> out_weight == 0) by (nonlinear_arith)
        requires
            in_reserve > 0,
            out_weight >= 0,
    ;
    let spot_price = match numerator.checked_div(denominator.unwrap()) {
        Some(v) => v,
        None => {
            return Err(MathError::Overflow);
        },
    };
    match spot_price.to_u128() {
        Some(v) => Ok(v),
        None => Err(MathError::Overflow),
    }
}

/// A balance in base units as a fixed-point number of whole tokens, as a raw
/// value, rounded down; `None` where there are 2^64 whole tokens or more.
pub open spec fn to_fixed(value: int) -> Option<int> {
    if value / (HYDRA_ONE as int) >= FIXED_BALANCE_ONE {
        None
    } else {
        Some(
            (value / (HYDRA_ONE as int)) * FIXED_BALANCE_ONE + (value % (HYDRA_ONE as int))
                * FIXED_BALANCE_ONE / (HYDRA_ONE as int),
        )
    }
}

/// A fixed-point number of whole tokens as a balance in base units, rounded
/// down.
pub open spec fn from_fixed(bits: int) -> int {
    (bits / (FIXED_BALANCE_ONE as int)) * HYDRA_ONE + (bits % (FIXED_BALANCE_ONE as int))
        * HYDRA_ONE / (FIXED_BALANCE_ONE as int)
}

/// Going to fixed point and back never gives more than there was, and a
/// smaller fixed-point number never gives a larger balance.
pub proof fn lemma_from_fixed_le(bits: int, value: Balance)
    requires
        0 <= bits,
        to_fixed(value as int).is_some(),
        bits <= to_fixed(value as int).unwrap(),
    ensures
        0 <= from_fixed(bits) <= value,
{
    let one = FIXED_BALANCE_ONE as int;
    let h = HYDRA_ONE as int;
    let v = value as int;
    let f = v / h;
    let r = v % h;
    let part = r * one / h;
    let full = f * one + part;
    crate::arith::lemma_div_bounds(r * one, h);
    assert(part < one) by (nonlinear_arith)
        requires
            part * h <= r * one,
            0 <= r < h,
            0 < h,
            0 < one,
    ;
    let w = bits / one;
    let m = bits % one;
    crate::arith::lemma_div_bounds(bits, one);
    vstd::arithmetic::div_mod::lemma_fundamental_div_mod(bits, one);
    crate::arith::lemma_div_bounds(m * h, one);
    // the whole part of `bits` is at most that of the full conversion
    crate::arith::lemma_div_mono(bits, full, one);
    vstd::arithmetic::div_mod::lemma_fundamental_div_mod_converse(full, one, f, part);
    assert(w <= f);
    if w < f {
        assert(m * h / one < h) by (nonlinear_arith)
            requires
                (m * h / one) * one <= m * h,
                0 <= m < one,
                0 < h,
        ;
        assert(w * h + h <= f * h) by (nonlinear_arith)
            requires
                w + 1 <= f,
                0 < h,
        ;
        assert(f * h <= value) by {
            vstd::arithmetic::div_mod::lemma_fundamental_div_mod(v, h);
            vstd::arithmetic::mul::lemma_mul_is_commutative(f, h);
        }
    } else {
        assert(m <= part);
        // (part * h) / one <= r, since part * h <= r * one
        assert(m * h <= r * one) by (nonlinear_arith)
            requires
                m <= part,
                part * h <= r * one,
                0 < h,
        ;
        crate::arith::lemma_div_mono(m * h, r * one, one);
        vstd::arithmetic::div_mod::lemma_div_by_multiple(r, one);
        assert(value == f * h + r) by {
            vstd::arithmetic::div_mod::lemma_fundamental_div_mod(v, h);
            vstd::arithmetic::mul::lemma_mul_is_commutative(f, h);
        }
    }
    assert(0 <= w * h) by (nonlinear_arith)
        requires
            0 <= w,
            0 < h,
    ;
}

/// The balance as a fixed-point number of whole tokens.
///
/// Every balance is scaled alike, by [`HYDRA_ONE`]: a balance of one is
/// 10^-12 of a token, not one whole token, so that the ratio of two weights
/// or reserves is the same whichever of them is one. A balance of 2^64
/// whole tokens or more does not fit and gives `None`.
pub fn convert_to_fixed(value: Balance) -> (r: Option<FixedBalance>)
    ensures
        r.is_some() == to_fixed(value as int).is_some(),
        r.is_some() ==> r.unwrap()@ == to_fixed(value as int).unwrap(),
{
    let f = value / HYDRA_ONE;
    let r = value % HYDRA_ONE;
    let whole = FixedBalance::from_int(f)?;
    let part = r * FIXED_BALANCE_ONE / HYDRA_ONE;
    assert(part < FIXED_BALANCE_ONE) by (nonlinear_arith)
        requires
            part == r * FIXED_BALANCE_ONE / (HYDRA_ONE as int),
            0 <= r < HYDRA_ONE,
    ;
    Some(FixedBalance::from_bits(whole.to_bits() + part))
}

/// The fixed-point number of whole tokens as a balance.
pub fn convert_from_fixed(value: FixedBalance) -> (r: Option<Balance>)
    ensures
        r == Some(from_fixed(value@) as u128),
        from_fixed(value@) <= u128::MAX,
{
    let w: Balance = value.int_part();
    let frac: Balance = value.frac_part() * HYDRA_ONE / FIXED_BALANCE_ONE;
    assert(frac < HYDRA_ONE) by (nonlinear_arith)
        requires
            frac == (value@ % (FIXED_BALANCE_ONE as int)) * HYDRA_ONE / (FIXED_BALANCE_ONE as int),
            0 <= value@ % (FIXED_BALANCE_ONE as int) < FIXED_BALANCE_ONE,
    ;
    let r = w.checked_mul(HYDRA_ONE)?.checked_add(frac)?;
    Some(r)
}

/// The quotient of two fixed-point values that may be missing.
pub open spec fn quotient(a: Option<int>, b: Option<int>) -> Option<int> {
    if a.is_some() && b.is_some() {
        fixed_quotient(a.unwrap(), b.unwrap())
    } else {
        None
    }
}

/// The product of two fixed-point values that may be missing.
pub open spec fn product(a: Option<int>, b: Option<int>) -> Option<int> {
    if a.is_some() && b.is_some() {
        fixed_product(a.unwrap(), b.unwrap())
    } else {
        None
    }
}

/// The sum of two fixed-point values that may be missing.
pub open spec fn sum(a: Option<int>, b: Option<int>) -> Option<int> {
    if a.is_some() && b.is_some() && a.unwrap() + b.unwrap() <= u128::MAX {
        Some(a.unwrap() + b.unwrap())
    } else {
        None
    }
}

/// The difference of two fixed-point values that may be missing.
pub open spec fn difference(a: Option<int>, b: Option<int>) -> Option<int> {
    if a.is_some() && b.is_some() && a.unwrap() >= b.unwrap() {
        Some(a.unwrap() - b.unwrap())
    } else {
        None
    }
}

/// The power of two fixed-point values that may be missing.
pub open spec fn power(a: Option<int>, b: Option<int>) -> Option<int> {
    if a.is_some() && b.is_some() {
        pow_of(a.unwrap(), b.unwrap())
    } else {
        None
    }
}

/// A fixed-point value rounded up by [`FIXED_ROUND_UP`].
pub open spec fn raised(a: Option<int>) -> Option<int> {
    sum(a, Some(FIXED_ROUND_UP as int))
}

/// What comes out of the pool for `amount`, as a fixed-point number of
/// whole tokens: see [`calculate_out_given_in`].
pub open spec fn out_given_in_fixed(
    in_reserve: Balance,
    out_reserve: Balance,
    in_weight: LBPWeight,
    out_weight: LBPWeight,
    amount: Balance,
) -> Option<int> {
    let weight_ratio = quotient(to_fixed(in_weight as int), to_fixed(out_weight as int));
    let reserve = to_fixed(in_reserve as int);
    let ir = raised(quotient(reserve, sum(reserve, to_fixed(amount as int))));
    let new_out_reserve = raised(product(to_fixed(out_reserve as int), power(ir, weight_ratio)));
    difference(to_fixed(out_reserve as int), new_out_reserve)
}

/// What comes out of the pool for `amount`: see
/// [`calculate_out_given_in`].
pub open spec fn out_given_in(
    in_reserve: Balance,
    out_reserve: Balance,
    in_weight: LBPWeight,
    out_weight: LBPWeight,
    amount: Balance,
) -> Result<Balance, MathError> {
    if out_weight == 0 || in_weight == 0 {
        Err(MathError::ZeroWeight)
    } else if out_reserve == 0 || in_reserve == 0 {
        Err(MathError::ZeroReserve)
    } else {
        let out = out_given_in_fixed(in_reserve, out_reserve, in_weight, out_weight, amount);
        if out.is_none() {
            Err(MathError::Overflow)
        } else {
            Ok(from_fixed(out.unwrap()) as u128)
        }
    }
}

/// A missing value is an overflow.
fn or_overflow(value: Option<FixedBalance>) -> (r: Result<FixedBalance, MathError>)
    ensures
        value.is_some() ==> r == Ok::<FixedBalance, MathError>(value.unwrap()),
        value.is_none() ==> r == Err::<FixedBalance, MathError>(MathError::Overflow),
{
    match value {
        Some(v) => Ok(v),
        None => Err(MathError::Overflow),
    }
}

/// Round a fixed-point number up by [`FIXED_ROUND_UP`].
fn round_up_fixed(value: FixedBalance) -> (r: Result<FixedBalance, MathError>)
    ensures
        r.is_ok() == raised(Some(value@)).is_some(),
        r.is_ok() ==> r.unwrap()@ == raised(Some(value@)).unwrap(),
        r.is_err() ==> r == Err::<FixedBalance, MathError>(MathError::Overflow),
{
    or_overflow(value.checked_add(FixedBalance::from_bits(FIXED_ROUND_UP)))
}

/// The power, with a failure counted as an overflow.
fn pow_or_overflow(operand: FixedBalance, exponent: FixedBalance) -> (r: Result<
    FixedBalance,
    MathError,
>)
    ensures
        r.is_ok() == pow_of(operand@, exponent@).is_some(),
        r.is_ok() ==> r.unwrap()@ == pow_of(operand@, exponent@).unwrap(),
        r.is_err() ==> r == Err::<FixedBalance, MathError>(MathError::Overflow),
{
    match pow(operand, exponent) {
        Ok(v) => Ok(v),
        Err(_) => Err(MathError::Overflow),
    }
}

/// Calculating selling price given reserve of selling asset and reserve of buying asset.
///
/// - `in_reserve` - reserve amount of selling asset
/// - `out_reserve` - reserve amount of buying asset
/// - `in_weight` - pool weight of selling asset
/// - `out_weight` - pool weight of buying asset
/// - `amount` - amount
///
/// The amount received is `out_reserve * (1 - (in_reserve / (in_reserve +
/// amount))^(in_weight / out_weight))`. The ratio of the reserves and the
/// new reserve of the asset bought are each rounded up by 10^-11, so that
/// the pool never pays too much.
pub fn calculate_out_given_in(
    in_reserve: Balance,
    out_reserve: Balance,
    in_weight: LBPWeight,
    out_weight: LBPWeight,
    amount: Balance,
) -> (r: Result<Balance, MathError>)
    ensures
        r == out_given_in(in_reserve, out_reserve, in_weight, out_weight, amount),
        r.is_ok() ==> r.unwrap() <= out_reserve,
        out_weight == 0 || in_weight == 0 ==> r == Err::<Balance, MathError>(MathError::ZeroWeight),
        out_weight != 0 && in_weight != 0 && (out_reserve == 0 || in_reserve == 0) ==> r == Err::<
            Balance,
            MathError,
        >(MathError::ZeroReserve),
{
    let ghost reserve = out_reserve;
    if out_weight == 0 {
        return Err(MathError::ZeroWeight);
    }
    if in_weight == 0 {
        return Err(MathError::ZeroWeight);
    }
    if out_reserve == 0 {
        return Err(MathError::ZeroReserve);
    }
    if in_reserve == 0 {
        return Err(MathError::ZeroReserve);
    }
    let in_weight = or_overflow(convert_to_fixed(in_weight as u128))?;
    let out_weight = or_overflow(convert_to_fixed(out_weight as u128))?;
    let amount = or_overflow(convert_to_fixed(amount))?;
    let in_reserve = or_overflow(convert_to_fixed(in_reserve))?;
    let out_reserve = or_overflow(convert_to_fixed(out_reserve))?;

    // We are correctly rounding this down
    let weight_ratio = or_overflow(in_weight.checked_div(out_weight))?;

    // We round this up
    // This ratio being closer to one (i.e. rounded up) minimizes the impact of the asset
    // that was sold to the pool, i.e. 'amount'
    let new_in_reserve = or_overflow(in_reserve.checked_add(amount))?;
    let ir = round_up_fixed(or_overflow(in_reserve.checked_div(new_in_reserve))?)?;

    let ir = pow_or_overflow(ir, weight_ratio)?;

    // We round this up
    let new_out_reserve = round_up_fixed(or_overflow(out_reserve.checked_mul(ir))?)?;

    let r = or_overflow(out_reserve.checked_sub(new_out_reserve))?;
    proof {
        lemma_from_fixed_le(r@, reserve);
    }

    match convert_from_fixed(r) {
        Some(v) => Ok(v),
        None => Err(MathError::Overflow),
    }
}

/// What has to go into the pool for `amount`, as a fixed-point number of
/// whole tokens: see [`calculate_in_given_out`].
pub open spec fn in_given_out_fixed(
    in_reserve: Balance,
    out_reserve: Balance,
    in_weight: LBPWeight,
    out_weight: LBPWeight,
    amount: Balance,
) -> Option<int> {
    let weight_ratio = quotient(to_fixed(out_weight as int), to_fixed(in_weight as int));
    let reserve = to_fixed(out_reserve as int);
    let y = quotient(reserve, difference(reserve, to_fixed(amount as int)));
    product(
        to_fixed(in_reserve as int),
        difference(power(y, weight_ratio), Some(FIXED_BALANCE_ONE as int)),
    )
}

/// What has to go into the pool for `amount`: see
/// [`calculate_in_given_out`].
pub open spec fn in_given_out(
    in_reserve: Balance,
    out_reserve: Balance,
    in_weight: LBPWeight,
    out_weight: LBPWeight,
    amount: Balance,
) -> Result<Balance, MathError> {
    if out_weight == 0 || in_weight == 0 {
        Err(MathError::ZeroWeight)
    } else if out_reserve == 0 || in_reserve == 0 {
        Err(MathError::ZeroReserve)
    } else {
        let paid = in_given_out_fixed(in_reserve, out_reserve, in_weight, out_weight, amount);
        if paid.is_none() {
            Err(MathError::Overflow)
        } else {
            Ok(from_fixed(paid.unwrap()) as u128)
        }
    }
}

/// Calculating buying price given reserve of selling asset and reserve of buying asset.
/// Formula :
///
/// - `in_reserve` - reserve amount of selling asset
/// - `out_reserve` - reserve amount of buying asset
/// - `in_weight` - pool weight of selling asset
/// - `out_weight` - pool weight of buying asset
/// - `amount` - buy amount
///
/// The amount to pay is `in_reserve * ((out_reserve / (out_reserve -
/// amount))^(out_weight / in_weight) - 1)`. A weight of zero and a reserve
/// of zero are rejected, the weights first; any step that fails after that,
/// as for an amount that is not less than the reserve, is an overflow.
pub fn calculate_in_given_out(
    in_reserve: Balance,
    out_reserve: Balance,
    in_weight: LBPWeight,
    out_weight: LBPWeight,
    amount: Balance,
) -> (r: Result<Balance, MathError>)
    ensures
        r == in_given_out(in_reserve, out_reserve, in_weight, out_weight, amount),
        out_weight == 0 || in_weight == 0 ==> r == Err::<Balance, MathError>(MathError::ZeroWeight),
        out_weight != 0 && in_weight != 0 && (out_reserve == 0 || in_reserve == 0) ==> r == Err::<
            Balance,
            MathError,
        >(MathError::ZeroReserve),
{
    if out_weight == 0 {
        return Err(MathError::ZeroWeight);
    }
    if in_weight == 0 {
        return Err(MathError::ZeroWeight);
    }
    if out_reserve == 0 {
        return Err(MathError::ZeroReserve);
    }
    if in_reserve == 0 {
        return Err(MathError::ZeroReserve);
    }
    let in_weight = or_overflow(convert_to_fixed(in_weight as u128))?;
    let out_weight = or_overflow(convert_to_fixed(out_weight as u128))?;
    let amount = or_overflow(convert_to_fixed(amount))?;
    let in_reserve = or_overflow(convert_to_fixed(in_reserve))?;
    let out_reserve = or_overflow(convert_to_fixed(out_reserve))?;

    let weight_ratio = or_overflow(out_weight.checked_div(in_weight))?;
    let diff = or_overflow(out_reserve.checked_sub(amount))?;
    let y = or_overflow(out_reserve.checked_div(diff))?;
    let y1: FixedBalance = pow_or_overflow(y, weight_ratio)?;
    let y2 = or_overflow(y1.checked_sub(FixedBalance::one()))?;
    let r = or_overflow(in_reserve.checked_mul(y2))?;

    match convert_from_fixed(r) {
        Some(v) => Ok(v),
        None => Err(MathError::Overflow),
    }
}

/// The weight at the block `at`: see [`calculate_linear_weights`].
pub open spec fn linear_weight(
    start_x: u128,
    end_x: u128,
    start_y: LBPWeight,
    end_y: LBPWeight,
    at: u128,
) -> Result<LBPWeight, MathError> {
    if at > end_x || at < start_x || end_x - start_x > u32::MAX {
        Err(MathError::Overflow)
    } else if end_x == start_x {
        Err(MathError::ZeroDuration)
    } else {
        Ok(((start_y * (end_x - at) + end_y * (at - start_x)) / (end_x - start_x)) as u32)
    }
}

/// Calculating weight at any given block in an interval using linear interpolation.
///
/// - `start_x` - beginning of an interval
/// - `end_x` - end of an interval
/// - `start_y` - initial weight
/// - `end_y` - final weight
/// - `at` - block number at which to calculate the weight
///
/// The weight is `(start_y * (end_x - at) + end_y * (at - start_x)) / (end_x
/// - start_x)`, rounded down. A block outside the interval, or an interval
/// longer than 2^32 - 1 blocks, is an overflow; an empty interval has no
/// duration.
pub fn calculate_linear_weights(
    start_x: u128,
    end_x: u128,
    start_y: LBPWeight,
    end_y: LBPWeight,
    at: u128,
) -> (r: Result<LBPWeight, MathError>)
    ensures
        r == linear_weight(start_x, end_x, start_y, end_y, at),
        r.is_ok() ==> crate::ema::math::between(r.unwrap() as int, start_y as int, end_y as int),
{
    let d1 = match end_x.checked_sub(at) {
        Some(v) => v,
        None => {
            return Err(MathError::Overflow);
        },
    };
    let d2 = match at.checked_sub(start_x) {
        Some(v) => v,
        None => {
            return Err(MathError::Overflow);
        },
    };
    let dx = end_x - start_x;
    if dx > 0xFFFF_FFFF {
        return Err(MathError::Overflow);
    }
    // if dx fits into u32, d1 and d2 fit into u128
    if dx == 0 {
        return Err(MathError::ZeroDuration);
    }
    proof {
        lemma_mul_fits_256(start_y as int, d1 as int);
        lemma_mul_fits_256(end_y as int, d2 as int);
        lemma_mul_le(start_y as int, d1 as int, 0xFFFF_FFFF, 0xFFFF_FFFF);
        lemma_mul_le(end_y as int, d2 as int, 0xFFFF_FFFF, 0xFFFF_FFFF);
        lemma_interpolation(start_y as int, end_y as int, d1 as int, d2 as int);
    }
    let left_part = U256::from_u128(start_y as u128).checked_mul(U256::from_u128(d1));
    let right_part = U256::from_u128(end_y as u128).checked_mul(U256::from_u128(d2));
    let sum = left_part.unwrap().checked_add(right_part.unwrap());
    let result = sum.unwrap().checked_div(U256::from_u128(dx));

    match result.unwrap().to_u32() {
        Some(v) => Ok(v),
        None => Err(MathError::Overflow),
    }
}

/// A mean of two values with weights that are not both zero lies between
/// the values.
pub proof fn lemma_interpolation(a: int, b: int, p: int, q: int)
    requires
        0 <= a,
        0 <= b,
        0 <= p,
        0 <= q,
        p + q > 0,
    ensures
        crate::ema::math::between((a * p + b * q) / (p + q), a, b),
{
    let lo = if a <= b {
        a
    } else {
        b
    };
    let hi = if a <= b {
        b
    } else {
        a
    };
    assert(lo * (p + q) <= a * p + b * q <= hi * (p + q)) by (nonlinear_arith)
        requires
            lo <= a <= hi,
            lo <= b <= hi,
            0 <= p,
            0 <= q,
    ;
    vstd::arithmetic::div_mod::lemma_div_is_ordered(lo * (p + q), a * p + b * q, p + q);
    vstd::arithmetic::div_mod::lemma_div_is_ordered(a * p + b * q, hi * (p + q), p + q);
    vstd::arithmetic::div_mod::lemma_div_by_multiple(lo, p + q);
    vstd::arithmetic::div_mod::lemma_div_by_multiple(hi, p + q);
}

} // verus!
