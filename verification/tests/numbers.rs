use hydra_dx_math::fixed::FixedU128;
use hydra_dx_math::fixed::Permill;
use hydra_dx_math::fixed::Rational128;
use hydra_dx_math::fixed::FIXED_DIV;
use hydra_dx_math::fraction::frac;
use hydra_dx_math::fraction::multiply_by_balance;
use hydra_dx_math::fraction::multiply_by_fixed;
use hydra_dx_math::fraction::smallest_non_zero;
use hydra_dx_math::fraction::to_fixed;
use hydra_dx_math::fraction::Fraction;
use hydra_dx_math::fraction::DIV;
use hydra_dx_math::transcendental::exp;
use hydra_dx_math::transcendental::ln;
use hydra_dx_math::transcendental::log2;
use hydra_dx_math::transcendental::pow;
use hydra_dx_math::transcendental::saturating_powi_high_precision;
use hydra_dx_math::types::FixedBalance;
use hydra_dx_math::types::FIXED_BALANCE_ONE;
use hydra_dx_math::wide::U256;
use hydra_dx_math::wide::U512;

const ONE: u128 = FIXED_BALANCE_ONE;

#[test]
fn wide_conversions() {
    assert_eq!(U256::from_u128(0), U256::zero());
    assert_eq!(U256::from_u128(1), U256::one());
    assert_eq!(U256::from_u128(u128::MAX).limbs, [u64::MAX, u64::MAX, 0, 0]);
    assert_eq!(U256::from_u128((7 << 64) + 5).limbs, [5, 7, 0, 0]);
    assert_eq!(U256::from_u128(u128::MAX).to_u128(), Some(u128::MAX));
    assert_eq!(U256 { limbs: [5, 7, 1, 0] }.to_u128(), None);
    assert_eq!(U256 { limbs: [5, 7, 0, 1] }.to_u128(), None);
    assert_eq!(U256 { limbs: [5, 7, 1, 0] }.low_u128(), (7 << 64) + 5);
    assert_eq!(U256 { limbs: [5, 7, 1, 2] }.high_u128(), (2 << 64) + 1);
    assert_eq!(U256::from_high_u128((2 << 64) + 1).limbs, [0, 0, 1, 2]);
    assert_eq!(U256::from_u128(u128::from(u32::MAX)).to_u32(), Some(u32::MAX));
    assert_eq!(U256::from_u128(1 << 32).to_u32(), None);
    assert_eq!(U256 { limbs: [5, 1, 0, 0] }.to_u32(), None);
    assert_eq!(U512::from_u128((7 << 64) + 5).limbs, [5, 7, 0, 0, 0, 0, 0, 0]);
    assert_eq!(U512::from_u256(U256 { limbs: [1, 2, 3, 4] }).limbs, [1, 2, 3, 4, 0, 0, 0, 0]);
    assert_eq!(U512 { limbs: [5, 7, 1, 2, 3, 4, 5, 6] }.low_u128(), (7 << 64) + 5);
    assert_eq!(
        U512 { limbs: [1, 2, 3, 4, 5, 6, 7, 8] }.halves(),
        (U256 { limbs: [5, 6, 7, 8] }, U256 { limbs: [1, 2, 3, 4] })
    );
}

#[test]
fn wide_comparisons() {
    let small = U256 { limbs: [u64::MAX, u64::MAX, u64::MAX, 0] };
    let large = U256 { limbs: [0, 0, 0, 1] };
    assert!(small.lt(large));
    assert!(!large.lt(small));
    assert!(!small.lt(small));
    assert!(small.le(small));
    assert!(small.le(large));
    assert!(!large.le(small));
    assert!(U256 { limbs: [1, 0, 0, 0] }.lt(U256 { limbs: [0, 1, 0, 0] }));
    assert!(U256::zero().is_zero());
    assert!(!large.is_zero());

    let a = U512 { limbs: [u64::MAX, 0, 0, 0, 0, 0, 0, 0] };
    let b = U512 { limbs: [0, 0, 0, 0, 1, 0, 0, 0] };
    assert!(a.lt(b));
    assert!(!b.lt(a));
    assert_eq!(a.max(b), b);
    assert_eq!(b.max(a), b);
    assert!(U512::zero().is_zero());
    assert!(!b.is_zero());
    assert!(!U512::one().is_zero());
}

#[test]
fn fractions() {
    assert_eq!(DIV, 1 << 127);
    assert_eq!(Fraction::one().to_bits(), DIV);
    assert_eq!(Fraction::zero().to_bits(), 0);
    assert!(Fraction::zero().is_zero());
    assert!(Fraction::one().is_one());
    assert!(!smallest_non_zero().is_zero());
    assert_eq!(frac(1, 2).to_bits(), DIV / 2);
    assert_eq!(frac(1, 3).to_bits(), DIV / 3);
    assert_eq!(frac(0, 3), Fraction::zero());
    assert_eq!(frac(u128::MAX, u128::MAX), Fraction::one());
    assert_eq!(frac(u128::MAX - 1, u128::MAX).to_bits(), DIV - 1);
    assert_eq!(frac(1, 4).complement(), frac(3, 4));
    assert_eq!(Fraction::from_bits(5).to_bits(), 5);
}

#[test]
fn fraction_times_balance_rounds_down() {
    assert_eq!(multiply_by_balance(frac(1, 2), 7), 3);
    assert_eq!(multiply_by_balance(frac(2, 11), 1_000_000), 181_818);
    assert_eq!(multiply_by_balance(Fraction::one(), u128::MAX), u128::MAX);
    assert_eq!(multiply_by_balance(Fraction::zero(), u128::MAX), 0);
    assert_eq!(multiply_by_balance(smallest_non_zero(), u128::MAX), 1);
    assert_eq!(multiply_by_balance(Fraction::from_bits(DIV - 1), u128::MAX), u128::MAX - 2);
}

#[test]
fn fraction_times_fixed_is_no_less_precise_than_converting_first() {
    assert_eq!(to_fixed(Fraction::one()), FixedU128::one());
    assert_eq!(to_fixed(frac(1, 3)), FixedU128::from_inner(333_333_333_333_333_333));
    assert_eq!(to_fixed(smallest_non_zero()), FixedU128::from_inner(0));
    let third = frac(1, 3);
    let x = FixedU128::from_inner(3_000_000_000_000_000_000_000);
    // one third of 3000: the direct product is 999.999..., with all its digits
    assert_eq!(multiply_by_fixed(third, x), FixedU128::from_inner(999_999_999_999_999_999_999));
    let smoothings = [frac(2, 11), frac(1, 3), frac(2, 200_001), smallest_non_zero(), Fraction::one()];
    let values = [0, 1, 999, FIXED_DIV, 3 * FIXED_DIV + 1, u128::MAX / FIXED_DIV, u128::MAX];
    for smoothing in smoothings {
        for value in values {
            let direct = multiply_by_fixed(smoothing, FixedU128::from_inner(value)).into_inner();
            // the product with the converted fraction, rounded down as fixed-point products are
            let factor = to_fixed(smoothing).into_inner();
            let converted = mul_div(value, factor, FIXED_DIV);
            assert!(converted <= direct);
            // and the direct product is the true one, rounded down
            assert_eq!(direct, mul_div(value, smoothing.to_bits(), DIV));
        }
    }
}

/// `a * b / c`, rounded down, for a quotient that fits in 128 bits.
fn mul_div(a: u128, b: u128, c: u128) -> u128 {
    let product = primitive_types::U128::from(a).full_mul(primitive_types::U128::from(b));
    (product / primitive_types::U256::from(c)).low_u128()
}

#[test]
fn powers_of_fractions() {
    let half = frac(1, 2);
    assert_eq!(saturating_powi_high_precision(half, 0), Fraction::one());
    assert_eq!(saturating_powi_high_precision(half, 1), half);
    assert_eq!(saturating_powi_high_precision(half, 2), frac(1, 4));
    assert_eq!(saturating_powi_high_precision(half, 127), smallest_non_zero());
    assert_eq!(saturating_powi_high_precision(half, 128), Fraction::zero());
    assert_eq!(saturating_powi_high_precision(Fraction::zero(), 0), Fraction::one());
    assert_eq!(saturating_powi_high_precision(Fraction::zero(), 5), Fraction::zero());
    assert_eq!(saturating_powi_high_precision(Fraction::one(), u32::MAX), Fraction::one());
    assert_eq!(saturating_powi_high_precision(frac(1, 3), 3).to_bits(), 6301525313350712286358789026514226137);
    assert_eq!(
        saturating_powi_high_precision(Fraction::from_bits(DIV - 1), u32::MAX).to_bits(),
        170141183460469231731687303711589138433
    );
    assert_eq!(
        saturating_powi_high_precision(frac(9, 11), 10).to_bits(),
        22872186949307647544667710010870791147
    );
}

#[test]
fn powers_of_fractions_are_close_to_the_true_power() {
    // (1 / 3)^3 = 1 / 27, and the third is rounded down to begin with
    let cube = saturating_powi_high_precision(frac(1, 3), 3).to_bits();
    assert!(cube <= DIV / 27);
    assert!(DIV / 27 - cube <= 1);
}

#[test]
fn decimal_fixed_point() {
    assert_eq!(FixedU128::one().into_inner(), FIXED_DIV);
    assert_eq!(FixedU128::from_inner(5).checked_add(FixedU128::from_inner(7)), Some(FixedU128::from_inner(12)));
    assert_eq!(FixedU128::from_inner(u128::MAX).checked_add(FixedU128::from_inner(1)), None);
    assert_eq!(FixedU128::from_inner(7).checked_sub(FixedU128::from_inner(5)), Some(FixedU128::from_inner(2)));
    assert_eq!(FixedU128::from_inner(5).checked_sub(FixedU128::from_inner(7)), None);
}

#[test]
fn parts_per_million() {
    assert_eq!(Permill::from_percent(100), Permill::one());
    assert_eq!(Permill::from_percent(101), Permill::one());
    assert_eq!(Permill::from_percent(1).deconstruct(), 10_000);
    assert_eq!(Permill::from_parts(1_000_001), Permill::one());
    assert_eq!(Permill::from_parts(3000).deconstruct(), 3000);
    assert_eq!(Permill::zero().deconstruct(), 0);
    assert_eq!(Permill::from_percent(30).complement(), Permill::from_percent(70));
}

#[test]
fn rationals_are_equal_by_value() {
    assert_eq!(Rational128::from(1, 2), Rational128::from(2, 4));
    assert_eq!(Rational128::from(0, 5), Rational128::from(0, 1));
    assert_ne!(Rational128::from(1, 2), Rational128::from(1, 3));
    assert_eq!(Rational128::from(u128::MAX, u128::MAX), Rational128::from(1, 1));
    assert_ne!(Rational128::from(u128::MAX, u128::MAX - 1), Rational128::from(u128::MAX - 1, u128::MAX));
    assert!(Rational128::from(1, 2).ge(Rational128::from(1, 3)));
    assert!(Rational128::from(1, 2).ge(Rational128::from(2, 4)));
    assert!(!Rational128::from(1, 3).ge(Rational128::from(1, 2)));
    assert!(Rational128::from(u128::MAX, 1).ge(Rational128::from(u128::MAX - 1, 1)));
    assert!(!Rational128::from(u128::MAX - 1, u128::MAX).ge(Rational128::from(u128::MAX, u128::MAX)));
    // a denominator of zero becomes one
    assert_eq!(Rational128::from(7, 0).d(), 1);
    assert_eq!(Rational128::from(7, 0).n(), 7);
}

#[test]
fn binary_fixed_point() {
    let one = FixedBalance::one();
    let half = FixedBalance::from_bits(ONE / 2);
    let three = FixedBalance::from_int(3).unwrap();
    assert_eq!(FixedBalance::from_int(1), Some(one));
    assert_eq!(FixedBalance::from_int((1 << 64) - 1).unwrap().to_bits(), u128::MAX - u128::from(u64::MAX));
    assert_eq!(FixedBalance::from_int(1 << 64), None);
    assert_eq!(three.checked_mul(half), Some(FixedBalance::from_bits(3 * ONE / 2)));
    assert_eq!(three.checked_div(half), Some(FixedBalance::from_int(6).unwrap()));
    assert_eq!(one.checked_div(three), Some(FixedBalance::from_bits(ONE / 3)));
    assert_eq!(one.checked_div(FixedBalance::from_bits(0)), None);
    assert_eq!(FixedBalance::from_bits(u128::MAX).checked_mul(three), None);
    assert_eq!(FixedBalance::from_bits(u128::MAX).checked_div(half), None);
    assert_eq!(FixedBalance::from_bits(u128::MAX).checked_mul(one), Some(FixedBalance::from_bits(u128::MAX)));
    assert_eq!(FixedBalance::from_bits(1).checked_mul(half), Some(FixedBalance::from_bits(0)));
    assert_eq!(three.checked_add(half), Some(FixedBalance::from_bits(7 * ONE / 2)));
    assert_eq!(FixedBalance::from_bits(u128::MAX).checked_add(FixedBalance::from_bits(1)), None);
    assert_eq!(three.checked_sub(half), Some(FixedBalance::from_bits(5 * ONE / 2)));
    assert_eq!(half.checked_sub(three), None);
    assert_eq!(FixedBalance::from_bits(7 * ONE / 2).int_part(), 3);
    assert_eq!(FixedBalance::from_bits(7 * ONE / 2).frac_part(), ONE / 2);
}

fn fixed(bits: u128) -> FixedBalance {
    FixedBalance::from_bits(bits)
}

#[test]
fn logarithms() {
    assert_eq!(log2(fixed(8 * ONE)), Ok((fixed(3 * ONE), false)));
    assert_eq!(log2(fixed(ONE / 8)), Ok((fixed(3 * ONE), true)));
    assert_eq!(log2(fixed(ONE)), Ok((fixed(0), false)));
    assert_eq!(log2(fixed(10 * ONE)), Ok((fixed(61278757397652712441), false)));
    assert_eq!(log2(fixed(u128::MAX)), Ok((fixed(64 * ONE), false)));
    assert_eq!(log2(fixed(0)), Err(()));
    // the inverse of the smallest number does not fit
    assert_eq!(log2(fixed(1)), Err(()));
    assert_eq!(ln(fixed(3 * ONE)), Ok((fixed(20265820299668231135), false)));
    assert_eq!(ln(fixed(ONE / 3)), Ok((fixed(20265820299668231137), true)));
    assert_eq!(ln(fixed(ONE)), Ok((fixed(0), false)));
    assert_eq!(ln(fixed(0)), Err(()));
}

#[test]
fn exponentials() {
    assert_eq!(exp(fixed(0), false), Ok(fixed(ONE)));
    assert_eq!(exp(fixed(0), true), Ok(fixed(ONE)));
    assert_eq!(exp(fixed(ONE), false), Ok(fixed(50143449209799256683)));
    assert_eq!(exp(fixed(ONE), true), Ok(fixed(6786177901268885274)));
    assert_eq!(exp(fixed(2 * ONE), false), Ok(fixed(136304026803256390399)));
    assert_eq!(exp(fixed(2 * ONE), true), Ok(fixed(2496495334008788799)));
    assert_eq!(exp(fixed(ONE / 2), false), Ok(fixed(30413539329486470288)));
    assert_eq!(exp(fixed(40 * ONE), false), Ok(fixed(4342091776064339869272508161764505615)));
    assert_eq!(exp(fixed(40 * ONE), true), Ok(fixed(78)));
    assert_eq!(exp(fixed(50 * ONE), false), Err(()));
    assert_eq!(exp(fixed(u128::MAX), false), Err(()));
}

#[test]
fn powers() {
    assert_eq!(pow(fixed(0), fixed(5 * ONE)), Ok(fixed(0)));
    assert_eq!(pow(fixed(0), fixed(0)), Ok(fixed(0)));
    assert_eq!(pow(fixed(7 * ONE), fixed(0)), Ok(fixed(ONE)));
    assert_eq!(pow(fixed(7 * ONE + 5), fixed(ONE)), Ok(fixed(7 * ONE + 5)));
    assert_eq!(pow(fixed(2 * ONE), fixed(3 * ONE)), Ok(fixed(147573961287047736114)));
    assert_eq!(pow(fixed(ONE / 2), fixed(ONE / 2)), Ok(fixed(13043817697208406596)));
    assert_eq!(pow(fixed(3 * ONE), fixed(5 * ONE / 2)), Ok(fixed(287556304113027861401)));
    assert_eq!(pow(fixed(ONE + ONE / 10), fixed(100 * ONE)), Ok(fixed(254207497680458030352559)));
    assert_eq!(pow(fixed(u128::MAX), fixed(2 * ONE)), Err(()));
    assert_eq!(pow(fixed(1), fixed(2 * ONE)), Err(()));
    assert_eq!(pow(fixed(2 * ONE), fixed(u128::MAX)), Err(()));
}

#[test]
fn powers_are_close_to_the_true_power() {
    let cases = [(2.0, 3.0), (0.5, 0.5), (3.0, 2.5), (1.1, 100.0), (0.9, 7.25), (10.0, 0.1)];
    for (base, exponent) in cases {
        let operand = fixed((base * (ONE as f64)) as u128);
        let power = fixed((exponent * (ONE as f64)) as u128);
        let result = pow(operand, power).unwrap().to_bits() as f64 / (ONE as f64);
        let expected = f64::powf(base, exponent);
        assert!((result - expected).abs() / expected < 1e-5);
    }
}
