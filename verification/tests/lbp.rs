use hydra_dx_math::lbp::lbp::calculate_in_given_out;
use hydra_dx_math::lbp::lbp::calculate_linear_weights;
use hydra_dx_math::lbp::lbp::calculate_out_given_in;
use hydra_dx_math::lbp::lbp::calculate_spot_price;
use hydra_dx_math::lbp::lbp::convert_from_fixed;
use hydra_dx_math::lbp::lbp::convert_to_fixed;
use hydra_dx_math::types::FixedBalance;
use hydra_dx_math::types::HYDRA_ONE;
use hydra_dx_math::MathError;

const UNIT: u128 = HYDRA_ONE;

#[test]
fn spot_price() {
    assert_eq!(calculate_spot_price(1000, 2000, 500, 500, 100), Ok(200));
    assert_eq!(calculate_spot_price(1000, 2000, 2, 1, 100), Ok(400));
    assert_eq!(calculate_spot_price(1000, 2000, 1, 3, 100), Ok(66));
    assert_eq!(calculate_spot_price(1000, 2000, 0, 3, 100), Ok(0));
    assert_eq!(calculate_spot_price(1000, 0, 500, 500, 100), Ok(0));
    assert_eq!(calculate_spot_price(1000, 2000, 500, 500, 0), Ok(0));
}

#[test]
fn spot_price_errors() {
    assert_eq!(calculate_spot_price(0, 2000, 500, 500, 100), Err(MathError::ZeroReserve));
    assert_eq!(calculate_spot_price(0, 0, 0, 0, 0), Err(MathError::ZeroReserve));
    // a weight of zero for the asset bought divides by zero
    assert_eq!(calculate_spot_price(1000, 2000, 500, 0, 100), Err(MathError::Overflow));
    // the product does not fit in 256 bits
    assert_eq!(calculate_spot_price(1, u128::MAX, 2, 1, u128::MAX), Err(MathError::Overflow));
    // the price does not fit in 128 bits
    assert_eq!(calculate_spot_price(1, u128::MAX, 1, 1, 2), Err(MathError::Overflow));
    assert_eq!(calculate_spot_price(1, u128::MAX, 1, 1, 1), Ok(u128::MAX));
}

#[test]
fn linear_weights() {
    assert_eq!(calculate_linear_weights(0, 100, 98, 2, 25), Ok(74));
    assert_eq!(calculate_linear_weights(0, 100, 98, 2, 0), Ok(98));
    assert_eq!(calculate_linear_weights(0, 100, 98, 2, 100), Ok(2));
    assert_eq!(calculate_linear_weights(0, 100, 2, 98, 25), Ok(26));
    assert_eq!(calculate_linear_weights(100, 200, 2, 98, 133), Ok(33));
    // rounds towards zero
    assert_eq!(calculate_linear_weights(0, 3, 0, 1, 2), Ok(0));
    assert_eq!(calculate_linear_weights(0, 3, 10, 11, 2), Ok(10));
    assert_eq!(
        calculate_linear_weights(0, u128::from(u32::MAX), u32::MAX, u32::MAX, 5),
        Ok(u32::MAX)
    );
}

#[test]
fn linear_weights_errors() {
    assert_eq!(calculate_linear_weights(5, 5, 98, 2, 5), Err(MathError::ZeroDuration));
    assert_eq!(calculate_linear_weights(0, 100, 98, 2, 101), Err(MathError::Overflow));
    assert_eq!(calculate_linear_weights(10, 100, 98, 2, 9), Err(MathError::Overflow));
    assert_eq!(calculate_linear_weights(100, 10, 98, 2, 50), Err(MathError::Overflow));
    assert_eq!(calculate_linear_weights(0, 1 << 32, 98, 2, 50), Err(MathError::Overflow));
}

#[test]
fn fixed_point_conversion() {
    assert_eq!(convert_to_fixed(UNIT), Some(FixedBalance::one()));
    assert_eq!(convert_to_fixed(UNIT + UNIT / 2), Some(FixedBalance::from_bits(3 << 63)));
    assert_eq!(convert_to_fixed(1), Some(FixedBalance::from_bits(18446744)));
    assert_eq!(convert_to_fixed(5), Some(FixedBalance::from_bits(92233720)));
    assert_eq!(convert_to_fixed(0), Some(FixedBalance::from_bits(0)));
    assert_eq!(
        convert_to_fixed((1 << 64) * UNIT - 1),
        Some(FixedBalance::from_bits(340282366920938463463374607431749764711))
    );
    assert_eq!(convert_to_fixed((1 << 64) * UNIT), None);
    assert_eq!(convert_to_fixed(u128::MAX), None);

    assert_eq!(convert_from_fixed(FixedBalance::one()), Some(UNIT));
    assert_eq!(convert_from_fixed(FixedBalance::from_bits(3 << 63)), Some(UNIT + UNIT / 2));
    assert_eq!(convert_from_fixed(FixedBalance::from_bits(1)), Some(0));
    assert_eq!(
        convert_from_fixed(FixedBalance::from_bits(u128::MAX)),
        Some(18446744073709551615999999999999)
    );
    // there and back loses less than one base unit
    assert_eq!(convert_from_fixed(convert_to_fixed(123_456_789).unwrap()), Some(123_456_788));
}

#[test]
fn out_given_in_for_equal_weights() {
    // 2000 * (1 - 1000 / 1100) = 181.8181...
    assert_eq!(calculate_out_given_in(1000 * UNIT, 2000 * UNIT, 500, 500, 100 * UNIT), Ok(181818181798171));
}

#[test]
fn out_given_in_for_unequal_weights() {
    assert_eq!(
        calculate_out_given_in(1000 * UNIT, 2000 * UNIT, 20_000_000, 80_000_000, 100 * UNIT),
        Ok(47091821960840)
    );
    assert_eq!(
        calculate_out_given_in(1_000_000 * UNIT, 500_000 * UNIT, 80_000_000, 20_000_000, 1234 * UNIT),
        Ok(2460405019945223)
    );
    assert_eq!(calculate_out_given_in(1000 * UNIT, 2000 * UNIT, 1, 3, 100 * UNIT), Ok(62541389434501));
    assert_eq!(calculate_out_given_in(1000 * UNIT, 2000 * UNIT, 1, 3, 2000 * UNIT), Ok(613277465677622));
}

fn close(value: u128, expected: f64, tolerance: f64) -> bool {
    ((value as f64) - expected).abs() <= tolerance * expected
}

#[test]
fn out_given_in_follows_the_weighted_product() {
    let cases = [
        (1000 * UNIT, 2000 * UNIT, 20_000_000u32, 80_000_000u32, 100 * UNIT),
        (1_000_000 * UNIT, 500_000 * UNIT, 80_000_000, 20_000_000, 1234 * UNIT),
        (5 * UNIT, 7 * UNIT, 3, 2, 3 * UNIT),
    ];
    for (in_reserve, out_reserve, in_weight, out_weight, amount) in cases {
        let ratio = (in_reserve as f64) / ((in_reserve + amount) as f64);
        let expected = (out_reserve as f64) * (1.0 - ratio.powf((in_weight as f64) / (out_weight as f64)));
        let out = calculate_out_given_in(in_reserve, out_reserve, in_weight, out_weight, amount).unwrap();
        assert!(close(out, expected, 1e-6));
        assert!(out <= out_reserve);
    }
}

#[test]
fn in_given_out_follows_the_weighted_product() {
    let cases = [
        (1000 * UNIT, 2000 * UNIT, 20_000_000u32, 80_000_000u32, 100 * UNIT),
        (1_000_000 * UNIT, 500_000 * UNIT, 80_000_000, 20_000_000, 1234 * UNIT),
        (5 * UNIT, 7 * UNIT, 3, 2, 3 * UNIT),
    ];
    for (in_reserve, out_reserve, in_weight, out_weight, amount) in cases {
        let ratio = (out_reserve as f64) / ((out_reserve - amount) as f64);
        let expected = (in_reserve as f64) * (ratio.powf((out_weight as f64) / (in_weight as f64)) - 1.0);
        let paid = calculate_in_given_out(in_reserve, out_reserve, in_weight, out_weight, amount).unwrap();
        assert!(close(paid, expected, 1e-6));
    }
}

#[test]
fn out_given_in_approaches_the_spot_price_for_small_amounts() {
    let (in_reserve, out_reserve, in_weight, out_weight) = (1000 * UNIT, 2000 * UNIT, 20_000_000, 80_000_000);
    let amount = UNIT / 1000;
    let out = calculate_out_given_in(in_reserve, out_reserve, in_weight, out_weight, amount).unwrap();
    let spot = calculate_spot_price(in_reserve, out_reserve, in_weight, out_weight, amount).unwrap();
    assert!(close(out, spot as f64, 1e-3));
}

#[test]
fn out_given_in_errors() {
    assert_eq!(calculate_out_given_in(1000, 2000, 500, 0, 100), Err(MathError::ZeroWeight));
    assert_eq!(calculate_out_given_in(1000, 2000, 0, 500, 100), Err(MathError::ZeroWeight));
    assert_eq!(calculate_out_given_in(0, 0, 0, 0, 100), Err(MathError::ZeroWeight));
    assert_eq!(calculate_out_given_in(1000, 0, 500, 500, 100), Err(MathError::ZeroReserve));
    assert_eq!(calculate_out_given_in(0, 2000, 500, 500, 100), Err(MathError::ZeroReserve));
    // more whole tokens than the fixed-point numbers hold
    assert_eq!(
        calculate_out_given_in(10_000_000_000_000_000_000_000_000_000_000, 2000 * UNIT, 1, 3, 100 * UNIT),
        Err(MathError::Overflow)
    );
    // nothing sold: the rounding up leaves less than nothing to pay out
    assert_eq!(calculate_out_given_in(1000 * UNIT, 2000 * UNIT, 1, 3, 0), Err(MathError::Overflow));
    assert_eq!(calculate_out_given_in(1, 1, 1, 1, 1), Err(MathError::Overflow));
}

#[test]
fn in_given_out_values() {
    assert_eq!(calculate_in_given_out(1000 * UNIT, 2000 * UNIT, 500, 500, 100 * UNIT), Ok(52631578947368));
    assert_eq!(
        calculate_in_given_out(1000 * UNIT, 2000 * UNIT, 20_000_000, 80_000_000, 100 * UNIT),
        Ok(227737670294160)
    );
    assert_eq!(calculate_in_given_out(1000 * UNIT, 2000 * UNIT, 1, 3, 100 * UNIT), Ok(166350785083860));
    assert_eq!(calculate_in_given_out(1000 * UNIT, 2000 * UNIT, 1, 3, 0), Ok(0));
    assert_eq!(calculate_in_given_out(1000 * UNIT, 2000 * UNIT, 3, 1, 1999 * UNIT), Ok(11599211403678387));
}

#[test]
fn in_given_out_errors() {
    // all of the reserve, and more
    assert_eq!(calculate_in_given_out(1000 * UNIT, 2000 * UNIT, 1, 3, 2000 * UNIT), Err(MathError::Overflow));
    assert_eq!(calculate_in_given_out(1000 * UNIT, 2000 * UNIT, 1, 3, 2001 * UNIT), Err(MathError::Overflow));
    // more whole tokens than the fixed-point numbers hold
    assert_eq!(calculate_in_given_out(u128::MAX, 2000 * UNIT, 1, 3, 100 * UNIT), Err(MathError::Overflow));
}

#[test]
fn in_given_out_rejects_zero_weights_and_reserves() {
    assert_eq!(calculate_in_given_out(1000 * UNIT, 2000 * UNIT, 0, 3, 100 * UNIT), Err(MathError::ZeroWeight));
    assert_eq!(calculate_in_given_out(1000 * UNIT, 2000 * UNIT, 1, 0, 100 * UNIT), Err(MathError::ZeroWeight));
    assert_eq!(calculate_in_given_out(0, 0, 0, 0, 0), Err(MathError::ZeroWeight));
    assert_eq!(calculate_in_given_out(0, 2000 * UNIT, 1, 3, 100 * UNIT), Err(MathError::ZeroReserve));
    assert_eq!(calculate_in_given_out(1000 * UNIT, 0, 1, 3, 100 * UNIT), Err(MathError::ZeroReserve));
    assert_eq!(calculate_in_given_out(1000 * UNIT, 0, 1, 3, 0), Err(MathError::ZeroReserve));
}
