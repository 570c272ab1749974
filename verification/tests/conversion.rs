use hydra_dx_math::round_up;
use hydra_dx_math::to_balance;
use hydra_dx_math::to_lbp_weight;
use hydra_dx_math::types::Balance;
use hydra_dx_math::wide::U256;
use hydra_dx_math::MathError;

const FIXED_ROUND_UP: Balance = 1;

#[test]
fn test_conversion() {
    let one: u32 = 1;
    assert_eq!(to_balance(U256::from_u128(u128::from(one))), Ok(1u128));
    assert_eq!(to_lbp_weight(U256::from_u128(u128::from(one))), Ok(1u32));
    assert_eq!(round_up(Balance::from(one), FIXED_ROUND_UP), Ok(2u128));
}

#[test]
fn conversion_reports_overflow() {
    let big = U256 { limbs: [0, 0, 1, 0] };
    assert_eq!(to_balance(big), Err(MathError::Overflow));
    assert_eq!(to_lbp_weight(U256::from_u128(1 << 32)), Err(MathError::Overflow));
    assert_eq!(to_lbp_weight(U256::from_u128(u128::from(u32::MAX))), Ok(u32::MAX));
    assert_eq!(round_up(u128::MAX, 1), Err(MathError::Overflow));
    assert_eq!(to_balance(U256::from_u128(u128::MAX)), Ok(u128::MAX));
}
