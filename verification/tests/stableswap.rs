use hydra_dx_math::fixed::Permill;
use hydra_dx_math::stableswap::math::calculate_d;
use hydra_dx_math::stableswap::math::calculate_in_given_out;
use hydra_dx_math::stableswap::math::calculate_out_given_in;
use hydra_dx_math::stableswap::math::calculate_shares;
use hydra_dx_math::stableswap::math::calculate_withdraw_one_asset;

const UNIT: u128 = 1_000_000_000_000;

#[test]
fn d_of_a_balanced_pool_is_the_sum_of_its_reserves_and_two() {
    assert_eq!(calculate_d::<128>(&[1000, 1000], 10, 1), Some(2002));
    assert_eq!(calculate_d::<128>(&[1000, 1000], 1, 1), Some(2002));
}

#[test]
fn d_of_an_unbalanced_pool_is_below_the_sum() {
    assert_eq!(calculate_d::<128>(&[1000, 2000], 10, 1), Some(2993));
}

/// The invariant's equation at `d`, as the sign of what is left over: with
/// `ann = A n^n`, `ann d + d^(n+1) / (n^n prod(x)) - ann sum(x) - d`.
fn left_over(reserves: &[f64], amplification: f64, d: f64) -> f64 {
    let n = reserves.len() as f64;
    let ann = amplification * n.powf(n);
    let sum: f64 = reserves.iter().sum();
    let product: f64 = reserves.iter().product();
    ann * d + d.powf(n + 1.0) / (n.powf(n) * product) - ann * sum - d
}

#[test]
fn d_is_at_or_just_above_the_true_value() {
    // the true value is 2991.148...
    let d = calculate_d::<128>(&[1000, 2000], 10, 1).unwrap() as f64;
    assert!(left_over(&[1000.0, 2000.0], 10.0, d) >= 0.0);
    assert!(left_over(&[1000.0, 2000.0], 10.0, d - 2.0) <= 0.0);

    let reserves = [1_000_000_000_000_000, 2_000_000_000_000_000, 500_000_000_000_000];
    assert_eq!(calculate_d::<64>(&reserves, 100, 1), Some(3499239332974805));
    let d = 3499239332974805.0;
    let as_floats = [1e15, 2e15, 5e14];
    assert!(left_over(&as_floats, 100.0, d + 1.0) >= 0.0);
    assert!(left_over(&as_floats, 100.0, d - 3.0) <= 0.0);
}

#[test]
fn d_of_tiny_reserves_can_be_more_than_two_above_the_true_value() {
    // the true value is 11.9918...
    assert_eq!(calculate_d::<128>(&[5, 7], 10, 1), Some(14));
    assert!(left_over(&[5.0, 7.0], 10.0, 14.0 - 2.0) > 0.0);
}

#[test]
fn d_grows_with_a_reserve() {
    let mut last = 0;
    for step in 0..6 {
        let reserves = [10000 * UNIT + step * 1_234_567, 10000 * UNIT, 5000 * UNIT];
        let d = calculate_d::<64>(&reserves, 100, 1).unwrap();
        assert!(d >= last);
        last = d;
    }
    assert_eq!(last, 24998544486624204);
}

#[test]
fn d_of_an_empty_pool_is_zero() {
    assert_eq!(calculate_d::<128>(&[0, 0], 10, 1), Some(0));
    assert_eq!(calculate_d::<128>(&[], 10, 1), Some(0));
    assert_eq!(calculate_d::<0>(&[0], u128::MAX, 0), Some(0));
}

#[test]
fn d_leaves_zero_reserves_out_and_does_not_depend_on_the_order() {
    assert_eq!(calculate_d::<128>(&[5, 0, 7], 10, 1), Some(14));
    assert_eq!(calculate_d::<128>(&[7, 5], 10, 1), Some(14));
    assert_eq!(calculate_d::<64>(&[100 * UNIT, 200 * UNIT, 300 * UNIT], 100, 1), Some(599926044592784));
    assert_eq!(calculate_d::<64>(&[300 * UNIT, 100 * UNIT, 0, 200 * UNIT], 100, 1), Some(599926044592784));
}

#[test]
fn d_returns_the_last_iterate_when_the_steps_run_out() {
    assert_eq!(calculate_d::<0>(&[1000, 2000], 10, 1), Some(3000));
    assert_eq!(calculate_d::<1>(&[1000, 2000], 10, 1), Some(2993));
    assert_eq!(calculate_d::<3>(&[1000, 2000], 10, 1), Some(2993));
}

#[test]
fn d_fails_on_overflow() {
    assert_eq!(calculate_d::<128>(&[u128::MAX, u128::MAX], 10, 1), None);
    assert_eq!(calculate_d::<128>(&[u128::MAX / 4, u128::MAX / 4], 1, 1), None);
    // the amplification times n^n does not fit
    assert_eq!(calculate_d::<128>(&[1, 1], u128::MAX / 2, 1), None);
    // without amplification the step divides by zero reserves or takes one from zero
    assert_eq!(calculate_d::<128>(&[1000, 1000], 0, 1), None);
    assert_eq!(
        calculate_d::<64>(&[1_000_000_000_000_000_000_000_000_000_000, 100_000_000_000_000_000_000_000_000_000, 10_000_000_000_000_000_000_000_000_000], 2000, 1),
        Some(1108983146240483934345371911985)
    );
}

#[test]
fn out_given_in() {
    let balances = [10000 * UNIT, 10000 * UNIT];
    assert_eq!(calculate_out_given_in::<64, 128>(&balances, 0, 1, 100 * UNIT, 100, 1), Some(99995024630575));
    let three = [10000 * UNIT, 10000 * UNIT, 5000 * UNIT];
    assert_eq!(calculate_out_given_in::<64, 128>(&three, 2, 0, 123 * UNIT, 100, 1), Some(123126883320908));
}

#[test]
fn in_given_out() {
    let balances = [10000 * UNIT, 10000 * UNIT];
    assert_eq!(calculate_in_given_out::<64, 128>(&balances, 0, 1, 100 * UNIT, 100, 1), Some(100004975864609));
}

#[test]
fn paying_for_what_was_received_costs_no_less() {
    let three = [10000 * UNIT, 10000 * UNIT, 5000 * UNIT];
    let received = calculate_out_given_in::<64, 128>(&three, 2, 0, 123 * UNIT, 100, 1).unwrap();
    let paid = calculate_in_given_out::<64, 128>(&three, 2, 0, received, 100, 1).unwrap();
    assert!(paid >= 123 * UNIT);
    assert_eq!(paid, 123 * UNIT);
}

#[test]
fn paying_for_what_was_received_can_cost_less() {
    // what is received is rounded down, and a smaller payment would have been enough for it
    let balances = [612532, 725533];
    let received = calculate_out_given_in::<64, 128>(&balances, 1, 0, 307181, 1, 1).unwrap();
    assert_eq!(received, 247316);
    let paid = calculate_in_given_out::<64, 128>(&balances, 1, 0, received, 1, 1).unwrap();
    assert_eq!(paid, 307180);
}

#[test]
fn trades_reject_indices_beyond_the_pool() {
    let balances = [10000 * UNIT, 10000 * UNIT];
    assert_eq!(calculate_out_given_in::<64, 128>(&balances, 3, 1, 100 * UNIT, 100, 1), None);
    assert_eq!(calculate_out_given_in::<64, 128>(&balances, 0, 3, 100 * UNIT, 100, 1), None);
    assert_eq!(calculate_in_given_out::<64, 128>(&balances, 3, 1, 100 * UNIT, 100, 1), None);
    assert_eq!(calculate_in_given_out::<64, 128>(&balances, 0, 3, 100 * UNIT, 100, 1), None);
}

#[test]
fn trades_fail_beyond_the_reserves() {
    let balances = [10000 * UNIT, 10000 * UNIT];
    assert_eq!(calculate_in_given_out::<64, 128>(&balances, 0, 1, 10001 * UNIT, 100, 1), None);
    assert_eq!(calculate_out_given_in::<64, 128>(&[u128::MAX, 5], 0, 1, 1, 100, 1), None);
}

#[test]
fn shares() {
    let initial = [10000 * UNIT, 10000 * UNIT];
    let updated = [11000 * UNIT, 10000 * UNIT];
    assert_eq!(
        calculate_shares::<64>(&initial, &updated, 100, 1, 20000 * UNIT),
        Some(999881277449565)
    );
    // the first liquidity gets the invariant, less two
    assert_eq!(
        calculate_shares::<64>(&[0, 0], &[1000 * UNIT, 1000 * UNIT], 100, 1, 0),
        Some(2000 * UNIT)
    );
    // liquidity taken away
    assert_eq!(calculate_shares::<64>(&initial, &[9000 * UNIT, 10000 * UNIT], 100, 1, 20000 * UNIT), None);
    // shares in issue but nothing in the pool
    assert_eq!(calculate_shares::<64>(&[0, 0], &updated, 100, 1, 20000 * UNIT), None);
}

#[test]
fn withdraw_one_asset() {
    let reserves = [10000 * UNIT, 10000 * UNIT];
    assert_eq!(
        calculate_withdraw_one_asset::<64, 128>(
            &reserves,
            100 * UNIT,
            0,
            20000 * UNIT,
            100,
            1,
            Permill::from_parts(3000)
        ),
        Some((99698761207870, 299988760876))
    );
    assert_eq!(
        calculate_withdraw_one_asset::<64, 128>(&reserves, 100 * UNIT, 1, 20000 * UNIT, 100, 1, Permill::zero()),
        Some((99998749968746, 0))
    );
    let three = [10000 * UNIT, 10000 * UNIT, 7000 * UNIT];
    assert_eq!(
        calculate_withdraw_one_asset::<64, 128>(
            &three,
            100 * UNIT,
            2,
            27000 * UNIT,
            100,
            1,
            Permill::from_parts(3000)
        ),
        Some((99521964968887, 444239301485))
    );
}

#[test]
fn withdraw_one_asset_fails() {
    let reserves = [10000 * UNIT, 10000 * UNIT];
    let fee = Permill::from_parts(3000);
    // no shares in issue
    assert_eq!(calculate_withdraw_one_asset::<64, 128>(&reserves, 100 * UNIT, 0, 0, 100, 1, fee), None);
    assert_eq!(calculate_withdraw_one_asset::<64, 128>(&reserves, 100 * UNIT, 2, 0, 100, 1, fee), None);
    assert_eq!(calculate_withdraw_one_asset::<64, 128>(&[], 0, 0, 0, 0, 0, fee), None);
    // no such asset
    assert_eq!(calculate_withdraw_one_asset::<64, 128>(&reserves, 100 * UNIT, 2, 20000 * UNIT, 100, 1, fee), None);
    assert_eq!(calculate_withdraw_one_asset::<64, 128>(&reserves, 100 * UNIT, 3, 20000 * UNIT, 100, 1, fee), None);
    assert_eq!(
        calculate_withdraw_one_asset::<64, 128>(&reserves, 100 * UNIT, usize::MAX, 20000 * UNIT, 100, 1, fee),
        None
    );
    assert_eq!(calculate_withdraw_one_asset::<64, 128>(&[], 100 * UNIT, 0, 20000 * UNIT, 100, 1, fee), None);
    // all shares, and more shares than there are
    assert_eq!(
        calculate_withdraw_one_asset::<64, 128>(&reserves, 20000 * UNIT, 0, 20000 * UNIT, 100, 1, fee),
        None
    );
    assert_eq!(
        calculate_withdraw_one_asset::<64, 128>(&reserves, 30000 * UNIT, 0, 20000 * UNIT, 100, 1, fee),
        None
    );
}
