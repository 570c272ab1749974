use hydra_dx_math::fixed::FixedU128;
use hydra_dx_math::fixed::Permill;
use hydra_dx_math::fixed::Rational128;
use hydra_dx_math::omnipool::math::calculate_add_liquidity_state_changes;
use hydra_dx_math::omnipool::math::calculate_buy_for_hub_asset_state_changes;
use hydra_dx_math::omnipool::math::calculate_buy_state_changes;
use hydra_dx_math::omnipool::math::calculate_cap_difference;
use hydra_dx_math::omnipool::math::calculate_delta_imbalance;
use hydra_dx_math::omnipool::math::calculate_remove_liquidity_state_changes;
use hydra_dx_math::omnipool::math::calculate_sell_hub_state_changes;
use hydra_dx_math::omnipool::math::calculate_sell_state_changes;
use hydra_dx_math::omnipool::math::calculate_spot_sprice;
use hydra_dx_math::omnipool::math::calculate_tvl;
use hydra_dx_math::omnipool::math::calculate_tvl_cap_difference;
use hydra_dx_math::omnipool::math::verify_asset_cap;
use hydra_dx_math::omnipool::types::AssetReserveState;
use hydra_dx_math::omnipool::types::AssetStateChange;
use hydra_dx_math::omnipool::types::BalanceUpdate;
use hydra_dx_math::omnipool::types::BalanceUpdate::Decrease;
use hydra_dx_math::omnipool::types::BalanceUpdate::Increase;
use hydra_dx_math::omnipool::types::HubTradeStateChange;
use hydra_dx_math::omnipool::types::LiquidityStateChange;
use hydra_dx_math::omnipool::types::Position;
use hydra_dx_math::omnipool::types::TradeStateChange;
use hydra_dx_math::omnipool::types::I129;

const UNIT: u128 = 1_000_000_000_000;

fn state(reserve: u128, hub_reserve: u128, shares: u128) -> AssetReserveState {
    AssetReserveState { reserve, hub_reserve, shares, protocol_shares: 0 }
}

fn reserves(delta_reserve: BalanceUpdate, delta_hub_reserve: BalanceUpdate) -> AssetStateChange {
    AssetStateChange {
        delta_reserve,
        delta_hub_reserve,
        delta_shares: Increase(0),
        delta_protocol_shares: Increase(0),
    }
}

fn negative(value: u128) -> I129 {
    I129 { value, negative: true }
}

#[test]
fn sell_small_pool_without_fees() {
    let asset_in = state(1000, 500, 0);
    let asset_out = state(2000, 1000, 0);
    let change =
        calculate_sell_state_changes(&asset_in, &asset_out, 100, Permill::zero(), Permill::zero(), 0);
    assert_eq!(
        change,
        Some(TradeStateChange {
            asset_in: reserves(Increase(100), Decrease(45)),
            asset_out: reserves(Decrease(86), Increase(45)),
            delta_imbalance: Decrease(0),
            hdx_hub_amount: 0,
        })
    );
}

#[test]
fn sell_without_fees() {
    let asset_in = state(10 * UNIT, 20 * UNIT, 10 * UNIT);
    let asset_out = state(5 * UNIT, 5 * UNIT, 20 * UNIT);
    let change = calculate_sell_state_changes(
        &asset_in,
        &asset_out,
        4 * UNIT,
        Permill::from_percent(0),
        Permill::from_percent(0),
        2 * UNIT,
    )
    .unwrap();
    assert_eq!(change.asset_in.delta_reserve, Increase(4 * UNIT));
    assert_eq!(change.asset_in.delta_hub_reserve, Decrease(5714285714285));
    assert_eq!(change.asset_out.delta_reserve, Decrease(2666666666666));
    assert_eq!(change.asset_out.delta_hub_reserve, Increase(5714285714285));
    assert_eq!(change.delta_imbalance, Decrease(0));
    assert_eq!(change.hdx_hub_amount, 0);
}

#[test]
fn sell_with_fees() {
    let asset_in = state(10 * UNIT, 20 * UNIT, 10 * UNIT);
    let asset_out = state(5 * UNIT, 5 * UNIT, 20 * UNIT);
    let change = calculate_sell_state_changes(
        &asset_in,
        &asset_out,
        4 * UNIT,
        Permill::from_percent(1),
        Permill::from_percent(2),
        2 * UNIT,
    )
    .unwrap();
    assert_eq!(change.asset_in.delta_hub_reserve, Decrease(5714285714285));
    assert_eq!(change.asset_out.delta_reserve, Decrease(2615094339622));
    assert_eq!(change.asset_out.delta_hub_reserve, Increase(5600000000000));
    assert_eq!(change.delta_imbalance, Decrease(114285714285));
    assert_eq!(change.hdx_hub_amount, 0);
}

#[test]
fn sell_fee_beyond_imbalance_goes_to_hdx() {
    let asset_in = state(10 * UNIT, 20 * UNIT, 10 * UNIT);
    let asset_out = state(5 * UNIT, 5 * UNIT, 20 * UNIT);
    let change = calculate_sell_state_changes(
        &asset_in,
        &asset_out,
        4 * UNIT,
        Permill::from_percent(1),
        Permill::from_percent(2),
        100_000_000_000,
    )
    .unwrap();
    assert_eq!(change.delta_imbalance, Decrease(100_000_000_000));
    assert_eq!(change.hdx_hub_amount, 14_285_714_285);
}

#[test]
fn sell_into_empty_pool_fails() {
    let asset_in = state(0, 20 * UNIT, 10 * UNIT);
    let asset_out = state(5 * UNIT, 5 * UNIT, 20 * UNIT);
    assert_eq!(
        calculate_sell_state_changes(&asset_in, &asset_out, 0, Permill::zero(), Permill::zero(), 0),
        None
    );
}

#[test]
fn buy_without_fees() {
    let asset_in = state(10 * UNIT, 20 * UNIT, 10 * UNIT);
    let asset_out = state(5 * UNIT, 5 * UNIT, 20 * UNIT);
    let change = calculate_buy_state_changes(
        &asset_in,
        &asset_out,
        UNIT,
        Permill::from_percent(0),
        Permill::from_percent(0),
        2 * UNIT,
    )
    .unwrap();
    assert_eq!(change.asset_in.delta_reserve, Increase(666666666668));
    assert_eq!(change.asset_in.delta_hub_reserve, Decrease(1250000000001));
    assert_eq!(change.asset_out.delta_reserve, Decrease(UNIT));
    assert_eq!(change.asset_out.delta_hub_reserve, Increase(1250000000001));
    assert_eq!(change.delta_imbalance, Decrease(0));
    assert_eq!(change.hdx_hub_amount, 0);
}

#[test]
fn buy_with_fees() {
    let asset_in = state(10 * UNIT, 20 * UNIT, 10 * UNIT);
    let asset_out = state(5 * UNIT, 5 * UNIT, 20 * UNIT);
    let change = calculate_buy_state_changes(
        &asset_in,
        &asset_out,
        UNIT,
        Permill::from_percent(1),
        Permill::from_percent(2),
        2 * UNIT,
    )
    .unwrap();
    assert_eq!(change.asset_in.delta_reserve, Increase(690417011876));
    assert_eq!(change.asset_in.delta_hub_reserve, Decrease(1291655902868));
    assert_eq!(change.asset_out.delta_hub_reserve, Increase(1265822784811));
    assert_eq!(change.delta_imbalance, Decrease(25833118057));
    assert_eq!(change.hdx_hub_amount, 0);
}

#[test]
fn buy_more_than_the_pool_holds_fails() {
    let asset_in = state(10 * UNIT, 20 * UNIT, 10 * UNIT);
    let asset_out = state(5 * UNIT, 5 * UNIT, 20 * UNIT);
    assert_eq!(
        calculate_buy_state_changes(&asset_in, &asset_out, 5 * UNIT, Permill::zero(), Permill::zero(), 0),
        None
    );
    assert_eq!(
        calculate_buy_state_changes(&asset_in, &asset_out, 6 * UNIT, Permill::zero(), Permill::zero(), 0),
        None
    );
    // the hub asset needed is not less than what backs the asset given
    assert_eq!(
        calculate_buy_state_changes(&asset_in, &asset_out, 4 * UNIT, Permill::zero(), Permill::zero(), 0),
        None
    );
    // with the whole amount taken as protocol fee there is no price
    assert_eq!(
        calculate_buy_state_changes(&asset_in, &asset_out, UNIT, Permill::zero(), Permill::one(), 0),
        None
    );
}

#[test]
fn buying_what_a_sell_returned_can_cost_less_than_was_sold() {
    let asset_in = state(1000, 500, 0);
    let asset_out = state(2000, 1000, 0);
    let sold = calculate_sell_state_changes(&asset_in, &asset_out, 100, Permill::zero(), Permill::zero(), 0)
        .unwrap();
    assert_eq!(sold.asset_out.delta_reserve, Decrease(86));
    let bought = calculate_buy_state_changes(&asset_in, &asset_out, 86, Permill::zero(), Permill::zero(), 0)
        .unwrap();
    assert_eq!(bought.asset_in.delta_reserve, Increase(99));
}

#[test]
fn buying_what_an_exact_sell_returned_costs_more() {
    // 100 * 500 / 1000 and 2000 * 50 / 2000 leave no remainder
    let asset_in = state(900, 500, 0);
    let asset_out = state(2000, 1950, 0);
    let sold = calculate_sell_state_changes(&asset_in, &asset_out, 100, Permill::zero(), Permill::zero(), 0)
        .unwrap();
    assert_eq!(sold.asset_in.delta_hub_reserve, Decrease(50));
    assert_eq!(sold.asset_out.delta_reserve, Decrease(50));
    let bought = calculate_buy_state_changes(&asset_in, &asset_out, 50, Permill::zero(), Permill::zero(), 0)
        .unwrap();
    assert_eq!(bought.asset_in.delta_reserve, Increase(103));
}

#[test]
fn sell_hub_asset() {
    let asset_out = state(5 * UNIT, 5 * UNIT, 20 * UNIT);
    let change =
        calculate_sell_hub_state_changes(&asset_out, 4 * UNIT, Permill::zero(), negative(2 * UNIT), 40 * UNIT);
    assert_eq!(
        change,
        Some(HubTradeStateChange {
            asset: reserves(Decrease(2222222222222), Increase(4 * UNIT)),
            delta_imbalance: Decrease(29098765432099),
        })
    );
    let with_fee = calculate_sell_hub_state_changes(
        &asset_out,
        4 * UNIT,
        Permill::from_percent(1),
        negative(2 * UNIT),
        40 * UNIT,
    )
    .unwrap();
    assert_eq!(with_fee.asset.delta_reserve, Decrease(2199999999999));
    assert_eq!(with_fee.delta_imbalance, Decrease(28995555555552));
}

#[test]
fn buy_for_hub_asset() {
    let asset_out = state(5 * UNIT, 5 * UNIT, 20 * UNIT);
    let change = calculate_buy_for_hub_asset_state_changes(
        &asset_out,
        UNIT,
        Permill::zero(),
        negative(2 * UNIT),
        40 * UNIT,
    );
    assert_eq!(
        change,
        Some(HubTradeStateChange {
            asset: reserves(Decrease(UNIT), Increase(1250000000001)),
            delta_imbalance: Decrease(14170000000005),
        })
    );
    let with_fee = calculate_buy_for_hub_asset_state_changes(
        &asset_out,
        UNIT,
        Permill::from_percent(1),
        negative(2 * UNIT),
        40 * UNIT,
    )
    .unwrap();
    assert_eq!(with_fee.asset.delta_hub_reserve, Increase(1265822784811));
    assert_eq!(with_fee.delta_imbalance, Decrease(14239560158552));
    assert_eq!(
        calculate_buy_for_hub_asset_state_changes(
            &asset_out,
            5 * UNIT,
            Permill::zero(),
            negative(2 * UNIT),
            40 * UNIT
        ),
        None
    );
}

#[test]
fn add_liquidity() {
    let asset = state(10 * UNIT, 20 * UNIT, 10 * UNIT);
    let change = calculate_add_liquidity_state_changes(&asset, 2 * UNIT, negative(10 * UNIT), 22 * UNIT);
    assert_eq!(
        change,
        Some(LiquidityStateChange {
            asset: AssetStateChange {
                delta_reserve: Increase(2 * UNIT),
                delta_hub_reserve: Increase(4 * UNIT),
                delta_shares: Increase(2 * UNIT),
                delta_protocol_shares: Increase(0),
            },
            delta_imbalance: Decrease(1818181818181),
            delta_position_reserve: Increase(0),
            delta_position_shares: Increase(0),
            lp_hub_amount: 0,
        })
    );
}

#[test]
fn add_liquidity_fails_on_positive_imbalance_and_empty_reserve() {
    let asset = state(10 * UNIT, 20 * UNIT, 10 * UNIT);
    let positive = I129 { value: UNIT, negative: false };
    assert_eq!(calculate_add_liquidity_state_changes(&asset, 2 * UNIT, positive, 22 * UNIT), None);
    let empty = state(0, 20 * UNIT, 10 * UNIT);
    assert_eq!(calculate_add_liquidity_state_changes(&empty, 2 * UNIT, negative(UNIT), 22 * UNIT), None);
}

fn position(price: Rational128) -> Position {
    Position { amount: 3 * UNIT, shares: 3 * UNIT, price }
}

#[test]
fn remove_liquidity_above_the_entry_price() {
    let asset = state(10 * UNIT, 20 * UNIT, 10 * UNIT);
    let entry = Rational128::from(1_075_000_000_000_000_000, 1_000_000_000_000_000_000);
    let change =
        calculate_remove_liquidity_state_changes(&asset, 2 * UNIT, &position(entry), negative(UNIT), 100 * UNIT);
    assert_eq!(
        change,
        Some(LiquidityStateChange {
            asset: AssetStateChange {
                delta_reserve: Decrease(2 * UNIT),
                delta_hub_reserve: Decrease(4 * UNIT),
                delta_shares: Decrease(2 * UNIT),
                delta_protocol_shares: Increase(0),
            },
            delta_imbalance: Increase(40_000_000_000),
            delta_position_reserve: Decrease(2 * UNIT),
            delta_position_shares: Decrease(2 * UNIT),
            lp_hub_amount: 1203252032520,
        })
    );
}

#[test]
fn remove_liquidity_below_the_entry_price() {
    let asset = state(10 * UNIT, 20 * UNIT, 10 * UNIT);
    let entry = Rational128::from(3, 1);
    let change =
        calculate_remove_liquidity_state_changes(&asset, 2 * UNIT, &position(entry), negative(UNIT), 100 * UNIT)
            .unwrap();
    assert_eq!(change.asset.delta_reserve, Decrease(1599999999999));
    assert_eq!(change.asset.delta_hub_reserve, Decrease(3199999999998));
    assert_eq!(change.asset.delta_shares, Decrease(1599999999999));
    assert_eq!(change.asset.delta_protocol_shares, Increase(400000000001));
    assert_eq!(change.delta_imbalance, Increase(31999999999));
    assert_eq!(change.delta_position_reserve, Decrease(2 * UNIT));
    assert_eq!(change.delta_position_shares, Decrease(2 * UNIT));
    assert_eq!(change.lp_hub_amount, 0);
}

#[test]
fn remove_liquidity_at_the_entry_price() {
    let asset = state(10 * UNIT, 20 * UNIT, 10 * UNIT);
    let entry = Rational128::from(2, 1);
    let change =
        calculate_remove_liquidity_state_changes(&asset, 2 * UNIT, &position(entry), negative(UNIT), 100 * UNIT)
            .unwrap();
    assert_eq!(change.asset.delta_reserve, Decrease(2 * UNIT));
    assert_eq!(change.asset.delta_hub_reserve, Decrease(4 * UNIT));
    assert_eq!(change.asset.delta_protocol_shares, Increase(0));
    assert_eq!(change.lp_hub_amount, 0);
}

#[test]
fn remove_liquidity_fails_without_shares_or_price() {
    let no_shares = state(10 * UNIT, 20 * UNIT, 0);
    let entry = Rational128::from(2, 1);
    assert_eq!(
        calculate_remove_liquidity_state_changes(&no_shares, 2 * UNIT, &position(entry), negative(UNIT), 100 * UNIT),
        None
    );
    let asset = state(10 * UNIT, 20 * UNIT, 10 * UNIT);
    let no_price = Position { amount: 3 * UNIT, shares: 3 * UNIT, price: Rational128 { n: 2, d: 0 } };
    assert_eq!(
        calculate_remove_liquidity_state_changes(&asset, 2 * UNIT, &no_price, negative(UNIT), 100 * UNIT),
        None
    );
}

#[test]
fn delta_imbalance() {
    assert_eq!(calculate_delta_imbalance(4 * UNIT, negative(10 * UNIT), 22 * UNIT), Some(1818181818181));
    assert_eq!(calculate_delta_imbalance(4 * UNIT, negative(0), 22 * UNIT), Some(0));
    assert_eq!(calculate_delta_imbalance(4 * UNIT, I129 { value: 0, negative: false }, 0), Some(0));
    assert_eq!(calculate_delta_imbalance(4 * UNIT, I129 { value: 1, negative: false }, 22 * UNIT), None);
    assert_eq!(calculate_delta_imbalance(4 * UNIT, negative(10 * UNIT), 0), None);
    assert_eq!(calculate_delta_imbalance(u128::MAX, negative(u128::MAX), 1), None);
}

#[test]
fn tvl() {
    assert_eq!(calculate_tvl(2000 * UNIT, (150 * UNIT, 300 * UNIT)), Some(1000 * UNIT));
    assert_eq!(calculate_tvl(7, (3, 2)), Some(10));
    assert_eq!(calculate_tvl(7, (3, 0)), None);
    assert_eq!(calculate_tvl(u128::MAX, (2, 1)), None);
    assert_eq!(calculate_tvl(u128::MAX, (u128::MAX, u128::MAX)), Some(u128::MAX));
}

#[test]
fn spot_price_between_assets() {
    let a = state(10 * UNIT, 20 * UNIT, 0);
    let b = state(5 * UNIT, 15 * UNIT, 0);
    // 2 * (1 / 3), each factor rounded down to 18 digits
    assert_eq!(calculate_spot_sprice(&a, &b), Some(FixedU128::from_inner(666_666_666_666_666_666)));
    assert_eq!(calculate_spot_sprice(&state(0, 1, 0), &b), None);
    assert_eq!(calculate_spot_sprice(&a, &state(1, 0, 0)), None);
}

#[test]
fn cap_difference() {
    let asset = state(100 * UNIT, 200 * UNIT, 0);
    // a cap of 40 % of 1000 hub allows 400; 200 are used: half of the reserve again fits
    assert_eq!(
        calculate_cap_difference(&asset, 400_000_000_000_000_000, 1000 * UNIT),
        Some(50 * UNIT)
    );
    // over the cap
    assert_eq!(calculate_cap_difference(&asset, 100_000_000_000_000_000, 1000 * UNIT), Some(0));
    // nothing allowed at all
    assert_eq!(calculate_cap_difference(&asset, 0, 1000 * UNIT), None);
}

#[test]
fn tvl_cap_difference() {
    let asset = state(100 * UNIT, 200 * UNIT, 0);
    let stable = state(500 * UNIT, 250 * UNIT, 0);
    // a cap of 3000 in stable asset is 1500 in hub asset; 1000 are there; 500 more hub are 250 of the asset
    assert_eq!(calculate_tvl_cap_difference(&asset, &stable, 3000 * UNIT, 1000 * UNIT), Some(250 * UNIT));
    assert_eq!(calculate_tvl_cap_difference(&asset, &stable, 1000 * UNIT, 1000 * UNIT), None);
    assert_eq!(calculate_tvl_cap_difference(&asset, &state(0, 1, 0), 3000 * UNIT, 1000 * UNIT), None);
    assert_eq!(calculate_tvl_cap_difference(&state(1, 0, 0), &stable, 3000 * UNIT, 1000 * UNIT), None);
}

#[test]
fn asset_cap() {
    let asset = state(100 * UNIT, 200 * UNIT, 0);
    // (200 + 50) / (1000 + 50) = 0.238...
    assert_eq!(verify_asset_cap(&asset, 250_000_000_000_000_000, 50 * UNIT, 1000 * UNIT), Some(true));
    assert_eq!(verify_asset_cap(&asset, 238_095_238_095_238_095, 50 * UNIT, 1000 * UNIT), Some(true));
    assert_eq!(verify_asset_cap(&asset, 238_095_238_095_238_094, 50 * UNIT, 1000 * UNIT), Some(false));
    assert_eq!(verify_asset_cap(&asset, 1, u128::MAX, 1000 * UNIT), None);
    assert_eq!(verify_asset_cap(&state(1, 0, 0), 1, 0, 0), None);
}

#[test]
fn prices_of_state_and_position() {
    let asset = state(3, 1, 0);
    assert_eq!(asset.price(), Some(FixedU128::from_inner(333_333_333_333_333_333)));
    assert_eq!(state(0, 1, 0).price(), None);
    let position = Position { amount: 1, shares: 1, price: Rational128::from(2, 3) };
    assert_eq!(position.price(), Some(FixedU128::from_inner(666_666_666_666_666_666)));
}

#[test]
fn balance_updates_add_up() {
    assert_eq!(Increase(5).checked_add(Increase(7)), Some(Increase(12)));
    assert_eq!(Decrease(5).checked_add(Decrease(7)), Some(Decrease(12)));
    assert_eq!(Increase(5).checked_add(Decrease(7)), Some(Decrease(2)));
    assert_eq!(Increase(7).checked_add(Decrease(5)), Some(Increase(2)));
    assert_eq!(Decrease(5).checked_add(Increase(7)), Some(Increase(2)));
    assert_eq!(Decrease(7).checked_add(Increase(5)), Some(Decrease(2)));
    assert_eq!(Increase(u128::MAX).checked_add(Increase(1)), None);
    assert_eq!(Decrease(u128::MAX).checked_add(Decrease(1)), None);
    assert_eq!(Increase(u128::MAX).checked_add(Decrease(u128::MAX)), Some(Increase(0)));
}

#[test]
fn balance_updates_apply_to_a_balance() {
    assert_eq!(Increase(5).apply(7), Some(12));
    assert_eq!(Decrease(5).apply(7), Some(2));
    assert_eq!(Decrease(7).apply(5), None);
    assert_eq!(Increase(1).apply(u128::MAX), None);
    assert_eq!(BalanceUpdate::none().apply(9), Some(9));
}

#[test]
fn selling_what_a_purchase_cost_returns_the_purchase() {
    let asset_in = state(10 * UNIT, 20 * UNIT, 10 * UNIT);
    let asset_out = state(5 * UNIT, 5 * UNIT, 20 * UNIT);
    for (asset_fee, protocol_fee) in [(0, 0), (0, 2), (1, 0), (1, 2)] {
        let asset_fee = Permill::from_percent(asset_fee);
        let protocol_fee = Permill::from_percent(protocol_fee);
        for bought in [1, 999, UNIT, 2 * UNIT + 1] {
            let purchase =
                calculate_buy_state_changes(&asset_in, &asset_out, bought, asset_fee, protocol_fee, 0).unwrap();
            let cost = match purchase.asset_in.delta_reserve {
                Increase(cost) => cost,
                Decrease(_) => unreachable!(),
            };
            let sale =
                calculate_sell_state_changes(&asset_in, &asset_out, cost, asset_fee, protocol_fee, 0).unwrap();
            let returned = match sale.asset_out.delta_reserve {
                Decrease(returned) => returned,
                Increase(_) => unreachable!(),
            };
            assert!(returned + 1 >= bought);
            if asset_fee == Permill::zero() {
                assert!(returned >= bought);
            }
        }
    }
}

/// `a * b / c` rounded down, if `c` is not zero and the quotient fits in 128 bits.
fn mul_div(a: u128, b: u128, c: u128) -> Option<u128> {
    if c == 0 {
        return None;
    }
    let product = primitive_types::U128::from(a).full_mul(primitive_types::U128::from(b));
    u128::try_from(product / primitive_types::U256::from(c)).ok()
}

/// A sequence of numbers of mixed sizes, the same on every run.
fn numbers(count: usize) -> Vec<u128> {
    let mut state: u128 = 0x9E37_79B9_7F4A_7C15_F39C_C060_5CED_C835;
    let mut out = Vec::new();
    for i in 0..count {
        state = state.wrapping_mul(0x2545_F491_4F6C_DD1D_0000_0000_0000_0001).wrapping_add(0xB504_F333_F9DE_6485);
        state ^= state >> 43;
        out.push(state >> (i % 8 * 16));
    }
    out
}

#[test]
fn prices_round_down_for_numbers_of_all_sizes() {
    const ONE: u128 = 1_000_000_000_000_000_000;
    let values = numbers(400);
    for quad in values.chunks(4) {
        let a = state(quad[0], quad[1], 0);
        let b = state(quad[2], quad[3], 0);
        let price_a = mul_div(a.hub_reserve, ONE, a.reserve);
        assert_eq!(a.price().map(|p| p.into_inner()), price_a);
        let price_b = mul_div(b.reserve, ONE, b.hub_reserve);
        let expected = match (price_a, price_b) {
            (Some(x), Some(y)) => mul_div(x, y, ONE),
            _ => None,
        };
        assert_eq!(calculate_spot_sprice(&a, &b).map(|p| p.into_inner()), expected);
        assert_eq!(calculate_tvl(quad[0], (quad[1], quad[2])), mul_div(quad[0], quad[1], quad[2]));
        let position = Position { amount: 0, shares: 0, price: Rational128 { n: quad[2], d: quad[3] } };
        assert_eq!(position.price().map(|p| p.into_inner()), mul_div(quad[2], ONE, quad[3]));
    }
}

#[test]
fn fees_round_down_for_numbers_of_all_sizes() {
    let values = numbers(300);
    for pair in values.chunks(2) {
        let hub_reserve = pair[0];
        let parts = (pair[1] % 1_000_001) as u32;
        // all hub asset of an asset without reserve goes for any amount of it
        let asset_in = state(0, hub_reserve, 0);
        let asset_out = state(1, 1, 0);
        let sold = calculate_sell_state_changes(
            &asset_in,
            &asset_out,
            1,
            Permill::zero(),
            Permill::from_parts(parts),
            u128::MAX,
        )
        .unwrap();
        let fee = mul_div(hub_reserve, u128::from(parts), 1_000_000).unwrap();
        assert_eq!(sold.asset_in.delta_hub_reserve, Decrease(hub_reserve));
        assert_eq!(sold.delta_imbalance, Decrease(fee));
        assert_eq!(sold.asset_out.delta_hub_reserve, Increase(hub_reserve - fee));
    }
}

#[test]
fn a_purchase_costs_more_than_any_amount_that_sells_for_less() {
    let asset_in = state(1000, 500, 0);
    let asset_out = state(2000, 1000, 0);
    let none = Permill::zero();
    // 86 of the asset bought cost 99; the sale of 98 returns 84, that of 99 returns 86
    let purchase = calculate_buy_state_changes(&asset_in, &asset_out, 86, none, none, 0).unwrap();
    assert_eq!(purchase.asset_in.delta_reserve, Increase(99));
    for amount in 1..200 {
        let sale = calculate_sell_state_changes(&asset_in, &asset_out, amount, none, none, 0).unwrap();
        let returned = match sale.asset_out.delta_reserve {
            Decrease(returned) => returned,
            Increase(_) => unreachable!(),
        };
        if returned < 86 {
            assert!(amount < 99);
        }
        if amount >= 99 {
            assert!(returned >= 86);
        }
    }
}
