//! Trades and liquidity changes of the omnipool, as deltas to apply.

use crate::arith::lemma_part_of_whole;
use crate::fixed::mul_div_floor;
use crate::fixed::FixedU128;
use crate::fixed::Permill;
use crate::fixed::FIXED_DIV;
use crate::fixed::PERMILL_DIV;
use crate::omnipool::types::no_change;
use crate::omnipool::types::AssetReserveState;
use crate::omnipool::types::AssetStateChange;
use crate::omnipool::types::BalanceUpdate;
use crate::omnipool::types::HubTradeStateChange;
use crate::omnipool::types::LiquidityStateChange;
use crate::omnipool::types::Position;
use crate::omnipool::types::TradeStateChange;
use crate::omnipool::types::I129;
use crate::types::Balance;
use crate::wide::lemma_mul_fits_256;
use crate::wide::lemma_mul_le;
use crate::wide::pow2_128;
use crate::wide::pow2_256;
use crate::wide::U256;
use vstd::prelude::*;

verus! {

/// `num / den` rounded down, as a balance: `None` when `den` is zero or the
/// quotient does not fit in 128 bits.
pub open spec fn quot(num: int, den: int) -> Option<int> {
    if den == 0 || num / den > u128::MAX {
        None
    } else {
        Some(num / den)
    }
}

/// What is left of `amount` after the fee `fee` is taken, rounded down.
pub open spec fn without_fee(amount: int, fee: Permill) -> int {
    amount * (PERMILL_DIV - fee@) / (PERMILL_DIV as int)
}

/// This part of an amount is never more than the amount.
pub proof fn lemma_part_le(x: int, parts: int)
    requires
        0 <= x,
        0 <= parts <= PERMILL_DIV,
    ensures
        0 <= x * parts / (PERMILL_DIV as int) <= x,
{
    assert(0 <= x * parts <= x * 1_000_000) by (nonlinear_arith)
        requires
            0 <= x,
            0 <= parts <= 1_000_000,
    ;
    vstd::arithmetic::div_mod::lemma_div_is_ordered(x * parts, x * 1_000_000, 1_000_000);
    vstd::arithmetic::div_mod::lemma_div_multiples_vanish(x, 1_000_000);
    vstd::arithmetic::mul::lemma_mul_is_commutative(x, 1_000_000);
    vstd::arithmetic::div_mod::lemma_div_pos_is_pos(x * parts, 1_000_000);
}

/// What is left of `amount` after the fee is taken.
fn amount_without_fee(amount: Balance, fee: Permill) -> (r: Balance)
    requires
        fee.wf(),
    ensures
        r == without_fee(amount as int, fee),
        r <= amount,
{
    proof {
        lemma_part_le(amount as int, PERMILL_DIV - fee@);
    }
    fee.complement().mul_floor(amount)
}

/// `a * b / (c + d)` in 256 bits, brought back to a balance.
fn mul_div_sum(a: Balance, b: Balance, c: Balance, d: Balance) -> (r: Option<Balance>)
    ensures
        r.is_some() == quot(a * b, c + d).is_some(),
        r.is_some() ==> r.unwrap() == quot(a * b, c + d).unwrap(),
{
    proof {
        lemma_mul_fits_256(a as int, b as int);
    }
    let num = U256::from_u128(a).checked_mul(U256::from_u128(b))?;
    let den = U256::from_u128(c).checked_add(U256::from_u128(d))?;
    let q = num.checked_div(den)?;
    q.to_u128()
}

/// The deltas of selling `amount` of one asset for another: see
/// [`calculate_sell_state_changes`].
pub open spec fn sell_state_changes(
    asset_in_state: AssetReserveState,
    asset_out_state: AssetReserveState,
    amount: Balance,
    asset_fee: Permill,
    protocol_fee: Permill,
    imbalance: Balance,
) -> Option<TradeStateChange> {
    let hub_in = quot(amount * asset_in_state.hub_reserve, asset_in_state.reserve + amount);
    if hub_in.is_none() {
        None
    } else {
        let delta_hub_in = hub_in.unwrap();
        let protocol_fee_amount = delta_hub_in * protocol_fee@ / (PERMILL_DIV as int);
        let delta_hub_out = delta_hub_in - protocol_fee_amount;
        let out = quot(
            asset_out_state.reserve * delta_hub_out,
            asset_out_state.hub_reserve + delta_hub_out,
        );
        if out.is_none() {
            None
        } else {
            let delta_out = without_fee(out.unwrap(), asset_fee);
            let delta_imbalance = if protocol_fee_amount <= imbalance {
                protocol_fee_amount
            } else {
                imbalance as int
            };
            Some(
                TradeStateChange {
                    asset_in: AssetStateChange {
                        delta_reserve: BalanceUpdate::Increase(amount),
                        delta_hub_reserve: BalanceUpdate::Decrease(delta_hub_in as u128),
                        delta_shares: no_change(),
                        delta_protocol_shares: no_change(),
                    },
                    asset_out: AssetStateChange {
                        delta_reserve: BalanceUpdate::Decrease(delta_out as u128),
                        delta_hub_reserve: BalanceUpdate::Increase(delta_hub_out as u128),
                        delta_shares: no_change(),
                        delta_protocol_shares: no_change(),
                    },
                    delta_imbalance: BalanceUpdate::Decrease(delta_imbalance as u128),
                    hdx_hub_amount: (protocol_fee_amount - delta_imbalance) as u128,
                },
            )
        }
    }
}

/// A sale takes no more hub asset from the asset sold than backs it, passes
/// on no more hub asset than it took, and pays out no more than the pool
/// holds of the asset bought.
pub proof fn lemma_sale_within_reserves(
    asset_in_state: AssetReserveState,
    asset_out_state: AssetReserveState,
    amount: Balance,
    asset_fee: Permill,
    protocol_fee: Permill,
    imbalance: Balance,
)
    requires
        asset_fee.wf(),
        protocol_fee.wf(),
        sell_state_changes(
            asset_in_state,
            asset_out_state,
            amount,
            asset_fee,
            protocol_fee,
            imbalance,
        ).is_some(),
    ensures
        ({
            let change = sell_state_changes(
                asset_in_state,
                asset_out_state,
                amount,
                asset_fee,
                protocol_fee,
                imbalance,
            ).unwrap();
            &&& 0 <= -change.asset_in.delta_hub_reserve.signed() <= asset_in_state.hub_reserve
            &&& 0 <= change.asset_out.delta_hub_reserve.signed()
                <= -change.asset_in.delta_hub_reserve.signed()
            &&& 0 <= -change.asset_out.delta_reserve.signed() <= asset_out_state.reserve
            &&& -change.asset_in.delta_hub_reserve.signed()
                == change.asset_out.delta_hub_reserve.signed() - change.delta_imbalance.signed()
                + change.hdx_hub_amount
        }),
{
    let hub_in = amount * asset_in_state.hub_reserve / (asset_in_state.reserve + amount);
    lemma_part_of_whole(
        asset_in_state.hub_reserve as int,
        amount as int,
        asset_in_state.reserve + amount,
    );
    vstd::arithmetic::mul::lemma_mul_is_commutative(
        amount as int,
        asset_in_state.hub_reserve as int,
    );
    lemma_part_le(hub_in, protocol_fee@);
    let hub_out = hub_in - hub_in * protocol_fee@ / (PERMILL_DIV as int);
    lemma_part_of_whole(
        asset_out_state.reserve as int,
        hub_out,
        asset_out_state.hub_reserve + hub_out,
    );
    let out = asset_out_state.reserve * hub_out / (asset_out_state.hub_reserve + hub_out);
    lemma_part_le(out, PERMILL_DIV - asset_fee@);
}

/// Calculate delta changes of a sell trade given current state of asset in and out.
///
/// The asset sold goes in at the pool's price for it in hub asset; the
/// protocol fee is taken of the hub amount; what is left buys the other asset,
/// of which the asset fee is kept back. Every division rounds down, so the
/// pool never pays out more than it holds.
pub fn calculate_sell_state_changes(
    asset_in_state: &AssetReserveState,
    asset_out_state: &AssetReserveState,
    amount: Balance,
    asset_fee: Permill,
    protocol_fee: Permill,
    imbalance: Balance,
) -> (r: Option<TradeStateChange>)
    requires
        asset_fee.wf(),
        protocol_fee.wf(),
    ensures
        r == sell_state_changes(
            *asset_in_state,
            *asset_out_state,
            amount,
            asset_fee,
            protocol_fee,
            imbalance,
        ),
        r.is_some() ==> -r.unwrap().asset_out.delta_reserve.signed() <= asset_out_state.reserve,
        r.is_some() ==> -r.unwrap().asset_in.delta_hub_reserve.signed() <= asset_in_state.hub_reserve,
{
    proof {
        if sell_state_changes(
            *asset_in_state,
            *asset_out_state,
            amount,
            asset_fee,
            protocol_fee,
            imbalance,
        ).is_some() {
            lemma_sale_within_reserves(
                *asset_in_state,
                *asset_out_state,
                amount,
                asset_fee,
                protocol_fee,
                imbalance,
            );
        }
    }
    let delta_hub_reserve_in = mul_div_sum(
        amount,
        asset_in_state.hub_reserve,
        asset_in_state.reserve,
        amount,
    )?;

    proof {
        lemma_part_le(delta_hub_reserve_in as int, protocol_fee@);
    }
    let protocol_fee_amount = protocol_fee.mul_floor(delta_hub_reserve_in);
    let delta_hub_reserve_out = delta_hub_reserve_in.checked_sub(protocol_fee_amount)?;

    let delta_reserve_out = mul_div_sum(
        asset_out_state.reserve,
        delta_hub_reserve_out,
        asset_out_state.hub_reserve,
        delta_hub_reserve_out,
    )?;
    let delta_reserve_out = amount_without_fee(delta_reserve_out, asset_fee);

    let delta_imbalance = if protocol_fee_amount <= imbalance {
        protocol_fee_amount
    } else {
        imbalance
    };
    let hdx_fee_amount = protocol_fee_amount.checked_sub(delta_imbalance)?;

    Some(
        TradeStateChange {
            asset_in: AssetStateChange {
                delta_reserve: BalanceUpdate::Increase(amount),
                delta_hub_reserve: BalanceUpdate::Decrease(delta_hub_reserve_in),
                delta_shares: BalanceUpdate::none(),
                delta_protocol_shares: BalanceUpdate::none(),
            },
            asset_out: AssetStateChange {
                delta_reserve: BalanceUpdate::Decrease(delta_reserve_out),
                delta_hub_reserve: BalanceUpdate::Increase(delta_hub_reserve_out),
                delta_shares: BalanceUpdate::none(),
                delta_protocol_shares: BalanceUpdate::none(),
            },
            delta_imbalance: BalanceUpdate::Decrease(delta_imbalance),
            hdx_hub_amount: hdx_fee_amount,
        },
    )
}

/// `n / d` as a raw fixed-point value, rounded down.
pub open spec fn ratio(n: int, d: int) -> Option<int> {
    mul_div_floor(n, FIXED_DIV as int, d)
}

/// The product of two raw fixed-point values, rounded down.
pub open spec fn fixed_mul(a: Option<int>, b: Option<int>) -> Option<int> {
    if a.is_some() && b.is_some() {
        mul_div_floor(a.unwrap(), b.unwrap(), FIXED_DIV as int)
    } else {
        None
    }
}

/// A raw fixed-point value times an integer, rounded down to an integer.
pub open spec fn fixed_mul_int(a: Option<int>, n: int) -> Option<int> {
    if a.is_some() {
        mul_div_floor(a.unwrap(), n, FIXED_DIV as int)
    } else {
        None
    }
}

/// A raw fixed-point value raised by the smallest step.
pub open spec fn next_up(a: Option<int>) -> Option<int> {
    if a.is_some() && a.unwrap() + 1 <= u128::MAX {
        Some(a.unwrap() + 1)
    } else {
        None
    }
}

/// By how much the imbalance shrinks in a swap of hub asset for an asset: see
/// [`calculate_imbalance_in_hub_swap`].
pub open spec fn imbalance_in_hub_swap(
    total_hub_reserve: Balance,
    asset_reserve: Balance,
    asset_hub_reserve: Balance,
    delta_reserve: Balance,
    delta_hub_reserve: Balance,
    imbalance: I129,
) -> Option<int> {
    let q_plus = total_hub_reserve + delta_hub_reserve;
    let r_i_plus = asset_reserve - delta_reserve;
    let q_i_plus = asset_hub_reserve + delta_hub_reserve;
    if q_plus > u128::MAX || r_i_plus < 0 || q_i_plus > u128::MAX {
        None
    } else {
        let x1 = ratio(r_i_plus, asset_reserve as int);
        let x2 = ratio(asset_hub_reserve as int, q_i_plus);
        let y2 = ratio(q_plus, total_hub_reserve as int);
        let x = fixed_mul_int(fixed_mul(x1, x2), q_plus);
        let y = fixed_mul_int(
            fixed_mul(fixed_mul(next_up(x1), next_up(x2)), next_up(y2)),
            imbalance.value as int,
        );
        if x.is_none() || y.is_none() {
            None
        } else {
            let x = x.unwrap();
            let y = y.unwrap() + 1;
            let imbalance_plus = q_plus - (x - y);
            if y > u128::MAX || x < y || imbalance_plus < 0 || imbalance_plus < imbalance.value {
                None
            } else {
                Some(imbalance_plus - imbalance.value)
            }
        }
    }
}

/// The change of imbalance when hub asset is swapped for an asset.
///
/// With `Q` the hub asset in the pool, `R` and `Qi` the asset's two reserves
/// and `L` the imbalance, the new imbalance is
/// `Q+ - (Q+ * (R+/R) * (Qi/Qi+) - L * (R+/R) * (Qi/Qi+) * (Q+/Q) - 1)`.
/// In the first product every ratio is rounded down, in the second each is
/// raised by one step of the fixed-point scale.
fn calculate_imbalance_in_hub_swap(
    total_hub_reserve: Balance,
    asset_reserve: Balance,
    asset_hub_reserve: Balance,
    delta_reserve: Balance,
    delta_hub_reserve: Balance,
    imbalance: I129,
) -> (r: Option<Balance>)
    ensures
        r.is_some() == imbalance_in_hub_swap(
            total_hub_reserve,
            asset_reserve,
            asset_hub_reserve,
            delta_reserve,
            delta_hub_reserve,
            imbalance,
        ).is_some(),
        r.is_some() ==> r.unwrap() == imbalance_in_hub_swap(
            total_hub_reserve,
            asset_reserve,
            asset_hub_reserve,
            delta_reserve,
            delta_hub_reserve,
            imbalance,
        ).unwrap(),
{
    let q = total_hub_reserve;
    let r_i = asset_reserve;
    let q_i = asset_hub_reserve;

    let q_plus = total_hub_reserve.checked_add(delta_hub_reserve)?;
    let r_i_plus = r_i.checked_sub(delta_reserve)?;
    let q_i_plus = q_i.checked_add(delta_hub_reserve)?;

    let imbalance_value = imbalance.value;

    let x1_down = FixedU128::checked_from_rational(r_i_plus, r_i)?;
    let x2_down = FixedU128::checked_from_rational(q_i, q_i_plus)?;

    let step = FixedU128::checked_from_rational(1, FIXED_DIV)?;
    assert(step@ == 1);
    let x1_up = x1_down.checked_add(step)?;
    let x2_up = x2_down.checked_add(step)?;
    let y2_up = FixedU128::checked_from_rational(q_plus, q)?.checked_add(step)?;

    let x = x1_down.checked_mul(x2_down)?.checked_mul_int(q_plus)?;
    let y = x1_up.checked_mul(x2_up)?.checked_mul(y2_up)?.checked_mul_int(
        imbalance_value,
    )?.checked_add(1u128)?;

    let imbalance_plus = q_plus.checked_sub(x.checked_sub(y)?)?;

    let delta_imbalance = imbalance_plus.checked_sub(imbalance_value)?;

    Some(delta_imbalance)
}

/// A change that touches only the two reserves of an asset.
pub open spec fn reserves_change(
    delta_reserve: BalanceUpdate,
    delta_hub_reserve: BalanceUpdate,
) -> AssetStateChange {
    AssetStateChange {
        delta_reserve,
        delta_hub_reserve,
        delta_shares: no_change(),
        delta_protocol_shares: no_change(),
    }
}

/// The deltas of selling hub asset for an asset: see
/// [`calculate_sell_hub_state_changes`].
pub open spec fn sell_hub_state_changes(
    asset_out_state: AssetReserveState,
    hub_asset_amount: Balance,
    asset_fee: Permill,
    imbalance: I129,
    total_hub_reserve: Balance,
) -> Option<HubTradeStateChange> {
    let out = quot(
        asset_out_state.reserve * hub_asset_amount,
        asset_out_state.hub_reserve + hub_asset_amount,
    );
    if out.is_none() {
        None
    } else {
        let delta_out = without_fee(out.unwrap(), asset_fee) as u128;
        let delta_imbalance = imbalance_in_hub_swap(
            total_hub_reserve,
            asset_out_state.reserve,
            asset_out_state.hub_reserve,
            delta_out,
            hub_asset_amount,
            imbalance,
        );
        if delta_imbalance.is_none() {
            None
        } else {
            Some(
                HubTradeStateChange {
                    asset: reserves_change(
                        BalanceUpdate::Decrease(delta_out),
                        BalanceUpdate::Increase(hub_asset_amount),
                    ),
                    delta_imbalance: BalanceUpdate::Decrease(delta_imbalance.unwrap() as u128),
                },
            )
        }
    }
}

/// Calculate delta changes of a sell where asset_in is Hub Asset
///
/// The hub asset buys the asset at the pool's price, rounded down, and the
/// asset fee is kept back of what comes out.
pub fn calculate_sell_hub_state_changes(
    asset_out_state: &AssetReserveState,
    hub_asset_amount: Balance,
    asset_fee: Permill,
    imbalance: I129,
    total_hub_reserve: Balance,
) -> (r: Option<HubTradeStateChange>)
    requires
        asset_fee.wf(),
    ensures
        r == sell_hub_state_changes(
            *asset_out_state,
            hub_asset_amount,
            asset_fee,
            imbalance,
            total_hub_reserve,
        ),
{
    let delta_reserve_out = mul_div_sum(
        asset_out_state.reserve,
        hub_asset_amount,
        asset_out_state.hub_reserve,
        hub_asset_amount,
    )?;
    let delta_reserve_out = amount_without_fee(delta_reserve_out, asset_fee);

    let delta_imbalance = calculate_imbalance_in_hub_swap(
        total_hub_reserve,
        asset_out_state.reserve,
        asset_out_state.hub_reserve,
        delta_reserve_out,
        hub_asset_amount,
        imbalance,
    )?;

    Some(
        HubTradeStateChange {
            asset: AssetStateChange {
                delta_reserve: BalanceUpdate::Decrease(delta_reserve_out),
                delta_hub_reserve: BalanceUpdate::Increase(hub_asset_amount),
                delta_shares: BalanceUpdate::none(),
                delta_protocol_shares: BalanceUpdate::none(),
            },
            delta_imbalance: BalanceUpdate::Decrease(delta_imbalance),
        },
    )
}

/// `a * b / d + 1` in 256 bits, brought back to a balance.
pub open spec fn quot_up(num: int, den: int) -> Option<int> {
    if den == 0 || num / den + 1 > u128::MAX {
        None
    } else {
        Some(num / den + 1)
    }
}

/// The deltas of buying an asset with hub asset: see
/// [`calculate_buy_for_hub_asset_state_changes`].
pub open spec fn buy_for_hub_asset_state_changes(
    asset_out_state: AssetReserveState,
    asset_out_amount: Balance,
    asset_fee: Permill,
    imbalance: I129,
    total_hub_reserve: Balance,
) -> Option<HubTradeStateChange> {
    let hub_denominator = without_fee(asset_out_state.reserve as int, asset_fee) - asset_out_amount;
    let hub = quot_up(asset_out_state.hub_reserve * asset_out_amount, hub_denominator);
    if hub_denominator < 0 || hub.is_none() {
        None
    } else {
        let delta_hub = hub.unwrap() as u128;
        let delta_imbalance = imbalance_in_hub_swap(
            total_hub_reserve,
            asset_out_state.reserve,
            asset_out_state.hub_reserve,
            asset_out_amount,
            delta_hub,
            imbalance,
        );
        if delta_imbalance.is_none() {
            None
        } else {
            Some(
                HubTradeStateChange {
                    asset: reserves_change(
                        BalanceUpdate::Decrease(asset_out_amount),
                        BalanceUpdate::Increase(delta_hub),
                    ),
                    delta_imbalance: BalanceUpdate::Decrease(delta_imbalance.unwrap() as u128),
                },
            )
        }
    }
}

/// Calculate delta changes of a buy trade where asset_in is Hub Asset
///
/// The hub asset needed is the pool's price for the amount, taken on the
/// reserve less the asset fee, rounded down and then raised by one so that
/// the pool is never underpaid.
pub fn calculate_buy_for_hub_asset_state_changes(
    asset_out_state: &AssetReserveState,
    asset_out_amount: Balance,
    asset_fee: Permill,
    imbalance: I129,
    total_hub_reserve: Balance,
) -> (r: Option<HubTradeStateChange>)
    requires
        asset_fee.wf(),
    ensures
        r == buy_for_hub_asset_state_changes(
            *asset_out_state,
            asset_out_amount,
            asset_fee,
            imbalance,
            total_hub_reserve,
        ),
{
    let hub_denominator = amount_without_fee(asset_out_state.reserve, asset_fee).checked_sub(
        asset_out_amount,
    )?;

    proof {
        lemma_mul_fits_256(asset_out_state.hub_reserve as int, asset_out_amount as int);
    }
    let product = U256::from_u128(asset_out_state.hub_reserve).checked_mul(
        U256::from_u128(asset_out_amount),
    )?;
    let quotient = product.checked_div(U256::from_u128(hub_denominator))?;
    proof {
        vstd::arithmetic::div_mod::lemma_div_nonincreasing(product@, hub_denominator as int);
        vstd::arithmetic::div_mod::lemma_div_pos_is_pos(product@, hub_denominator as int);
    }
    let delta_hub_reserve_hp = quotient.checked_add(U256::one())?;

    let delta_hub_reserve = delta_hub_reserve_hp.to_u128()?;

    let delta_imbalance = calculate_imbalance_in_hub_swap(
        total_hub_reserve,
        asset_out_state.reserve,
        asset_out_state.hub_reserve,
        asset_out_amount,
        delta_hub_reserve,
        imbalance,
    )?;

    Some(
        HubTradeStateChange {
            asset: AssetStateChange {
                delta_reserve: BalanceUpdate::Decrease(asset_out_amount),
                delta_hub_reserve: BalanceUpdate::Increase(delta_hub_reserve),
                delta_shares: BalanceUpdate::none(),
                delta_protocol_shares: BalanceUpdate::none(),
            },
            delta_imbalance: BalanceUpdate::Decrease(delta_imbalance),
        },
    )
}

/// The deltas of buying `amount` of one asset with another: see
/// [`calculate_buy_state_changes`].
pub open spec fn buy_state_changes(
    asset_in_state: AssetReserveState,
    asset_out_state: AssetReserveState,
    amount: Balance,
    asset_fee: Permill,
    protocol_fee: Permill,
    imbalance: Balance,
) -> Option<TradeStateChange> {
    let reserve_no_fee = without_fee(asset_out_state.reserve as int, asset_fee);
    let hub_out = quot_up(asset_out_state.hub_reserve * amount, reserve_no_fee - amount);
    if reserve_no_fee < amount || hub_out.is_none() {
        None
    } else {
        let delta_hub_out = hub_out.unwrap();
        let hub_in = mul_div_floor(
            delta_hub_out,
            FIXED_DIV as int,
            (PERMILL_DIV - protocol_fee@) * 1_000_000_000_000,
        );
        if hub_in.is_none() || hub_in.unwrap() >= asset_in_state.hub_reserve {
            None
        } else {
            let delta_hub_in = hub_in.unwrap();
            let reserve_in = quot_up(
                asset_in_state.reserve * delta_hub_in,
                asset_in_state.hub_reserve - delta_hub_in,
            );
            if reserve_in.is_none() {
                None
            } else {
                let protocol_fee_amount = delta_hub_in * protocol_fee@ / (PERMILL_DIV as int);
                let delta_imbalance = if protocol_fee_amount <= imbalance {
                    protocol_fee_amount
                } else {
                    imbalance as int
                };
                Some(
                    TradeStateChange {
                        asset_in: reserves_change(
                            BalanceUpdate::Increase(reserve_in.unwrap() as u128),
                            BalanceUpdate::Decrease(delta_hub_in as u128),
                        ),
                        asset_out: reserves_change(
                            BalanceUpdate::Decrease(amount),
                            BalanceUpdate::Increase(delta_hub_out as u128),
                        ),
                        delta_imbalance: BalanceUpdate::Decrease(delta_imbalance as u128),
                        hdx_hub_amount: (protocol_fee_amount - delta_imbalance) as u128,
                    },
                )
            }
        }
    }
}

/// `a * b / (c - d) + 1`, brought back to a balance; the division is done in
/// 256 bits.
fn mul_div_diff_up(a: Balance, b: Balance, c: Balance, d: Balance) -> (r: Option<Balance>)
    ensures
        c < d ==> r.is_none(),
        c >= d ==> r.is_some() == quot_up(a * b, c - d).is_some(),
        c >= d && r.is_some() ==> r.unwrap() == quot_up(a * b, c - d).unwrap(),
{
    proof {
        lemma_mul_fits_256(a as int, b as int);
    }
    let num = U256::from_u128(a).checked_mul(U256::from_u128(b))?;
    let den = U256::from_u128(c).checked_sub(U256::from_u128(d))?;
    let q = num.checked_div(den)?;
    q.to_u128()?.checked_add(1u128)
}

/// Calculate delta changes of a buy trade given current state of asset in and out
///
/// The inverse of a sell. The hub amount that the bought asset costs and the
/// amount of the asset given for it are each rounded down and then raised
/// by one, so that the pool is never underpaid. `None` if the hub amount
/// needed is not less than the hub reserve of the asset given.
pub fn calculate_buy_state_changes(
    asset_in_state: &AssetReserveState,
    asset_out_state: &AssetReserveState,
    amount: Balance,
    asset_fee: Permill,
    protocol_fee: Permill,
    imbalance: Balance,
) -> (r: Option<TradeStateChange>)
    requires
        asset_fee.wf(),
        protocol_fee.wf(),
    ensures
        r == buy_state_changes(
            *asset_in_state,
            *asset_out_state,
            amount,
            asset_fee,
            protocol_fee,
            imbalance,
        ),
{
    let reserve_no_fee = amount_without_fee(asset_out_state.reserve, asset_fee);
    let delta_hub_reserve_out = mul_div_diff_up(
        asset_out_state.hub_reserve,
        amount,
        reserve_no_fee,
        amount,
    )?;

    // Negative
    let delta_hub_reserve_in: Balance = FixedU128::from_inner(delta_hub_reserve_out).checked_div(
        protocol_fee.complement().to_fixed(),
    )?.into_inner();

    if delta_hub_reserve_in >= asset_in_state.hub_reserve {
        return None;
    }
    let delta_reserve_in = mul_div_diff_up(
        asset_in_state.reserve,
        delta_hub_reserve_in,
        asset_in_state.hub_reserve,
        delta_hub_reserve_in,
    )?;

    // Fee accounting and imbalance
    proof {
        lemma_part_le(delta_hub_reserve_in as int, protocol_fee@);
    }
    let protocol_fee_amount = protocol_fee.mul_floor(delta_hub_reserve_in);
    let delta_imbalance = if protocol_fee_amount <= imbalance {
        protocol_fee_amount
    } else {
        imbalance
    };

    let hdx_fee_amount = protocol_fee_amount.checked_sub(delta_imbalance)?;

    Some(
        TradeStateChange {
            asset_in: AssetStateChange {
                delta_reserve: BalanceUpdate::Increase(delta_reserve_in),
                delta_hub_reserve: BalanceUpdate::Decrease(delta_hub_reserve_in),
                delta_shares: BalanceUpdate::none(),
                delta_protocol_shares: BalanceUpdate::none(),
            },
            asset_out: AssetStateChange {
                delta_reserve: BalanceUpdate::Decrease(amount),
                delta_hub_reserve: BalanceUpdate::Increase(delta_hub_reserve_out),
                delta_shares: BalanceUpdate::none(),
                delta_protocol_shares: BalanceUpdate::none(),
            },
            delta_imbalance: BalanceUpdate::Decrease(delta_imbalance),
            hdx_hub_amount: hdx_fee_amount,
        },
    )
}

/// By how much the imbalance changes when `delta_hub_reserve` of hub asset
/// enters or leaves with liquidity: see [`calculate_delta_imbalance`].
pub open spec fn delta_imbalance(
    delta_hub_reserve: Balance,
    imbalance: I129,
    hub_reserve: Balance,
) -> Option<int> {
    if imbalance.value == 0 {
        Some(0)
    } else if !imbalance.negative {
        None
    } else {
        quot(delta_hub_reserve * imbalance.value, hub_reserve as int)
    }
}

/// `a * b / c`, brought back to a balance; the division is done in 256 bits.
fn mul_div(a: Balance, b: Balance, c: Balance) -> (r: Option<Balance>)
    ensures
        r.is_some() == quot(a * b, c as int).is_some(),
        r.is_some() ==> r.unwrap() == quot(a * b, c as int).unwrap(),
{
    proof {
        lemma_mul_fits_256(a as int, b as int);
    }
    let num = U256::from_u128(a).checked_mul(U256::from_u128(b))?;
    let q = num.checked_div(U256::from_u128(c))?;
    q.to_u128()
}

/// Calculate delta imbalance given delta hub reserve to be added to pool
///
/// The imbalance changes in the proportion of the hub asset moved to the hub
/// asset in the pool, rounded down. Zero for no imbalance; `None` for a
/// positive one.
pub fn calculate_delta_imbalance(
    delta_hub_reserve: Balance,
    imbalance: I129,
    hub_reserve: Balance,
) -> (r: Option<Balance>)
    ensures
        r.is_some() == delta_imbalance(delta_hub_reserve, imbalance, hub_reserve).is_some(),
        r.is_some() ==> r.unwrap() == delta_imbalance(
            delta_hub_reserve,
            imbalance,
            hub_reserve,
        ).unwrap(),
{
    if imbalance.value == 0 {
        return Some(0);
    }
    if !imbalance.negative {
        // currently support only negative imbalances
        return None;
    }
    mul_div(delta_hub_reserve, imbalance.value, hub_reserve)
}

/// The deltas of adding `amount` of an asset as liquidity: see
/// [`calculate_add_liquidity_state_changes`].
pub open spec fn add_liquidity_state_changes(
    asset_state: AssetReserveState,
    amount: Balance,
    imbalance: I129,
    total_hub_reserve: Balance,
) -> Option<LiquidityStateChange> {
    let hub = fixed_mul_int(asset_state.spec_price(), amount as int);
    let shares = quot(asset_state.shares * amount, asset_state.reserve as int);
    if hub.is_none() || shares.is_none() {
        None
    } else {
        let delta_hub = hub.unwrap() as u128;
        let imb = delta_imbalance(delta_hub, imbalance, total_hub_reserve);
        if imb.is_none() {
            None
        } else {
            Some(
                LiquidityStateChange {
                    asset: AssetStateChange {
                        delta_reserve: BalanceUpdate::Increase(amount),
                        delta_hub_reserve: BalanceUpdate::Increase(delta_hub),
                        delta_shares: BalanceUpdate::Increase(shares.unwrap() as u128),
                        delta_protocol_shares: no_change(),
                    },
                    delta_imbalance: BalanceUpdate::Decrease(imb.unwrap() as u128),
                    delta_position_reserve: no_change(),
                    delta_position_shares: no_change(),
                    lp_hub_amount: 0,
                },
            )
        }
    }
}

/// Calculate delta changes of add liqudiity given current asset state
///
/// The hub asset minted is `amount` at the spot price; the shares issued are
/// in the proportion of `amount` to the reserve. Both round down.
pub fn calculate_add_liquidity_state_changes(
    asset_state: &AssetReserveState,
    amount: Balance,
    imbalance: I129,
    total_hub_reserve: Balance,
) -> (r: Option<LiquidityStateChange>)
    ensures
        r == add_liquidity_state_changes(*asset_state, amount, imbalance, total_hub_reserve),
{
    let delta_hub_reserve = asset_state.price()?.checked_mul_int(amount)?;

    let delta_shares = mul_div(asset_state.shares, amount, asset_state.reserve);

    let delta_imbalance = calculate_delta_imbalance(delta_hub_reserve, imbalance, total_hub_reserve);
    if delta_shares.is_none() || delta_imbalance.is_none() {
        return None;
    }
    Some(
        LiquidityStateChange {
            asset: AssetStateChange {
                delta_reserve: BalanceUpdate::Increase(amount),
                delta_hub_reserve: BalanceUpdate::Increase(delta_hub_reserve),
                delta_shares: BalanceUpdate::Increase(delta_shares.unwrap()),
                delta_protocol_shares: BalanceUpdate::none(),
            },
            delta_imbalance: BalanceUpdate::Decrease(delta_imbalance.unwrap()),
            delta_position_reserve: BalanceUpdate::none(),
            delta_position_shares: BalanceUpdate::none(),
            lp_hub_amount: 0,
        },
    )
}

/// The value of all hub asset in the pool, in the stable asset: see
/// [`calculate_tvl`].
pub open spec fn tvl(hub_reserve: Balance, stable_asset: (Balance, Balance)) -> Option<int> {
    quot(hub_reserve * stable_asset.0, stable_asset.1 as int)
}

/// The total value locked: the hub asset in the pool at the price of the
/// stable asset, given as its reserve and its hub reserve. Rounds down;
/// `None` if the stable asset has no hub reserve or the value does not fit.
pub fn calculate_tvl(hub_reserve: Balance, stable_asset: (Balance, Balance)) -> (r: Option<
    Balance,
>)
    ensures
        r.is_some() == tvl(hub_reserve, stable_asset).is_some(),
        r.is_some() ==> r.unwrap() == tvl(hub_reserve, stable_asset).unwrap(),
{
    mul_div(hub_reserve, stable_asset.0, stable_asset.1)
}

/// The price of asset `a` in asset `b` as a raw fixed-point value: see
/// [`calculate_spot_sprice`].
pub open spec fn spot_sprice(asset_a: AssetReserveState, asset_b: AssetReserveState) -> Option<
    int,
> {
    fixed_mul(
        ratio(asset_a.hub_reserve as int, asset_a.reserve as int),
        ratio(asset_b.reserve as int, asset_b.hub_reserve as int),
    )
}

/// The spot price of one asset in another: the price of the first in hub
/// asset times the price of hub asset in the second, each rounded down.
pub fn calculate_spot_sprice(asset_a: &AssetReserveState, asset_b: &AssetReserveState) -> (r:
    Option<FixedU128>)
    ensures
        r.is_some() == spot_sprice(*asset_a, *asset_b).is_some(),
        r.is_some() ==> r.unwrap()@ == spot_sprice(*asset_a, *asset_b).unwrap(),
{
    let price_a = FixedU128::checked_from_rational(asset_a.hub_reserve, asset_a.reserve)?;
    let price_b = FixedU128::checked_from_rational(asset_b.reserve, asset_b.hub_reserve)?;
    price_a.checked_mul(price_b)
}

/// How much of an asset can still be added under its weight cap: see
/// [`calculate_cap_difference`].
pub open spec fn cap_difference(
    asset: AssetReserveState,
    asset_cap: u128,
    total_hub_reserve: Balance,
) -> Option<int> {
    let max_allowed = mul_div_floor(asset_cap as int, total_hub_reserve as int, FIXED_DIV as int);
    if max_allowed.is_none() {
        None
    } else {
        let p = ratio(asset.hub_reserve as int, max_allowed.unwrap());
        if p.is_none() {
            None
        } else if p.unwrap() > FIXED_DIV {
            Some(0)
        } else {
            mul_div_floor(FIXED_DIV - p.unwrap(), asset.reserve as int, FIXED_DIV as int)
        }
    }
}

/// The amount of an asset that its weight cap still leaves room for.
/// `asset_cap` is the cap as a raw fixed-point share of all hub asset. Zero
/// if the asset is over its cap.
pub fn calculate_cap_difference(
    asset: &AssetReserveState,
    asset_cap: u128,
    total_hub_reserve: Balance,
) -> (r: Option<Balance>)
    ensures
        r.is_some() == cap_difference(*asset, asset_cap, total_hub_reserve).is_some(),
        r.is_some() ==> r.unwrap() == cap_difference(*asset, asset_cap, total_hub_reserve).unwrap(),
{
    let weight_cap = FixedU128::from_inner(asset_cap);
    let max_allowed = weight_cap.checked_mul_int(total_hub_reserve)?;
    let p = FixedU128::checked_from_rational(asset.hub_reserve, max_allowed)?;
    if p.into_inner() > FixedU128::one().into_inner() {
        Some(0)
    } else {
        FixedU128::one().checked_sub(p)?.checked_mul_int(asset.reserve)
    }
}

/// How much of an asset can still be added under the cap on the total value
/// locked: see [`calculate_tvl_cap_difference`].
pub open spec fn tvl_cap_difference(
    asset: AssetReserveState,
    stable_asset: AssetReserveState,
    tvl_cap: Balance,
    total_hub_reserve: Balance,
) -> Option<int> {
    if stable_asset.reserve == 0 {
        None
    } else {
        let max_hub_reserve = tvl_cap * stable_asset.hub_reserve / (stable_asset.reserve as int);
        let delta_q = max_hub_reserve - total_hub_reserve;
        if delta_q < 0 || delta_q * asset.reserve >= pow2_256() {
            None
        } else {
            quot(delta_q * asset.reserve, asset.hub_reserve as int)
        }
    }
}

/// The amount of an asset that the cap on the total value locked still
/// leaves room for. `None` if the pool is over the cap already.
pub fn calculate_tvl_cap_difference(
    asset: &AssetReserveState,
    stable_asset: &AssetReserveState,
    tvl_cap: Balance,
    total_hub_reserve: Balance,
) -> (r: Option<Balance>)
    ensures
        r.is_some() == tvl_cap_difference(
            *asset,
            *stable_asset,
            tvl_cap,
            total_hub_reserve,
        ).is_some(),
        r.is_some() ==> r.unwrap() == tvl_cap_difference(
            *asset,
            *stable_asset,
            tvl_cap,
            total_hub_reserve,
        ).unwrap(),
{
    proof {
        lemma_mul_fits_256(tvl_cap as int, stable_asset.hub_reserve as int);
    }
    let max_hub_reserve = U256::from_u128(tvl_cap).checked_mul(
        U256::from_u128(stable_asset.hub_reserve),
    )?.checked_div(U256::from_u128(stable_asset.reserve))?;

    let delta_q = max_hub_reserve.checked_sub(U256::from_u128(total_hub_reserve))?;

    let amount = delta_q.checked_mul(U256::from_u128(asset.reserve))?.checked_div(
        U256::from_u128(asset.hub_reserve),
    )?;

    amount.to_u128()
}

/// Whether an asset stays under its weight cap when `hub_amount` of hub
/// asset is added to it: see [`verify_asset_cap`].
pub open spec fn asset_cap_holds(
    asset: AssetReserveState,
    asset_cap: u128,
    hub_amount: Balance,
    total_hub_reserve: Balance,
) -> Option<bool> {
    if asset.hub_reserve + hub_amount > u128::MAX || total_hub_reserve + hub_amount > u128::MAX {
        None
    } else {
        let weight = ratio(asset.hub_reserve + hub_amount, total_hub_reserve + hub_amount);
        if weight.is_none() {
            None
        } else {
            Some(weight.unwrap() <= asset_cap)
        }
    }
}

/// Verify if cap does or does exceed asset's weight cap.
///
/// The weight is the asset's share of all hub asset once `hub_amount` has
/// been added to both, rounded down.
pub fn verify_asset_cap(
    asset: &AssetReserveState,
    asset_cap: u128,
    hub_amount: Balance,
    total_hub_reserve: Balance,
) -> (r: Option<bool>)
    ensures
        r == asset_cap_holds(*asset, asset_cap, hub_amount, total_hub_reserve),
{
    let weight_cap = FixedU128::from_inner(asset_cap);
    let weight = FixedU128::checked_from_rational(
        asset.hub_reserve.checked_add(hub_amount)?,
        total_hub_reserve.checked_add(hub_amount)?,
    )?;
    Some(weight.into_inner() <= weight_cap.into_inner())
}

/// The shares that become the protocol's when liquidity is removed below the
/// entry price: `((p_x_r - Q) * s) / (p_x_r + Q) + 1`, where `p_x_r` is the
/// reserve at the entry price, raised by one. Zero at or above the entry
/// price.
pub open spec fn protocol_shares_delta(
    current_price: int,
    position_price: int,
    p_x_r: int,
    hub_reserve: int,
    shares_removed: int,
) -> Option<int> {
    if current_price < position_price {
        if p_x_r < hub_reserve {
            None
        } else {
            Some((p_x_r - hub_reserve) * shares_removed / (p_x_r + hub_reserve) + 1)
        }
    } else {
        Some(0)
    }
}

/// The hub asset that the provider receives when liquidity is removed above
/// the entry price: `(Q * (Q - p_x_r) / (Q + p_x_r)) * delta_shares / shares`.
/// Zero at or below the entry price.
pub open spec fn hub_transferred(
    current_price: int,
    position_price: int,
    p_x_r: int,
    hub_reserve: int,
    delta_shares: int,
    shares: int,
) -> Option<int> {
    if current_price > position_price {
        if hub_reserve < p_x_r {
            None
        } else {
            quot(
                (hub_reserve * (hub_reserve - p_x_r) / (hub_reserve + p_x_r)) * delta_shares,
                shares,
            )
        }
    } else {
        Some(0)
    }
}

/// The deltas of removing liquidity: see
/// [`calculate_remove_liquidity_state_changes`].
pub open spec fn remove_liquidity_state_changes(
    asset_state: AssetReserveState,
    shares_removed: Balance,
    position: Position,
    imbalance: I129,
    total_hub_reserve: Balance,
) -> Option<LiquidityStateChange> {
    let current_price = asset_state.spec_price();
    let position_price = position.spec_price();
    let at_entry = fixed_mul_int(position_price, asset_state.reserve as int);
    if current_price.is_none() || at_entry.is_none() {
        None
    } else {
        let p_x_r = at_entry.unwrap() + 1;
        let delta_b = protocol_shares_delta(
            current_price.unwrap(),
            position_price.unwrap(),
            p_x_r,
            asset_state.hub_reserve as int,
            shares_removed as int,
        );
        if delta_b.is_none() || delta_b.unwrap() > shares_removed || asset_state.shares == 0 {
            None
        } else {
            let delta_shares = shares_removed - delta_b.unwrap();
            let delta_reserve = asset_state.reserve * delta_shares / (asset_state.shares as int);
            let delta_hub_reserve = delta_reserve * asset_state.hub_reserve / (
            asset_state.reserve as int);
            let delta_position_amount = quot(
                shares_removed * position.amount,
                position.shares as int,
            );
            if delta_reserve > u128::MAX || delta_hub_reserve > u128::MAX
                || delta_position_amount.is_none() {
                None
            } else {
                let imb = delta_imbalance(delta_hub_reserve as u128, imbalance, total_hub_reserve);
                let hub = hub_transferred(
                    current_price.unwrap(),
                    position_price.unwrap(),
                    p_x_r,
                    asset_state.hub_reserve as int,
                    delta_shares,
                    asset_state.shares as int,
                );
                if imb.is_none() || hub.is_none() {
                    None
                } else {
                    Some(
                        LiquidityStateChange {
                            asset: AssetStateChange {
                                delta_reserve: BalanceUpdate::Decrease(delta_reserve as u128),
                                delta_hub_reserve: BalanceUpdate::Decrease(
                                    delta_hub_reserve as u128,
                                ),
                                delta_shares: BalanceUpdate::Decrease(delta_shares as u128),
                                delta_protocol_shares: BalanceUpdate::Increase(
                                    delta_b.unwrap() as u128,
                                ),
                            },
                            delta_imbalance: BalanceUpdate::Increase(imb.unwrap() as u128),
                            delta_position_reserve: BalanceUpdate::Decrease(
                                delta_position_amount.unwrap() as u128,
                            ),
                            delta_position_shares: BalanceUpdate::Decrease(shares_removed),
                            lp_hub_amount: hub.unwrap() as u128,
                        },
                    )
                }
            }
        }
    }
}

/// Calculate delta changes of remove liqudiity given current asset state and position from which liquidity should be removed.
///
/// There are three cases, by the spot price against the position's entry
/// price. Below it, some of the shares removed become protocol shares and
/// the rest is paid out. Above it, all shares are paid out and the provider
/// receives hub asset besides. At it, the payout is in proportion and nothing
/// more. All divisions round down; `None` on any value out of range.
pub fn calculate_remove_liquidity_state_changes(
    asset_state: &AssetReserveState,
    shares_removed: Balance,
    position: &Position,
    imbalance: I129,
    total_hub_reserve: Balance,
) -> (r: Option<LiquidityStateChange>)
    ensures
        r == remove_liquidity_state_changes(
            *asset_state,
            shares_removed,
            *position,
            imbalance,
            total_hub_reserve,
        ),
{
    let current_shares = asset_state.shares;
    let current_reserve = asset_state.reserve;
    let current_hub_reserve = asset_state.hub_reserve;

    let current_price = asset_state.price()?;
    let position_price = position.price()?;

    let current_reserve_hp = U256::from_u128(current_reserve);
    let current_hub_reserve_hp = U256::from_u128(current_hub_reserve);
    let current_shares_hp = U256::from_u128(current_shares);
    let shares_removed_hp = U256::from_u128(shares_removed);
    let position_amount_hp = U256::from_u128(position.amount);
    let position_shares_hp = U256::from_u128(position.shares);

    let p_x_r = U256::from_u128(position_price.checked_mul_int(current_reserve)?).checked_add(
        U256::one(),
    )?;

    // Protocol shares update
    let delta_b_hp = if current_price.into_inner() < position_price.into_inner() {
        let excess = p_x_r.checked_sub(current_hub_reserve_hp)?;
        proof {
            lemma_mul_le(excess@, shares_removed as int, pow2_128(), pow2_128() - 1);
        }
        let numer = excess.checked_mul(shares_removed_hp)?;
        let denom = p_x_r.checked_add(current_hub_reserve_hp)?;
        let part = numer.checked_div(denom)?;
        proof {
            vstd::arithmetic::div_mod::lemma_div_nonincreasing(numer@, denom@);
            vstd::arithmetic::div_mod::lemma_div_pos_is_pos(numer@, denom@);
        }
        part.checked_add(U256::one())?  // round up
    } else {
        U256::zero()
    };

    let delta_shares_hp = shares_removed_hp.checked_sub(delta_b_hp)?;

    proof {
        lemma_mul_fits_256(current_reserve as int, delta_shares_hp@);
    }
    let delta_reserve_hp = current_reserve_hp.checked_mul(delta_shares_hp)?.checked_div(
        current_shares_hp,
    )?;
    proof {
        lemma_reserve_share(
            current_reserve as int,
            delta_shares_hp@,
            current_shares as int,
            current_hub_reserve as int,
        );
    }
    let delta_hub_reserve_hp = match delta_reserve_hp.checked_mul(current_hub_reserve_hp) {
        Some(v) => v.checked_div(current_reserve_hp)?,
        None => {
            proof {
                if delta_reserve_hp@ <= u128::MAX {
                    lemma_mul_fits_256(delta_reserve_hp@, current_hub_reserve as int);
                }
            }
            return None;
        },
    };

    proof {
        lemma_mul_fits_256(shares_removed as int, position.amount as int);
    }
    let delta_position_amount_hp = shares_removed_hp.checked_mul(position_amount_hp)?.checked_div(
        position_shares_hp,
    )?;

    let delta_reserve = delta_reserve_hp.to_u128()?;
    let delta_hub_reserve = delta_hub_reserve_hp.to_u128()?;
    let delta_position_amount = delta_position_amount_hp.to_u128()?;
    let delta_shares = delta_shares_hp.to_u128()?;
    let delta_b = delta_b_hp.to_u128()?;

    let delta_imbalance = calculate_delta_imbalance(delta_hub_reserve, imbalance, total_hub_reserve)?;

    let hub_transferred = if current_price.into_inner() > position_price.into_inner() {
        // LP receives some hub asset
        let sub = current_hub_reserve_hp.checked_sub(p_x_r)?;
        let sum = current_hub_reserve_hp.checked_add(p_x_r)?;
        proof {
            lemma_mul_fits_256(current_hub_reserve as int, sub@);
        }
        let div1 = current_hub_reserve_hp.checked_mul(sub)?.checked_div(sum)?;
        proof {
            lemma_part_of_whole(current_hub_reserve as int, sub@, sum@);
            lemma_mul_fits_256(div1@, delta_shares as int);
        }
        div1.checked_mul(delta_shares_hp)?.checked_div(current_shares_hp)?.to_u128()?
    } else {
        0
    };

    Some(
        LiquidityStateChange {
            asset: AssetStateChange {
                delta_reserve: BalanceUpdate::Decrease(delta_reserve),
                delta_hub_reserve: BalanceUpdate::Decrease(delta_hub_reserve),
                delta_shares: BalanceUpdate::Decrease(delta_shares),
                delta_protocol_shares: BalanceUpdate::Increase(delta_b),
            },
            delta_imbalance: BalanceUpdate::Increase(delta_imbalance),
            lp_hub_amount: hub_transferred,
            delta_position_reserve: BalanceUpdate::Decrease(delta_position_amount),
            delta_position_shares: BalanceUpdate::Decrease(shares_removed),
        },
    )
}

/// Where the reserve paid out for the shares is too large for 128 bits, so
/// is its worth in hub asset, or the product that gives it does not fit in
/// 256 bits.
proof fn lemma_reserve_share(reserve: int, delta_shares: int, shares: int, hub_reserve: int)
    requires
        0 <= reserve,
        0 <= delta_shares,
        0 < shares,
        0 <= hub_reserve,
    ensures
        0 <= reserve * delta_shares / shares,
        0 <= (reserve * delta_shares / shares) * hub_reserve,
{
    assert(0 <= reserve * delta_shares) by (nonlinear_arith)
        requires
            0 <= reserve,
            0 <= delta_shares,
    ;
    vstd::arithmetic::div_mod::lemma_div_pos_is_pos(reserve * delta_shares, shares);
    assert(0 <= (reserve * delta_shares / shares) * hub_reserve) by (nonlinear_arith)
        requires
            0 <= reserve * delta_shares / shares,
            0 <= hub_reserve,
    ;
}

} // verus!
