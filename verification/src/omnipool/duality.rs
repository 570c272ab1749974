//! How a purchase and a sale of the same amounts relate.
//!
//! A sale rounds every step down and a purchase rounds every step up, both
//! in the pool's favour.

use crate::arith::lemma_div_bounds;
use crate::fixed::mul_div_floor;
use crate::fixed::Permill;
use crate::fixed::FIXED_DIV;
use crate::fixed::PERMILL_DIV;
use crate::omnipool::math::buy_state_changes;
use crate::omnipool::math::quot_up;
use crate::omnipool::math::sell_state_changes;
use crate::omnipool::math::without_fee;
use crate::omnipool::types::AssetReserveState;
use crate::omnipool::types::BalanceUpdate;
use crate::types::Balance;
use vstd::prelude::*;

verus! {

/// Whether the sale of `amount` loses nothing to rounding: the hub asset
/// that the asset sold is worth, the amount that the hub asset buys, and
/// that amount less the asset fee are each exact. The protocol fee may round.
pub open spec fn sale_is_exact(
    asset_in_state: AssetReserveState,
    asset_out_state: AssetReserveState,
    amount: Balance,
    asset_fee: Permill,
    protocol_fee: Permill,
) -> bool {
    let hub_in = amount * asset_in_state.hub_reserve / (asset_in_state.reserve + amount);
    let hub_out = hub_in - hub_in * protocol_fee@ / (PERMILL_DIV as int);
    let out = asset_out_state.reserve * hub_out / (asset_out_state.hub_reserve + hub_out);
    &&& asset_in_state.reserve + amount > 0
    &&& hub_in * (asset_in_state.reserve + amount) == amount * asset_in_state.hub_reserve
    &&& asset_out_state.hub_reserve + hub_out > 0
    &&& out * (asset_out_state.hub_reserve + hub_out) == asset_out_state.reserve * hub_out
    &&& without_fee(out, asset_fee) * PERMILL_DIV == out * (PERMILL_DIV - asset_fee@)
}

/// For a sale that lost nothing to rounding, buying exactly what it
/// returned costs more than was sold: the purchase rounds every step against
/// the buyer. This is one case in which the cost is not below what was sold;
/// for every sale, see [`lemma_cost_exceeds_what_returns_less`].
pub proof fn lemma_buying_back_an_exact_sale_costs_more(
    asset_in_state: AssetReserveState,
    asset_out_state: AssetReserveState,
    amount: Balance,
    asset_fee: Permill,
    protocol_fee: Permill,
    imbalance: Balance,
    received: Balance,
    paid: Balance,
)
    requires
        asset_fee.wf(),
        protocol_fee.wf(),
        sale_is_exact(asset_in_state, asset_out_state, amount, asset_fee, protocol_fee),
        sell_state_changes(
            asset_in_state,
            asset_out_state,
            amount,
            asset_fee,
            protocol_fee,
            imbalance,
        ).is_some(),
        sell_state_changes(
            asset_in_state,
            asset_out_state,
            amount,
            asset_fee,
            protocol_fee,
            imbalance,
        ).unwrap().asset_out.delta_reserve == BalanceUpdate::Decrease(received),
        buy_state_changes(
            asset_in_state,
            asset_out_state,
            received,
            asset_fee,
            protocol_fee,
            imbalance,
        ).is_some(),
        buy_state_changes(
            asset_in_state,
            asset_out_state,
            received,
            asset_fee,
            protocol_fee,
            imbalance,
        ).unwrap().asset_in.delta_reserve == BalanceUpdate::Increase(paid),
    ensures
        paid > amount,
{
    let m = PERMILL_DIV as int;
    let a = asset_fee@;
    let p = protocol_fee@;
    let ri = asset_in_state.reserve as int;
    let qi = asset_in_state.hub_reserve as int;
    let ro = asset_out_state.reserve as int;
    let qo = asset_out_state.hub_reserve as int;
    let amt = amount as int;

    // the sale
    let h = amt * qi / (ri + amt);
    let f = h * p / m;
    let g = h - f;
    let gross = ro * g / (qo + g);
    let o = without_fee(gross, asset_fee);
    assert(0 <= amt * qi) by (nonlinear_arith)
        requires
            0 <= amt,
            0 <= qi,
    ;
    lemma_div_bounds(amt * qi, ri + amt);
    crate::omnipool::math::lemma_part_le(h, p);
    assert(0 <= ro * g) by (nonlinear_arith)
        requires
            0 <= ro,
            0 <= g,
    ;
    lemma_div_bounds(ro * g, qo + g);
    crate::omnipool::math::lemma_part_le(gross, m - a);
    assert(o == received);

    // the purchase
    let n = without_fee(ro, asset_fee);
    crate::omnipool::math::lemma_part_le(ro, m - a);
    lemma_div_bounds(ro * (m - a), m);
    assert(n - o > 0);
    let u = qo * o / (n - o) + 1;
    assert(quot_up(qo * o, n - o) == Some(u));
    let v = u * FIXED_DIV / ((m - p) * 1_000_000_000_000);
    assert(mul_div_floor(u, FIXED_DIV as int, (m - p) * 1_000_000_000_000) == Some(v));
    assert(m - p > 0);
    assert(v < qi);
    let w = ri * v / (qi - v) + 1;
    assert(quot_up(ri * v, qi - v) == Some(w));
    assert(w == paid);

    // the amount bought costs at least the hub asset that the sale gave for it
    assert(qo * o >= g * (n - o)) by (nonlinear_arith)
        requires
            gross * (qo + g) == ro * g,
            o * m == gross * (m - a),
            n * m <= ro * (m - a),
            0 <= g,
            0 <= o,
            0 < m,
            0 <= a <= m,
    ;
    assert(qo * o / (n - o) >= g) by {
        vstd::arithmetic::div_mod::lemma_div_is_ordered(g * (n - o), qo * o, n - o);
        vstd::arithmetic::div_mod::lemma_div_by_multiple(g, n - o);
    }
    // with the protocol fee put back, that is more than the sale took
    lemma_div_bounds(h * p, m);
    assert(u * m >= (h + 1) * (m - p)) by (nonlinear_arith)
        requires
            u >= h - f + 1,
            f * m <= h * p,
            0 <= p <= m,
            0 <= h,
    ;
    assert(u * FIXED_DIV >= (h + 1) * ((m - p) * 1_000_000_000_000)) by (nonlinear_arith)
        requires
            u * m >= (h + 1) * (m - p),
            m == 1_000_000,
            FIXED_DIV == 1_000_000_000_000_000_000,
    ;
    assert(v >= h + 1) by {
        vstd::arithmetic::div_mod::lemma_div_is_ordered(
            (h + 1) * ((m - p) * 1_000_000_000_000),
            u * FIXED_DIV,
            (m - p) * 1_000_000_000_000,
        );
        vstd::arithmetic::div_mod::lemma_div_by_multiple(h + 1, (m - p) * 1_000_000_000_000);
    }
    // and that much hub asset costs more of the asset than was sold
    assert(ri * v >= amt * (qi - v)) by (nonlinear_arith)
        requires
            h * (ri + amt) == amt * qi,
            v >= h + 1,
            0 <= ri,
            0 <= amt,
    ;
    assert(ri * v / (qi - v) >= amt) by {
        vstd::arithmetic::div_mod::lemma_div_is_ordered(amt * (qi - v), ri * v, qi - v);
        vstd::arithmetic::div_mod::lemma_div_by_multiple(amt, qi - v);
    }
}

/// Selling what a purchase cost, or more, returns the amount bought, or one
/// unit less where the asset fee is charged twice over; without an asset fee
/// it never returns less. Buying is never the cheaper way.
pub proof fn lemma_selling_the_cost_returns_the_purchase(
    asset_in_state: AssetReserveState,
    asset_out_state: AssetReserveState,
    bought: Balance,
    asset_fee: Permill,
    protocol_fee: Permill,
    imbalance: Balance,
    cost: Balance,
    sold: Balance,
    returned: Balance,
)
    requires
        asset_fee.wf(),
        protocol_fee.wf(),
        buy_state_changes(
            asset_in_state,
            asset_out_state,
            bought,
            asset_fee,
            protocol_fee,
            imbalance,
        ).is_some(),
        buy_state_changes(
            asset_in_state,
            asset_out_state,
            bought,
            asset_fee,
            protocol_fee,
            imbalance,
        ).unwrap().asset_in.delta_reserve == BalanceUpdate::Increase(cost),
        sold >= cost,
        sell_state_changes(
            asset_in_state,
            asset_out_state,
            sold,
            asset_fee,
            protocol_fee,
            imbalance,
        ).is_some(),
        sell_state_changes(
            asset_in_state,
            asset_out_state,
            sold,
            asset_fee,
            protocol_fee,
            imbalance,
        ).unwrap().asset_out.delta_reserve == BalanceUpdate::Decrease(returned),
    ensures
        returned + 1 >= bought,
        asset_fee@ == 0 ==> returned >= bought,
{
    let m = PERMILL_DIV as int;
    let a = asset_fee@;
    let p = protocol_fee@;
    let ri = asset_in_state.reserve as int;
    let qi = asset_in_state.hub_reserve as int;
    let ro = asset_out_state.reserve as int;
    let qo = asset_out_state.hub_reserve as int;
    let o = bought as int;

    // the purchase
    let n = without_fee(ro, asset_fee);
    crate::omnipool::math::lemma_part_le(ro, m - a);
    lemma_div_bounds(ro * (m - a), m);
    assert(n - o > 0);
    assert(0 <= qo * o) by (nonlinear_arith)
        requires
            0 <= qo,
            0 <= o,
    ;
    lemma_div_bounds(qo * o, n - o);
    let u = qo * o / (n - o) + 1;
    assert(quot_up(qo * o, n - o) == Some(u));
    let scale = (m - p) * 1_000_000_000_000;
    let v = u * FIXED_DIV / scale;
    assert(mul_div_floor(u, FIXED_DIV as int, scale) == Some(v));
    assert(m - p > 0);
    assert(0 <= u * FIXED_DIV) by (nonlinear_arith)
        requires
            0 <= u,
    ;
    lemma_div_bounds(u * FIXED_DIV, scale);
    assert(v < qi);
    assert(0 <= ri * v) by (nonlinear_arith)
        requires
            0 <= ri,
            0 <= v,
    ;
    lemma_div_bounds(ri * v, qi - v);
    let w = ri * v / (qi - v) + 1;
    assert(quot_up(ri * v, qi - v) == Some(w));
    assert(w == cost);

    // the sale of what it cost, or of more
    let w = sold as int;
    assert(ri * v < w * (qi - v)) by (nonlinear_arith)
        requires
            ri * v < (cost - 1) * (qi - v) + (qi - v),
            cost <= w,
            0 < qi - v,
    ;
    let h = w * qi / (ri + w);
    assert(0 <= w * qi) by (nonlinear_arith)
        requires
            0 <= w,
            0 <= qi,
    ;
    lemma_div_bounds(w * qi, ri + w);
    let f = h * p / m;
    crate::omnipool::math::lemma_part_le(h, p);
    lemma_div_bounds(h * p, m);
    let g = h - f;
    assert(0 <= ro * g) by (nonlinear_arith)
        requires
            0 <= ro,
            0 <= g,
    ;
    assert(qo + g > 0);
    lemma_div_bounds(ro * g, qo + g);
    let gross = ro * g / (qo + g);
    crate::omnipool::math::lemma_part_le(gross, m - a);
    lemma_div_bounds(gross * (m - a), m);
    let back = without_fee(gross, asset_fee);
    assert(back == returned);

    // the sale takes at least the hub asset that the purchase paid
    assert(w * qi >= v * (ri + w)) by (nonlinear_arith)
        requires
            ri * v < w * (qi - v),
            0 <= v,
    ;
    assert(h >= v) by {
        vstd::arithmetic::div_mod::lemma_div_is_ordered(v * (ri + w), w * qi, ri + w);
        vstd::arithmetic::div_mod::lemma_div_by_multiple(v, ri + w);
    }
    // after the protocol fee, at least the hub asset that the purchase needed
    assert(g >= u) by (nonlinear_arith)
        requires
            g == h - f,
            f * m <= h * p,
            h >= v,
            u * FIXED_DIV < v * scale + scale,
            scale == (m - p) * 1_000_000_000_000,
            FIXED_DIV == 1_000_000_000_000_000_000,
            m == 1_000_000,
            0 <= p < m,
            0 <= h,
            0 <= u,
    ;
    // which buys more than the amount bought, before the asset fee
    assert(n * g > o * (qo + g)) by (nonlinear_arith)
        requires
            g >= u,
            qo * o < (u - 1) * (n - o) + (n - o),
            0 < n - o,
            0 <= o,
    ;
    assert(ro * g * (m - a) > o * (qo + g) * m) by (nonlinear_arith)
        requires
            n * g > o * (qo + g),
            n * m <= ro * (m - a),
            0 <= g,
            0 < m,
    ;
    // `gross` is at least `ro * g / (qo + g) - 1`, and `back` at least
    // `gross * (m - a) / m - 1`
    assert((back + 2) * m * (qo + g) > o * (qo + g) * m) by (nonlinear_arith)
        requires
            ro * g * (m - a) > o * (qo + g) * m,
            ro * g < gross * (qo + g) + (qo + g),
            gross * (m - a) < back * m + m,
            0 <= a <= m,
            0 < m,
            0 < qo + g,
            0 <= gross,
    ;
    assert(back + 2 > o) by (nonlinear_arith)
        requires
            (back + 2) * m * (qo + g) > o * (qo + g) * m,
            0 < m,
            0 < qo + g,
    ;
    if a == 0 {
        assert(back == gross) by {
            vstd::arithmetic::div_mod::lemma_div_by_multiple(gross, m);
        }
        assert((gross + 1) * (qo + g) > o * (qo + g)) by (nonlinear_arith)
            requires
                ro * g * (m - a) > o * (qo + g) * m,
                ro * g < gross * (qo + g) + (qo + g),
                a == 0,
                0 < m,
        ;
        assert(gross + 1 > o) by (nonlinear_arith)
            requires
                (gross + 1) * (qo + g) > o * (qo + g),
                0 < qo + g,
        ;
    }
}

/// What a purchase costs is more than any amount whose sale returns less
/// than the amount bought by more than one unit, and, without an asset fee,
/// more than any amount whose sale returns less at all. So buying what a
/// sale returned costs at least the least amount whose sale returns as much;
/// it can cost less than was sold where the sale of less returns the same.
pub proof fn lemma_cost_exceeds_what_returns_less(
    asset_in_state: AssetReserveState,
    asset_out_state: AssetReserveState,
    bought: Balance,
    asset_fee: Permill,
    protocol_fee: Permill,
    imbalance: Balance,
    cost: Balance,
    sold: Balance,
    returned: Balance,
)
    requires
        asset_fee.wf(),
        protocol_fee.wf(),
        buy_state_changes(
            asset_in_state,
            asset_out_state,
            bought,
            asset_fee,
            protocol_fee,
            imbalance,
        ).is_some(),
        buy_state_changes(
            asset_in_state,
            asset_out_state,
            bought,
            asset_fee,
            protocol_fee,
            imbalance,
        ).unwrap().asset_in.delta_reserve == BalanceUpdate::Increase(cost),
        sell_state_changes(
            asset_in_state,
            asset_out_state,
            sold,
            asset_fee,
            protocol_fee,
            imbalance,
        ).is_some(),
        sell_state_changes(
            asset_in_state,
            asset_out_state,
            sold,
            asset_fee,
            protocol_fee,
            imbalance,
        ).unwrap().asset_out.delta_reserve == BalanceUpdate::Decrease(returned),
        returned + 1 < bought || (asset_fee@ == 0 && returned < bought),
    ensures
        sold < cost,
{
    if sold >= cost {
        lemma_selling_the_cost_returns_the_purchase(
            asset_in_state,
            asset_out_state,
            bought,
            asset_fee,
            protocol_fee,
            imbalance,
            cost,
            sold,
            returned,
        );
    }
}

} // verus!
