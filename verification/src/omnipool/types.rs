//! The state of an omnipool asset and the records that describe a change of it.

use crate::fixed::mul_div_floor;
use crate::fixed::FixedU128;
use crate::fixed::Rational128;
use crate::fixed::FIXED_DIV;
use crate::types::Balance;
use vstd::prelude::*;

verus! {

/// What the pool holds of one asset.
#[derive(Clone, Copy, Debug, PartialEq, Eq, Structural)]
pub struct AssetReserveState {
    /// The amount of the asset itself.
    pub reserve: Balance,
    /// The amount of hub asset that backs it.
    pub hub_reserve: Balance,
    /// All shares issued for this asset.
    pub shares: Balance,
    /// Those of the shares that the protocol owns.
    pub protocol_shares: Balance,
}

/// A change of a balance, with its direction.
#[derive(Clone, Copy, Debug, PartialEq, Eq, Structural)]
pub enum BalanceUpdate {
    Increase(Balance),
    Decrease(Balance),
}

/// The changes to apply to one asset's state.
#[derive(Clone, Copy, Debug, PartialEq, Eq, Structural)]
pub struct AssetStateChange {
    pub delta_reserve: BalanceUpdate,
    pub delta_hub_reserve: BalanceUpdate,
    pub delta_shares: BalanceUpdate,
    pub delta_protocol_shares: BalanceUpdate,
}

/// The result of a trade between two assets.
#[derive(Clone, Copy, Debug, PartialEq, Eq, Structural)]
pub struct TradeStateChange {
    pub asset_in: AssetStateChange,
    pub asset_out: AssetStateChange,
    pub delta_imbalance: BalanceUpdate,
    pub hdx_hub_amount: Balance,
}

/// The result of a trade where the hub asset is given.
#[derive(Clone, Copy, Debug, PartialEq, Eq, Structural)]
pub struct HubTradeStateChange {
    pub asset: AssetStateChange,
    pub delta_imbalance: BalanceUpdate,
}

/// The result of adding or removing liquidity.
#[derive(Clone, Copy, Debug, PartialEq, Eq, Structural)]
pub struct LiquidityStateChange {
    pub asset: AssetStateChange,
    pub delta_imbalance: BalanceUpdate,
    pub delta_position_reserve: BalanceUpdate,
    pub delta_position_shares: BalanceUpdate,
    pub lp_hub_amount: Balance,
}

/// A liquidity provider's position: what was put in, the shares received and
/// the asset's price at that time.
#[derive(Clone, Copy, Debug, PartialEq)]
pub struct Position {
    pub amount: Balance,
    pub shares: Balance,
    pub price: Rational128,
}

/// A signed quantity of up to 128 bits of magnitude.
#[derive(Clone, Copy, Debug, PartialEq, Eq, Structural)]
pub struct I129 {
    pub value: Balance,
    pub negative: bool,
}

/// No change at all.
pub open spec fn no_change() -> BalanceUpdate {
    BalanceUpdate::Increase(0u128)
}

impl BalanceUpdate {
    /// The signed amount of the change.
    pub open spec fn signed(self) -> int {
        match self {
            BalanceUpdate::Increase(v) => v as int,
            BalanceUpdate::Decrease(v) => -(v as int),
        }
    }

    /// No change at all.
    pub fn none() -> (r: BalanceUpdate)
        ensures
            r == no_change(),
    {
        BalanceUpdate::Increase(0u128)
    }

    /// The two changes made one after the other, as one change; `None` if
    /// its amount does not fit in 128 bits.
    pub fn checked_add(self, other: BalanceUpdate) -> (r: Option<BalanceUpdate>)
        ensures
            r.is_some() <==> -u128::MAX <= self.signed() + other.signed() <= u128::MAX,
            r.is_some() ==> r.unwrap().signed() == self.signed() + other.signed(),
    {
        match (self, other) {
            (BalanceUpdate::Increase(a), BalanceUpdate::Increase(b)) => match a.checked_add(b) {
                Some(sum) => Some(BalanceUpdate::Increase(sum)),
                None => None,
            },
            (BalanceUpdate::Decrease(a), BalanceUpdate::Decrease(b)) => match a.checked_add(b) {
                Some(sum) => Some(BalanceUpdate::Decrease(sum)),
                None => None,
            },
            (BalanceUpdate::Increase(a), BalanceUpdate::Decrease(b)) => if a >= b {
                Some(BalanceUpdate::Increase(a - b))
            } else {
                Some(BalanceUpdate::Decrease(b - a))
            },
            (BalanceUpdate::Decrease(a), BalanceUpdate::Increase(b)) => if a >= b {
                Some(BalanceUpdate::Decrease(a - b))
            } else {
                Some(BalanceUpdate::Increase(b - a))
            },
        }
    }

    /// The balance after the change; `None` if it would be negative or not
    /// fit in 128 bits.
    pub fn apply(self, balance: Balance) -> (r: Option<Balance>)
        ensures
            r.is_some() <==> 0 <= balance + self.signed() <= u128::MAX,
            r.is_some() ==> r.unwrap() == balance + self.signed(),
    {
        match self {
            BalanceUpdate::Increase(amount) => balance.checked_add(amount),
            BalanceUpdate::Decrease(amount) => balance.checked_sub(amount),
        }
    }
}

impl AssetReserveState {
    /// The spot price as a raw fixed-point value: hub reserve over reserve,
    /// rounded down. `None` for an empty reserve or a price out of range.
    pub open spec fn spec_price(self) -> Option<int> {
        mul_div_floor(self.hub_reserve as int, FIXED_DIV as int, self.reserve as int)
    }

    /// The spot price of the asset in hub asset.
    pub fn price(&self) -> (r: Option<FixedU128>)
        ensures
            r.is_some() == self.spec_price().is_some(),
            r.is_some() ==> r.unwrap()@ == self.spec_price().unwrap(),
    {
        FixedU128::checked_from_rational(self.hub_reserve, self.reserve)
    }
}

impl Position {
    /// The entry price as a raw fixed-point value, rounded down. `None` for a
    /// zero denominator or a price out of range.
    pub open spec fn spec_price(self) -> Option<int> {
        mul_div_floor(self.price.n as int, FIXED_DIV as int, self.price.d as int)
    }

    /// The price at which the position was entered.
    pub fn price(&self) -> (r: Option<FixedU128>)
        ensures
            r.is_some() == self.spec_price().is_some(),
            r.is_some() ==> r.unwrap()@ == self.spec_price().unwrap(),
    {
        FixedU128::checked_from_rational(self.price.n, self.price.d)
    }
}

} // verus!
