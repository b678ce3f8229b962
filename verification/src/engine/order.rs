//! Pending trade intents.

use vstd::prelude::*;
use vstd::std_specs::convert::FromSpecImpl;
use crate::engine::candle::Candle;
use crate::engine::position::{lemma_product_bound, PositionExitRule};

verus! {

/// The direction of an order.
#[derive(Debug, Clone, Copy, PartialEq, Eq, Structural)]
pub enum OrderSide {
    /// The order opens a long position.
    Buy,
    /// The order opens a short position.
    Sell,
}

/// Capital reserved to open a position once the price trades through the
/// entry price.
#[derive(Debug, Clone, Copy, PartialEq, Eq, Structural)]
pub struct Order {
    /// The price at which the order is filled.
    pub entry_price: u64,
    /// The number of lots to trade.
    pub quantity: u32,
    /// The direction of the order.
    pub side: OrderSide,
    /// The rule that will close the position that the order opens.
    pub exit_rule: PositionExitRule,
}

impl Order {
    /// An order on `side` for `quantity` lots at `entry_price`, whose position
    /// is closed by `exit_rule`.
    pub fn new(side: OrderSide, entry_price: u64, quantity: u32, exit_rule: PositionExitRule) -> (r:
        Self)
        ensures
            r == (Order { entry_price, quantity, side, exit_rule }),
    {
        Order { entry_price, quantity, side, exit_rule }
    }

    /// The price at which the order is filled.
    pub fn entry_price(&self) -> (r: u64)
        ensures
            r == self.entry_price,
    {
        self.entry_price
    }

    /// The number of lots to trade.
    pub fn quantity(&self) -> (r: u32)
        ensures
            r == self.quantity,
    {
        self.quantity
    }

    /// The direction of the order.
    pub fn side(&self) -> (r: OrderSide)
        ensures
            r == self.side,
    {
        self.side
    }

    /// The rule that will close the position that the order opens.
    pub fn exit_rule(&self) -> (r: &PositionExitRule)
        ensures
            *r == self.exit_rule,
    {
        &self.exit_rule
    }

    /// The money that the order reserves: price times quantity.
    pub open spec fn spec_cost(&self) -> int {
        self.entry_price * self.quantity
    }

    /// The money that the order reserves: price times quantity.
    pub fn cost(&self) -> (r: i128)
        ensures
            r == self.spec_cost(),
    {
        proof {
            lemma_product_bound(self.entry_price as int, self.quantity as int);
        }
        self.entry_price as i128 * self.quantity as i128
    }

    /// Whether the order is filled on `candle`: its entry price lies between
    /// the low and the high.
    pub open spec fn spec_fills_on(&self, candle: &Candle) -> bool {
        candle.spans(self.entry_price)
    }

    /// Whether the order is filled on `candle`: its entry price lies between
    /// the low and the high.
    #[verifier::when_used_as_spec(spec_fills_on)]
    pub fn fills_on(&self, candle: &Candle) -> (r: bool)
        ensures
            r == self.spec_fills_on(candle),
    {
        self.entry_price >= candle.low && self.entry_price <= candle.high
    }
}

impl From<(OrderSide, u64, u32, PositionExitRule)> for Order {
    fn from(parts: (OrderSide, u64, u32, PositionExitRule)) -> (order: Self) {
        Self { side: parts.0, entry_price: parts.1, quantity: parts.2, exit_rule: parts.3 }
    }
}

impl FromSpecImpl<(OrderSide, u64, u32, PositionExitRule)> for Order {
    open spec fn obeys_from_spec() -> bool {
        true
    }

    open spec fn from_spec(parts: (OrderSide, u64, u32, PositionExitRule)) -> Self {
        Order { side: parts.0, entry_price: parts.1, quantity: parts.2, exit_rule: parts.3 }
    }
}

} // verus!
