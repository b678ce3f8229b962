//! Open trades and the rules that close them.

use vstd::prelude::*;
use vstd::std_specs::convert::FromSpecImpl;
use crate::engine::candle::Candle;
use crate::engine::order::{Order, OrderSide};
use crate::{percent_change, percent_of, lemma_quotient_bound, PercentCalculus};

verus! {

/// The identifier of a position.
pub type ID = u64;

/// The rule that closes a position.
///
/// A rule is fixed when the position is opened and never changes after that.
/// This holds of the trailing stop too: its trigger does not follow the
/// market, it is the price that the rule was made with, on every candle.
#[derive(Debug, Clone, Copy, PartialEq, Eq, Structural)]
pub enum PositionExitRule {
    /// Close at the given price.
    Limit(u64),
    /// Close once the price has fallen to the given price.
    StopLoss(u64),
    /// Close once the price has risen to the given price.
    TakeProfit(u64),
    /// Close once the price has come back to the given trigger price; the exit
    /// price is the trigger moved against the position by the given
    /// percentage. The trigger never moves.
    TrailingStop(u64, u32),
    /// Close at the first price, the take-profit, or at the second, the
    /// stop-loss, whichever the market reaches; the take-profit is looked at
    /// first. A price of zero switches that side of the rule off.
    TakeProfitAndStopLoss(u64, u64),
}

/// The direction of a position.
#[derive(Debug, Clone, Copy, PartialEq, Eq, Structural)]
pub enum PositionSide {
    /// The position gains when the price rises.
    Long,
    /// The position gains when the price falls.
    Short,
}

/// What a position's exit rule asks for on one candle.
#[derive(Debug, Clone, Copy, PartialEq, Eq, Structural)]
pub enum ExitDecision {
    /// The position stays open.
    Hold,
    /// The position is to be closed at the given price.
    Close(i128),
    /// The rule is none of those that the engine evaluates.
    Unsupported,
}

/// An open trade.
#[derive(Debug, Clone, Copy, PartialEq, Eq, Structural)]
pub struct Position {
    /// The identifier that the engine gave the position when it opened it.
    pub id: ID,
    /// The number of lots held.
    pub quantity: u32,
    /// The price at which the position was entered.
    pub entry_price: u64,
    /// The direction of the position.
    pub side: PositionSide,
    /// The rule that closes the position.
    pub exit_rule: PositionExitRule,
}

impl Position {
    /// The identifier of the position.
    pub fn id(&self) -> (r: ID)
        ensures
            r == self.id,
    {
        self.id
    }

    pub(crate) fn set_id(&mut self, id: ID)
        ensures
            *final(self) == (Position { id, ..*old(self) }),
    {
        self.id = id;
    }

    /// The direction of the position.
    pub fn side(&self) -> (r: &PositionSide)
        ensures
            *r == self.side,
    {
        &self.side
    }

    /// The number of lots held.
    pub fn quantity(&self) -> (r: u32)
        ensures
            r == self.quantity,
    {
        self.quantity
    }

    /// The price at which the position was entered.
    pub fn entry_price(&self) -> (r: u64)
        ensures
            r == self.entry_price,
    {
        self.entry_price
    }

    /// The money that entering the position took: price times quantity.
    pub open spec fn spec_cost(&self) -> int {
        self.entry_price * self.quantity
    }

    /// The money that entering the position took: price times quantity.
    pub fn cost(&self) -> (r: i128)
        ensures
            r == self.spec_cost(),
    {
        proof {
            lemma_product_bound(self.entry_price as int, self.quantity as int);
        }
        self.entry_price as i128 * self.quantity as i128
    }

    /// The profit of the position if it were closed at `exit_price`.
    pub open spec fn spec_estimate_profit(&self, exit_price: u64) -> int {
        match self.side {
            PositionSide::Long => (exit_price - self.entry_price) * self.quantity,
            PositionSide::Short => (self.entry_price - exit_price) * self.quantity,
        }
    }

    /// The profit of the position if it were closed at `exit_price`.
    pub fn estimate_profit(&self, exit_price: u64) -> (r: i128)
        ensures
            r == self.spec_estimate_profit(exit_price),
    {
        let entry = self.entry_price as i128;
        let exit = exit_price as i128;
        let quantity = self.quantity as i128;
        proof {
            lemma_signed_product_bound(exit - entry, quantity as int);
            lemma_signed_product_bound(entry - exit, quantity as int);
        }
        match self.side {
            PositionSide::Long => (exit - entry) * quantity,
            PositionSide::Short => (entry - exit) * quantity,
        }
    }

    /// The value that the profit at `exit_price` is measured against: the
    /// cost for a long position, the value at exit for a short one.
    pub open spec fn change_base(&self, exit_price: u64) -> int {
        match self.side {
            PositionSide::Long => self.entry_price * self.quantity,
            PositionSide::Short => exit_price * self.quantity,
        }
    }

    /// The value that is compared with [`Position::change_base`].
    pub open spec fn change_target(&self, exit_price: u64) -> int {
        match self.side {
            PositionSide::Long => exit_price * self.quantity,
            PositionSide::Short => self.entry_price * self.quantity,
        }
    }

    /// The profit at `exit_price` in percent, rounded toward zero; `None` where
    /// the value it is measured against is zero.
    pub fn profit_change(&self, exit_price: u64) -> (r: Option<i128>)
        ensures
            self.change_base(exit_price) == 0 ==> r is None,
            self.change_base(exit_price) != 0 ==> r == Some(
                percent_change(
                    self.change_base(exit_price),
                    self.change_target(exit_price),
                ) as i128,
            ),
            r is Some ==> r->Some_0 == percent_change(
                self.change_base(exit_price),
                self.change_target(exit_price),
            ),
    {
        proof {
            lemma_product_bound(self.entry_price as int, self.quantity as int);
            lemma_product_bound(exit_price as int, self.quantity as int);
        }
        let mut v1 = self.entry_price as i128 * self.quantity as i128;
        let mut v2 = exit_price as i128 * self.quantity as i128;
        if self.side == PositionSide::Short {
            let temp = v1;
            v1 = v2;
            v2 = temp;
        }
        if v1 == 0 {
            return None;
        }
        proof {
            lemma_quotient_bound((v2 - v1) * 100, v1 as int);
        }
        Some(v1.change(v2))
    }

    /// The rule that closes the position.
    pub fn exit_rule(&self) -> (r: &PositionExitRule)
        ensures
            *r == self.exit_rule,
    {
        &self.exit_rule
    }

    /// What the exit rule of the position asks for on `candle`.
    ///
    /// A take-profit and stop-loss rule closes a long position when the
    /// take-profit is set and not above the high, or the stop-loss is set and
    /// not below the low; the take-profit is the exit price whenever it is
    /// reached. A short position mirrors this. A trailing stop closes a long
    /// position when the low is not above the trigger, a short one when the
    /// high is not below it, at the trigger moved against the position by the
    /// rule's percentage.
    pub open spec fn spec_exit_on(&self, candle: &Candle) -> ExitDecision {
        match self.exit_rule {
            PositionExitRule::TakeProfitAndStopLoss(take_profit, stop_loss) => {
                let (take, stop) = match self.side {
                    PositionSide::Long => (
                        take_profit > 0 && take_profit <= candle.high,
                        stop_loss > 0 && stop_loss >= candle.low,
                    ),
                    PositionSide::Short => (
                        take_profit > 0 && take_profit >= candle.low,
                        stop_loss > 0 && stop_loss <= candle.high,
                    ),
                };
                if take {
                    ExitDecision::Close(take_profit as i128)
                } else if stop {
                    ExitDecision::Close(stop_loss as i128)
                } else {
                    ExitDecision::Hold
                }
            },
            PositionExitRule::TrailingStop(trigger, percent) => match self.side {
                PositionSide::Long => if candle.low <= trigger {
                    ExitDecision::Close(
                        (trigger - percent_of(trigger as int, percent as int)) as i128,
                    )
                } else {
                    ExitDecision::Hold
                },
                PositionSide::Short => if candle.high >= trigger {
                    ExitDecision::Close(
                        (trigger + percent_of(trigger as int, percent as int)) as i128,
                    )
                } else {
                    ExitDecision::Hold
                },
            },
            _ => ExitDecision::Unsupported,
        }
    }

    /// What the exit rule of the position asks for on `candle`.
    #[verifier::when_used_as_spec(spec_exit_on)]
    pub fn exit_on(&self, candle: &Candle) -> (r: ExitDecision)
        ensures
            r == self.spec_exit_on(candle),
    {
        match self.exit_rule {
            PositionExitRule::TakeProfitAndStopLoss(take_profit, stop_loss) => {
                let take = match self.side {
                    PositionSide::Long => take_profit > 0 && take_profit <= candle.high,
                    PositionSide::Short => take_profit > 0 && take_profit >= candle.low,
                };
                let stop = match self.side {
                    PositionSide::Long => stop_loss > 0 && stop_loss >= candle.low,
                    PositionSide::Short => stop_loss > 0 && stop_loss <= candle.high,
                };
                if take {
                    ExitDecision::Close(take_profit as i128)
                } else if stop {
                    ExitDecision::Close(stop_loss as i128)
                } else {
                    ExitDecision::Hold
                }
            },
            PositionExitRule::TrailingStop(trigger, percent) => {
                let touched = match self.side {
                    PositionSide::Long => candle.low <= trigger,
                    PositionSide::Short => candle.high >= trigger,
                };
                if touched {
                    let price = trigger as i128;
                    let rate = percent as i128;
                    proof {
                        lemma_product_bound(trigger as int, percent as int);
                        lemma_quotient_bound(trigger * percent, 100);
                    }
                    match self.side {
                        PositionSide::Long => ExitDecision::Close(price.subpercent(rate)),
                        PositionSide::Short => ExitDecision::Close(price.addpercent(rate)),
                    }
                } else {
                    ExitDecision::Hold
                }
            },
            _ => ExitDecision::Unsupported,
        }
    }
}

/// The product of a price and a quantity fits in 96 bits.
pub proof fn lemma_product_bound(price: int, quantity: int)
    requires
        0 <= price <= u64::MAX,
        0 <= quantity <= u32::MAX,
    ensures
        0 <= price * quantity <= (u64::MAX as int) * (u32::MAX as int),
        (u64::MAX as int) * (u32::MAX as int) < 0x1_0000_0000_0000_0000_0000_0000,
{
    assert(0 <= price * quantity <= (u64::MAX as int) * (u32::MAX as int)) by (nonlinear_arith)
        requires
            0 <= price <= u64::MAX,
            0 <= quantity <= u32::MAX,
    ;
}

/// The product of a price difference and a quantity fits in 97 bits.
pub proof fn lemma_signed_product_bound(difference: int, quantity: int)
    requires
        -(u64::MAX as int) <= difference <= u64::MAX,
        0 <= quantity <= u32::MAX,
    ensures
        -(u64::MAX as int) * (u32::MAX as int) <= difference * quantity <= (u64::MAX as int) * (
        u32::MAX as int),
{
    assert(-(u64::MAX as int) * (u32::MAX as int) <= difference * quantity <= (u64::MAX as int)
        * (u32::MAX as int)) by (nonlinear_arith)
        requires
            -(u64::MAX as int) <= difference <= u64::MAX,
            0 <= quantity <= u32::MAX,
    ;
}

impl From<(PositionSide, u64, u32, PositionExitRule)> for Position {
    fn from(parts: (PositionSide, u64, u32, PositionExitRule)) -> (position: Self) {
        Self { id: 0, side: parts.0, entry_price: parts.1, quantity: parts.2, exit_rule: parts.3 }
    }
}

impl FromSpecImpl<(PositionSide, u64, u32, PositionExitRule)> for Position {
    open spec fn obeys_from_spec() -> bool {
        true
    }

    open spec fn from_spec(parts: (PositionSide, u64, u32, PositionExitRule)) -> Self {
        Position {
            id: 0,
            side: parts.0,
            entry_price: parts.1,
            quantity: parts.2,
            exit_rule: parts.3,
        }
    }
}

/// The position that filling `order` opens, before the engine numbers it.
pub open spec fn opened_by(order: Order) -> Position {
    Position {
        id: 0,
        side: match order.side {
            OrderSide::Buy => PositionSide::Long,
            OrderSide::Sell => PositionSide::Short,
        },
        entry_price: order.entry_price,
        quantity: order.quantity,
        exit_rule: order.exit_rule,
    }
}

impl From<Order> for Position {
    fn from(order: Order) -> (position: Self) {
        let side = match order.side {
            OrderSide::Buy => PositionSide::Long,
            OrderSide::Sell => PositionSide::Short,
        };
        Self {
            id: 0,
            side,
            entry_price: order.entry_price,
            quantity: order.quantity,
            exit_rule: order.exit_rule,
        }
    }
}

impl FromSpecImpl<Order> for Position {
    open spec fn obeys_from_spec() -> bool {
        true
    }

    open spec fn from_spec(order: Order) -> Self {
        opened_by(order)
    }
}

/// The record of when a position was opened and closed.
#[derive(Debug, Clone, Copy)]
pub struct PositionEvent {
    id: ID,
    open: (usize, PositionSide, u64),
    close: Option<(usize, u64)>,
}

impl PositionEvent {
    #[verifier::type_invariant]
    spec fn inv(self) -> bool {
        self.close matches Some(c) ==> c.0 >= self.open.0
    }

    /// The candle index at which the position was opened.
    pub closed spec fn opened_at(&self) -> usize {
        self.open.0
    }

    /// The candle index and the price at which the position was closed, if it was.
    pub closed spec fn closed_at(&self) -> Option<(usize, u64)> {
        self.close
    }

    /// The identifier of the position.
    pub closed spec fn spec_id(&self) -> ID {
        self.id
    }

    /// The identifier of the position.
    #[verifier::when_used_as_spec(spec_id)]
    pub fn id(&self) -> (r: ID)
        ensures
            r == self.spec_id(),
    {
        self.id
    }

    /// The number of candles that the position was open for, once it is closed.
    pub fn len(&self) -> (r: Option<usize>)
        ensures
            r == match self.closed_at() {
                Some(c) => Some((c.0 - self.opened_at()) as usize),
                None => None,
            },
            self.closed_at() matches Some(c) ==> c.0 >= self.opened_at(),
    {
        proof {
            use_type_invariant(self);
        }
        match self.close {
            Some(c) => Some(c.0 - self.open.0),
            None => None,
        }
    }

    /// Records that the position was closed at candle `pos_idx`, at `price`.
    pub fn close(&mut self, pos_idx: usize, price: u64)
        requires
            pos_idx >= old(self).opened_at(),
        ensures
            final(self).closed_at() == Some((pos_idx, price)),
            final(self).opened_at() == old(self).opened_at(),
            final(self).spec_id() == old(self).spec_id(),
    {
        self.close = Some((pos_idx, price));
    }
}

impl From<(ID, usize, PositionSide, u64)> for PositionEvent {
    /// The record of a position that was opened and is not closed yet, from
    /// its identifier, the candle index of its opening, its side and its
    /// entry price.
    fn from(parts: (ID, usize, PositionSide, u64)) -> (event: Self)
        ensures
            event.spec_id() == parts.0,
            event.opened_at() == parts.1,
            event.closed_at() is None,
    {
        Self { id: parts.0, open: (parts.1, parts.2, parts.3), close: None }
    }
}

impl FromSpecImpl<(ID, usize, PositionSide, u64)> for PositionEvent {
    open spec fn obeys_from_spec() -> bool {
        true
    }

    closed spec fn from_spec(parts: (ID, usize, PositionSide, u64)) -> Self {
        PositionEvent { id: parts.0, open: (parts.1, parts.2, parts.3), close: None }
    }
}

} // verus!
