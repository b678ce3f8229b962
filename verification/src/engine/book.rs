//! The book of a run: the wallet, the pending orders, the open positions and
//! the event log, with the transitions that the engine makes on them.

use vstd::prelude::*;
use std::collections::VecDeque;
use crate::engine::candle::Candle;
use crate::engine::order::Order;
use crate::engine::position::{
    lemma_product_bound, lemma_signed_product_bound, opened_by, ExitDecision, Position, ID,
};
use crate::engine::wallet::{as_outcome, Wallet, WalletOp, WalletView};
use crate::errors::Error;

verus! {

/// An entry of the event log.
#[derive(Debug, Clone, Copy, PartialEq, Eq, Structural)]
pub enum Event {
    /// The order was placed.
    AddOrder(Order),
    /// The order was cancelled.
    DelOrder(Order),
    /// The position was opened.
    AddPosition(Position),
    /// The position was closed.
    DelPosition(Position),
}

/// The sum of `amounts`.
pub open spec fn sum(amounts: Seq<int>) -> int
    decreases amounts.len(),
{
    if amounts.len() == 0 {
        0
    } else {
        sum(amounts.drop_last()) + amounts.last()
    }
}

/// The money reserved by all of `orders`.
pub open spec fn total_cost(orders: Seq<Order>) -> int {
    sum(orders.map_values(|o: Order| o.spec_cost()))
}

/// The money that entering all of `positions` took.
pub open spec fn open_cost(positions: Seq<Position>) -> int {
    sum(positions.map_values(|p: Position| p.spec_cost()))
}

/// The test that the order-fill pass on `candle` makes of each order.
pub open spec fn fills(candle: Candle) -> spec_fn(Order) -> bool {
    |o: Order| o.spec_fills_on(&candle)
}

/// The opposite of [`fills`].
pub open spec fn stays(candle: Candle) -> spec_fn(Order) -> bool {
    |o: Order| !o.spec_fills_on(&candle)
}

/// The positions that filling `orders` opens, numbered from `first_id` on.
pub open spec fn numbered(orders: Seq<Order>, first_id: nat) -> Seq<Position> {
    Seq::new(
        orders.len(),
        |i: int| Position { id: (first_id + i) as ID, ..opened_by(orders[i]) },
    )
}

/// The log entries for the opening of `positions`.
pub open spec fn openings(positions: Seq<Position>) -> Seq<Event> {
    Seq::new(positions.len(), |i: int| Event::AddPosition(positions[i]))
}

/// The index of the position numbered `id`, if there is one.
pub open spec fn position_index(positions: Seq<Position>, id: ID) -> Option<int> {
    positions.map_values(|p: Position| p.id).index_of_first(id)
}

/// The mathematical content of the book of a run.
pub struct BookView {
    /// The wallet.
    pub wallet: WalletView,
    /// The pending orders, oldest first.
    pub orders: Seq<Order>,
    /// The open positions, oldest first.
    pub positions: Seq<Position>,
    /// The event log, oldest entry first.
    pub events: Seq<Event>,
    /// The identifier that the next position will get.
    pub next_id: nat,
    /// The profit realised by each position closed so far, in closing order.
    pub realized: Seq<int>,
}

impl BookView {
    /// The book of a run that has not started, with `initial` as its balance.
    pub open spec fn fresh(initial: int) -> BookView {
        BookView {
            wallet: WalletView { initial, balance: initial, locked: 0 },
            orders: Seq::empty(),
            positions: Seq::empty(),
            events: Seq::empty(),
            next_id: 0,
            realized: Seq::empty(),
        }
    }

    /// What holds of the book at all times: the wallet is sound; the locked
    /// funds are exactly what the pending orders reserve; the balance and the
    /// cost of the open positions add up to the initial balance and the
    /// profits realised; and the open positions are numbered in increasing
    /// order, below the next identifier.
    pub open spec fn wf(self) -> bool {
        &&& self.wallet.wf()
        &&& self.wallet.locked == total_cost(self.orders)
        &&& self.wallet.balance + open_cost(self.positions) == self.wallet.initial + sum(
            self.realized,
        )
        &&& self.next_id <= self.events.len()
        &&& forall|i: int|
            0 <= i < self.positions.len() ==> (#[trigger] self.positions[i]).id < self.next_id
        &&& forall|i: int, j: int|
            0 <= i < j < self.positions.len() ==> (#[trigger] self.positions[i]).id < (
            #[trigger] self.positions[j]).id
    }

    /// Whether the free balance covers `order`.
    pub open spec fn affords(self, order: Order) -> bool {
        order.spec_cost() <= self.wallet.free()
    }

    /// The book after `order` was placed: its cost is locked, the order is
    /// queued last and logged. A book that cannot afford the order is unchanged.
    pub open spec fn place(self, order: Order) -> BookView {
        if self.affords(order) {
            BookView {
                wallet: WalletView { locked: self.wallet.locked + order.spec_cost(), ..self.wallet },
                orders: self.orders.push(order),
                events: self.events.push(Event::AddOrder(order)),
                ..self
            }
        } else {
            self
        }
    }

    /// The book after the first pending order equal to `order` was cancelled:
    /// its cost is unlocked, the order leaves the queue and the cancellation
    /// is logged. A book without such an order is unchanged.
    pub open spec fn cancel(self, order: Order) -> BookView {
        match self.orders.index_of_first(order) {
            Some(i) => BookView {
                wallet: WalletView { locked: self.wallet.locked - order.spec_cost(), ..self.wallet },
                orders: self.orders.remove(i),
                events: self.events.push(Event::DelOrder(order)),
                ..self
            },
            None => self,
        }
    }

    /// The pending orders that `candle` fills, oldest first.
    pub open spec fn filled(self, candle: Candle) -> Seq<Order> {
        self.orders.filter(fills(candle))
    }

    /// The book after the order-fill pass on `candle`. Every pending order
    /// whose entry price lies within the candle's range becomes a position,
    /// numbered in queue order, paid out of the locked funds and logged; the
    /// other orders stay, in their order.
    pub open spec fn fill(self, candle: Candle) -> BookView {
        let filled = self.filled(candle);
        let opened = numbered(filled, self.next_id);
        BookView {
            wallet: WalletView {
                balance: self.wallet.balance - total_cost(filled),
                locked: self.wallet.locked - total_cost(filled),
                ..self.wallet
            },
            orders: self.orders.filter(stays(candle)),
            positions: self.positions + opened,
            events: self.events + openings(opened),
            next_id: self.next_id + filled.len(),
            realized: self.realized,
        }
    }

    /// What the wallet is credited with when the position at `index` is closed
    /// at `exit_price`: the profit and the cost of the position.
    pub open spec fn credit(self, index: int, exit_price: u64) -> int {
        self.positions[index].spec_estimate_profit(exit_price) + self.positions[index].spec_cost()
    }

    /// Closing the position at `index` at `exit_price`: the book afterwards,
    /// and the profit realised or the reason why the wallet rejected the
    /// credit. On success the position leaves the queue, its closing is logged
    /// and its profit recorded; on failure the book is unchanged.
    pub open spec fn close_at(self, index: int, exit_price: u64) -> (BookView, Result<int, Error>)
        recommends
            0 <= index < self.positions.len(),
    {
        let position = self.positions[index];
        let op = WalletOp::Add(self.credit(index, exit_price));
        match self.wallet.outcome(op) {
            Ok(_) => (
                BookView {
                    wallet: self.wallet.apply(op),
                    positions: self.positions.remove(index),
                    events: self.events.push(Event::DelPosition(position)),
                    realized: self.realized.push(position.spec_estimate_profit(exit_price)),
                    ..self
                },
                Ok(position.spec_estimate_profit(exit_price)),
            ),
            Err(e) => (self, Err(e)),
        }
    }

    /// Closing the position numbered `id` at `exit_price`. A price of zero is
    /// rejected first, then an unknown identifier; the rest is
    /// [`BookView::close_at`].
    pub open spec fn close(self, id: ID, exit_price: u64) -> (BookView, Result<int, Error>) {
        if exit_price == 0 {
            (self, Err(Error::InvalidPrice))
        } else {
            match position_index(self.positions, id) {
                None => (self, Err(Error::PositionNotFound)),
                Some(index) => self.close_at(index, exit_price),
            }
        }
    }

    /// Closing every open position at `exit_price`, oldest first, up to the
    /// first one that fails.
    pub open spec fn close_all(self, exit_price: u64) -> (BookView, Result<(), Error>)
        decreases self.positions.len(),
    {
        if exit_price == 0 {
            (self, Err(Error::InvalidPrice))
        } else if self.positions.len() == 0 {
            (self, Ok(()))
        } else {
            let (next, r) = self.close_at(0, exit_price);
            match r {
                Err(e) => (self, Err(e)),
                Ok(_) => next.close_all(exit_price),
            }
        }
    }

    /// The exit-rule pass on `candle` over the positions from `index` on,
    /// oldest first. A position whose rule asks to close is closed at the
    /// rule's price; the pass stops at the first position whose rule is
    /// unsupported, whose exit price is not a price, or whose credit the
    /// wallet rejects, and leaves that position and those after it open.
    pub open spec fn exits_from(self, candle: Candle, index: int) -> (BookView, Result<(), Error>)
        decreases self.positions.len() - index,
    {
        if index < 0 || index >= self.positions.len() {
            (self, Ok(()))
        } else {
            match self.positions[index].spec_exit_on(&candle) {
                ExitDecision::Hold => self.exits_from(candle, index + 1),
                ExitDecision::Unsupported => (self, Err(Error::UnsupportedExitRule)),
                ExitDecision::Close(price) => if price <= 0 || price > u64::MAX {
                    (self, Err(Error::InvalidPrice))
                } else {
                    let (next, r) = self.close_at(index, price as u64);
                    match r {
                        Err(e) => (self, Err(e)),
                        Ok(_) => next.exits_from(candle, index),
                    }
                },
            }
        }
    }

    /// The exit-rule pass on `candle` over all open positions.
    pub open spec fn exits(self, candle: Candle) -> (BookView, Result<(), Error>) {
        self.exits_from(candle, 0)
    }
}

/// Appending an amount adds it to the sum.
pub proof fn lemma_sum_push(amounts: Seq<int>, amount: int)
    ensures
        sum(amounts.push(amount)) == sum(amounts) + amount,
{
    assert(amounts.push(amount).drop_last() =~= amounts);
}

/// Removing an amount takes it off the sum.
pub proof fn lemma_sum_remove(amounts: Seq<int>, index: int)
    requires
        0 <= index < amounts.len(),
    ensures
        sum(amounts.remove(index)) == sum(amounts) - amounts[index],
    decreases amounts.len(),
{
    if index == amounts.len() - 1 {
        assert(amounts.remove(index) =~= amounts.drop_last());
    } else {
        lemma_sum_remove(amounts.drop_last(), index);
        assert(amounts.remove(index).drop_last() =~= amounts.drop_last().remove(index));
    }
}

/// The sum of two sequences joined is the sum of their sums.
pub proof fn lemma_sum_concat(left: Seq<int>, right: Seq<int>)
    ensures
        sum(left + right) == sum(left) + sum(right),
    decreases right.len(),
{
    if right.len() == 0 {
        assert(left + right =~= left);
    } else {
        lemma_sum_concat(left, right.drop_last());
        assert((left + right).drop_last() =~= left + right.drop_last());
    }
}

/// No amount of a sequence of non-negative amounts exceeds their sum.
pub proof fn lemma_sum_bounds(amounts: Seq<int>, index: int)
    requires
        forall|i: int| 0 <= i < amounts.len() ==> amounts[i] >= 0,
        0 <= index < amounts.len(),
    ensures
        0 <= amounts[index] <= sum(amounts),
    decreases amounts.len(),
{
    lemma_sum_nonnegative(amounts.drop_last());
    if index < amounts.len() - 1 {
        lemma_sum_bounds(amounts.drop_last(), index);
    }
}

/// A sum of non-negative amounts is not negative.
pub proof fn lemma_sum_nonnegative(amounts: Seq<int>)
    requires
        forall|i: int| 0 <= i < amounts.len() ==> amounts[i] >= 0,
    ensures
        0 <= sum(amounts),
    decreases amounts.len(),
{
    if amounts.len() > 0 {
        lemma_sum_nonnegative(amounts.drop_last());
    }
}

/// Queuing an order adds its cost to the total.
pub proof fn lemma_total_cost_push(orders: Seq<Order>, order: Order)
    ensures
        total_cost(orders.push(order)) == total_cost(orders) + order.spec_cost(),
{
    let cost = |o: Order| o.spec_cost();
    assert(orders.push(order).map_values(cost) =~= orders.map_values(cost).push(cost(order)));
    lemma_sum_push(orders.map_values(cost), cost(order));
}

/// Taking an order out of the queue takes its cost off the total, which
/// covered it.
pub proof fn lemma_total_cost_remove(orders: Seq<Order>, index: int)
    requires
        0 <= index < orders.len(),
    ensures
        total_cost(orders.remove(index)) == total_cost(orders) - orders[index].spec_cost(),
        0 <= orders[index].spec_cost() <= total_cost(orders),
{
    let cost = |o: Order| o.spec_cost();
    assert(orders.remove(index).map_values(cost) =~= orders.map_values(cost).remove(index));
    lemma_sum_remove(orders.map_values(cost), index);
    lemma_sum_bounds(orders.map_values(cost), index);
}

/// Opening a position adds its cost to the cost of the open positions.
pub proof fn lemma_open_cost_push(positions: Seq<Position>, position: Position)
    ensures
        open_cost(positions.push(position)) == open_cost(positions) + position.spec_cost(),
{
    let cost = |p: Position| p.spec_cost();
    assert(positions.push(position).map_values(cost) =~= positions.map_values(cost).push(
        cost(position),
    ));
    lemma_sum_push(positions.map_values(cost), cost(position));
}

/// Closing a position takes its cost off the cost of the open positions.
pub proof fn lemma_open_cost_remove(positions: Seq<Position>, index: int)
    requires
        0 <= index < positions.len(),
    ensures
        open_cost(positions.remove(index)) == open_cost(positions) - positions[index].spec_cost(),
{
    let cost = |p: Position| p.spec_cost();
    assert(positions.remove(index).map_values(cost) =~= positions.map_values(cost).remove(index));
    lemma_sum_remove(positions.map_values(cost), index);
}

/// The book of a run.
pub(crate) struct Book {
    pub(crate) wallet: Wallet,
    pub(crate) orders: VecDeque<Order>,
    pub(crate) positions: VecDeque<Position>,
    pub(crate) events: Vec<Event>,
    pub(crate) next_id: ID,
    pub(crate) realized: Ghost<Seq<int>>,
}

impl View for Book {
    type V = BookView;

    closed spec fn view(&self) -> BookView {
        BookView {
            wallet: self.wallet@,
            orders: self.orders@,
            positions: self.positions@,
            events: self.events@,
            next_id: self.next_id as nat,
            realized: self.realized@,
        }
    }
}

impl Book {
    /// The book of a run that starts with `initial_balance`, which must be positive.
    pub(crate) fn new(initial_balance: i128) -> (r: Result<Self, Error>)
        ensures
            initial_balance <= 0 ==> r == Err::<Self, Error>(Error::NegZeroBalance),
            initial_balance > 0 ==> r is Ok && r->Ok_0@ == BookView::fresh(initial_balance as int),
            r is Ok ==> r->Ok_0@.wf(),
    {
        match Wallet::new(initial_balance) {
            Err(e) => Err(e),
            Ok(wallet) => Ok(
                Book {
                    wallet,
                    orders: VecDeque::new(),
                    positions: VecDeque::new(),
                    events: Vec::new(),
                    next_id: 0,
                    realized: Ghost(Seq::empty()),
                },
            ),
        }
    }

    /// The balance of the wallet.
    pub(crate) fn balance(&self) -> (r: i128)
        ensures
            r == self@.wallet.balance,
    {
        self.wallet.balance()
    }

    /// The funds locked for pending orders.
    pub(crate) fn locked(&self) -> (r: i128)
        ensures
            r == self@.wallet.locked,
    {
        self.wallet.locked()
    }

    /// The free balance of the wallet.
    pub(crate) fn free_balance(&self) -> (r: Result<i128, Error>)
        ensures
            r == Ok::<i128, Error>(self@.wallet.free() as i128),
            0 <= self@.wallet.free() <= i128::MAX,
    {
        self.wallet.free_balance()
    }

    /// The pending orders, oldest first.
    pub(crate) fn orders(&self) -> (r: &VecDeque<Order>)
        ensures
            r@ == self@.orders,
    {
        &self.orders
    }

    /// The open positions, oldest first.
    pub(crate) fn positions(&self) -> (r: &VecDeque<Position>)
        ensures
            r@ == self@.positions,
    {
        &self.positions
    }

    /// The event log, oldest entry first.
    pub(crate) fn events(&self) -> (r: &Vec<Event>)
        ensures
            r@ == self@.events,
    {
        &self.events
    }

    /// A book that stands in for another while that one is being changed.
    pub(crate) fn placeholder() -> (r: Self)
        ensures
            r@.wf(),
    {
        Book {
            wallet: Wallet::placeholder(),
            orders: VecDeque::new(),
            positions: VecDeque::new(),
            events: Vec::new(),
            next_id: 0,
            realized: Ghost(Seq::empty()),
        }
    }

    /// Places a new order.
    pub(crate) fn place_order(&mut self, order: Order) -> (r: Result<(), Error>)
        requires
            old(self)@.wf(),
        ensures
            final(self)@.wf(),
            final(self)@ == old(self)@.place(order),
            old(self)@.affords(order) ==> r is Ok,
            !old(self)@.affords(order) ==> r == Err::<(), Error>(Error::NegZeroBalance),
    {
        proof {
            lemma_total_cost_push(self.orders@, order);
        }
        match self.wallet.lock(order.cost()) {
            Err(e) => Err(e),
            Ok(_) => {
                self.orders.push_back(order);
                self.events.push(Event::AddOrder(order));
                Ok(())
            },
        }
    }

    /// The index of the first pending order equal to `order`.
    pub(crate) fn find_order(&self, order: &Order) -> (r: Option<usize>)
        ensures
            match r {
                Some(i) => self@.orders.index_of_first(*order) == Some(i as int) && i
                    < self@.orders.len() && self@.orders[i as int] == *order,
                None => self@.orders.index_of_first(*order) is None,
            },
    {
        let mut i: usize = 0;
        while i < self.orders.len()
            invariant
                i <= self.orders@.len(),
                forall|j: int| 0 <= j < i ==> self.orders@[j] != *order,
            decreases self.orders@.len() - i,
        {
            if self.orders[i] == *order {
                proof {
                    let orders = self.orders@;
                    orders.index_of_first_ensures(*order);
                    assert(orders.contains(*order));
                    let first = orders.index_of_first(*order)->Some_0;
                    assert(orders[first] == *order);
                    assert(first == i);
                }
                return Some(i);
            }
            i += 1;
        }
        proof {
            self.orders@.index_of_first_ensures(*order);
        }
        None
    }

    /// Deletes a pending order.
    pub(crate) fn delete_order(&mut self, order: &Order) -> (r: Result<(), Error>)
        requires
            old(self)@.wf(),
        ensures
            final(self)@.wf(),
            final(self)@ == old(self)@.cancel(*order),
            old(self)@.orders.contains(*order) ==> r is Ok,
            !old(self)@.orders.contains(*order) ==> r == Err::<(), Error>(Error::OrderNotFound),
    {
        proof {
            self.orders@.index_of_first_ensures(*order);
        }
        match self.find_order(order) {
            None => Err(Error::OrderNotFound),
            Some(i) => {
                proof {
                    lemma_total_cost_remove(self.orders@, i as int);
                }
                match self.wallet.unlock(order.cost()) {
                    Err(e) => Err(e),
                    Ok(_) => {
                        self.orders.remove(i);
                        self.events.push(Event::DelOrder(*order));
                        Ok(())
                    },
                }
            },
        }
    }

    /// Opens the position that filling `order` opens, out of the funds that
    /// the order had locked.
    fn open_position(&mut self, order: Order, Ghost(queued): Ghost<Seq<Order>>) -> (position:
        Position)
        requires
            (BookView { orders: queued, ..old(self)@ }).wf(),
            queued.contains(order),
        ensures
            position == (Position { id: old(self)@.next_id as ID, ..opened_by(order) }),
            final(self)@ == (BookView {
                wallet: WalletView {
                    balance: old(self)@.wallet.balance - order.spec_cost(),
                    locked: old(self)@.wallet.locked - order.spec_cost(),
                    ..old(self)@.wallet
                },
                positions: old(self)@.positions.push(position),
                events: old(self)@.events.push(Event::AddPosition(position)),
                next_id: old(self)@.next_id + 1,
                ..old(self)@
            }),
            final(self)@.wallet.wf(),
            final(self)@.next_id <= final(self)@.events.len(),
    {
        let mut position = Position::from(order);
        position.set_id(self.next_id);
        proof {
            let at = choose|i: int| 0 <= i < queued.len() && queued[i] == order;
            lemma_total_cost_remove(queued, at);
        }
        let paid = self.wallet.sub(order.cost());
        assert(paid is Ok);
        self.positions.push_back(position);
        self.events.push(Event::AddPosition(position));
        assert(self.events.len() <= usize::MAX);
        self.next_id = self.next_id + 1;
        position
    }

    /// Executes pending orders based on current candle data.
    pub(crate) fn execute_orders(&mut self, candle: &Candle)
        requires
            old(self)@.wf(),
        ensures
            final(self)@.wf(),
            final(self)@ == old(self)@.fill(*candle),
    {
        let ghost start = self@;
        let ghost mut done: int = 0;
        let mut kept: VecDeque<Order> = VecDeque::new();
        assert(start.orders.take(0) =~= Seq::<Order>::empty());
        assert(start.orders.skip(0) =~= start.orders);
        assert(kept@ + self.orders@ =~= start.orders);
        proof {
            reveal(Seq::filter);
        }
        assert(self.positions@ + numbered(Seq::<Order>::empty(), start.next_id) =~= self.positions@);
        assert(self.events@ + openings(numbered(Seq::<Order>::empty(), start.next_id))
            =~= self.events@);
        while self.orders.len() > 0
            invariant
                0 <= done <= start.orders.len(),
                start.wf(),
                self.orders@ == start.orders.skip(done),
                kept@ == start.orders.take(done).filter(stays(*candle)),
                (BookView { orders: kept@ + self.orders@, ..self@ }).wf(),
                self@.positions == start.positions + numbered(
                    start.orders.take(done).filter(fills(*candle)),
                    start.next_id,
                ),
                self@.events == start.events + openings(
                    numbered(start.orders.take(done).filter(fills(*candle)), start.next_id),
                ),
                self@.wallet == (WalletView {
                    balance: start.wallet.balance - total_cost(
                        start.orders.take(done).filter(fills(*candle)),
                    ),
                    locked: start.wallet.locked - total_cost(
                        start.orders.take(done).filter(fills(*candle)),
                    ),
                    ..start.wallet
                }),
                self@.next_id == start.next_id + start.orders.take(done).filter(
                    fills(*candle),
                ).len(),
                self@.realized == start.realized,
            decreases self.orders@.len(),
        {
            let ghost before = self@;
            let ghost seen = start.orders.take(done);
            let ghost filled = seen.filter(fills(*candle));
            let front = self.orders.pop_front();
            let order = front.unwrap();
            proof {
                assert(order == start.orders[done]);
                assert(start.orders.take(done + 1) =~= seen.push(order));
                seen.lemma_filter_push(order, fills(*candle));
                seen.lemma_filter_push(order, stays(*candle));
                assert(self.orders@ =~= start.orders.skip(done + 1));
            }
            if order.fills_on(candle) {
                proof {
                    assert((kept@ + before.orders)[kept@.len() as int] == order);
                    assert(kept@ + self.orders@ =~= (kept@ + before.orders).remove(
                        kept@.len() as int,
                    ));
                    lemma_total_cost_remove(kept@ + before.orders, kept@.len() as int);
                    lemma_total_cost_push(filled, order);
                }
                let position = self.open_position(order, Ghost(kept@ + before.orders));
                proof {
                    lemma_open_cost_push(before.positions, position);
                    assert(numbered(filled.push(order), start.next_id) =~= numbered(
                        filled,
                        start.next_id,
                    ).push(position));
                    assert(openings(numbered(filled.push(order), start.next_id)) =~= openings(
                        numbered(filled, start.next_id),
                    ).push(Event::AddPosition(position)));
                    assert(self@.positions =~= start.positions + numbered(
                        filled.push(order),
                        start.next_id,
                    ));
                    assert(self@.events =~= start.events + openings(
                        numbered(filled.push(order), start.next_id),
                    ));
                }
            } else {
                kept.push_back(order);
                proof {
                    assert(kept@ + self.orders@ =~= seen.filter(stays(*candle)) + before.orders);
                }
            }
            proof {
                done = done + 1;
            }
        }
        proof {
            assert(start.orders.take(done) =~= start.orders);
            assert(kept@ + self.orders@ =~= kept@);
        }
        self.orders.append(&mut kept);
        proof {
            assert(self.orders@ =~= start.orders.filter(stays(*candle)));
        }
    }

    /// Closes the position at `index` at `exit_price`.
    pub(crate) fn close_at(&mut self, index: usize, exit_price: u64) -> (r: Result<i128, Error>)
        requires
            old(self)@.wf(),
            index < old(self)@.positions.len(),
        ensures
            final(self)@.wf(),
            (final(self)@, as_outcome(r)) == old(self)@.close_at(index as int, exit_price),
    {
        let position = self.positions[index];
        proof {
            lemma_product_bound(position.entry_price as int, position.quantity as int);
            lemma_signed_product_bound(
                exit_price - position.entry_price,
                position.quantity as int,
            );
            lemma_signed_product_bound(
                position.entry_price - exit_price,
                position.quantity as int,
            );
            lemma_open_cost_remove(self.positions@, index as int);
            lemma_sum_push(self.realized@, position.spec_estimate_profit(exit_price));
        }
        let profit = position.estimate_profit(exit_price);
        match self.wallet.add(profit + position.cost()) {
            Err(e) => Err(e),
            Ok(_) => {
                self.positions.remove(index);
                self.events.push(Event::DelPosition(position));
                self.realized = Ghost(self.realized@.push(profit as int));
                Ok(profit)
            },
        }
    }

    /// The index of the open position numbered `id`.
    pub(crate) fn find_position(&self, id: ID) -> (r: Option<usize>)
        ensures
            match r {
                Some(i) => position_index(self@.positions, id) == Some(i as int) && i
                    < self@.positions.len() && self@.positions[i as int].id == id,
                None => position_index(self@.positions, id) is None,
            },
    {
        let ghost ids = self.positions@.map_values(|p: Position| p.id);
        let mut i: usize = 0;
        while i < self.positions.len()
            invariant
                i <= self.positions@.len(),
                ids == self.positions@.map_values(|p: Position| p.id),
                forall|j: int| 0 <= j < i ==> ids[j] != id,
            decreases self.positions@.len() - i,
        {
            if self.positions[i].id == id {
                proof {
                    ids.index_of_first_ensures(id);
                    assert(ids[i as int] == id);
                    assert(ids.contains(id));
                    let first = ids.index_of_first(id)->Some_0;
                    assert(ids[first] == id);
                    assert(first == i);
                }
                return Some(i);
            }
            i += 1;
        }
        proof {
            ids.index_of_first_ensures(id);
        }
        None
    }

    /// Closes an existing position.
    pub(crate) fn close_position(&mut self, id: ID, exit_price: u64) -> (r: Result<i128, Error>)
        requires
            old(self)@.wf(),
        ensures
            final(self)@.wf(),
            (final(self)@, as_outcome(r)) == old(self)@.close(id, exit_price),
    {
        if exit_price == 0 {
            return Err(Error::InvalidPrice);
        }
        match self.find_position(id) {
            None => Err(Error::PositionNotFound),
            Some(index) => self.close_at(index, exit_price),
        }
    }

    /// Closes every open position at `exit_price`, oldest first.
    pub(crate) fn close_all_positions(&mut self, exit_price: u64) -> (r: Result<(), Error>)
        requires
            old(self)@.wf(),
        ensures
            final(self)@.wf(),
            (final(self)@, r) == old(self)@.close_all(exit_price),
    {
        if exit_price == 0 {
            return Err(Error::InvalidPrice);
        }
        while self.positions.len() > 0
            invariant
                exit_price != 0,
                self@.wf(),
                self@.close_all(exit_price) == old(self)@.close_all(exit_price),
            decreases self.positions@.len(),
        {
            match self.close_at(0, exit_price) {
                Err(e) => {
                    return Err(e);
                },
                Ok(_) => {},
            }
        }
        Ok(())
    }

    /// Executes position management (take-profit, stop-loss, trailing stop).
    pub(crate) fn execute_positions(&mut self, candle: &Candle) -> (r: Result<(), Error>)
        requires
            old(self)@.wf(),
        ensures
            final(self)@.wf(),
            (final(self)@, r) == old(self)@.exits(*candle),
    {
        let mut index: usize = 0;
        while index < self.positions.len()
            invariant
                self@.wf(),
                index <= self@.positions.len(),
                self@.exits_from(*candle, index as int) == old(self)@.exits(*candle),
            decreases self.positions@.len() - index,
        {
            match self.positions[index].exit_on(candle) {
                ExitDecision::Hold => {
                    index += 1;
                },
                ExitDecision::Unsupported => {
                    return Err(Error::UnsupportedExitRule);
                },
                ExitDecision::Close(price) => {
                    if price <= 0 || price > u64::MAX as i128 {
                        return Err(Error::InvalidPrice);
                    }
                    match self.close_at(index, price as u64) {
                        Err(e) => {
                            return Err(e);
                        },
                        Ok(_) => {},
                    }
                },
            }
        }
        Ok(())
    }

    /// Resets the book to its initial state.
    pub(crate) fn reset(&mut self)
        requires
            old(self)@.wf(),
        ensures
            final(self)@.wf(),
            final(self)@ == BookView::fresh(old(self)@.wallet.initial),
    {
        self.wallet.reset();
        self.orders = VecDeque::new();
        self.positions = VecDeque::new();
        self.events = Vec::new();
        self.next_id = 0;
        self.realized = Ghost(Seq::empty());
    }
}

} // verus!
