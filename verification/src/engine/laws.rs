//! What holds of the engine's book whatever it goes through.

use vstd::prelude::*;
use crate::engine::book::{
    fills, lemma_open_cost_remove, lemma_sum_concat, lemma_sum_push, lemma_total_cost_push,
    lemma_total_cost_remove, numbered, open_cost, openings, position_index, stays, sum,
    total_cost, BookView,
};
use crate::engine::candle::Candle;
use crate::engine::order::Order;
use crate::engine::position::{opened_by, ExitDecision, Position, PositionExitRule, PositionSide, ID};
use crate::engine::wallet::WalletOp;
use crate::engine::BacktestView;
use crate::errors::Error;

verus! {

/// Conservation: once no order is pending and no position is open, the
/// balance is the initial balance and the profits realised by the positions
/// that were closed, and nothing is locked.
pub proof fn lemma_conservation(book: BookView)
    requires
        book.wf(),
        book.orders.len() == 0,
        book.positions.len() == 0,
    ensures
        book.wallet.balance == book.wallet.initial + sum(book.realized),
        book.wallet.locked == 0,
        book.wallet.free() == book.wallet.balance,
{
    assert(book.orders.map_values(|o: Order| o.spec_cost()) =~= Seq::<int>::empty());
    assert(book.positions.map_values(|p: Position| p.spec_cost()) =~= Seq::<int>::empty());
}

/// A book that has not started is sound.
pub proof fn lemma_fresh_is_sound(initial: int)
    requires
        0 < initial <= i128::MAX,
    ensures
        BookView::fresh(initial).wf(),
{
    let book = BookView::fresh(initial);
    assert(book.orders.map_values(|o: Order| o.spec_cost()) =~= Seq::<int>::empty());
    assert(book.positions.map_values(|p: Position| p.spec_cost()) =~= Seq::<int>::empty());
}

/// Placing an order keeps the book sound; the order is accepted exactly when
/// the free balance covers its cost.
pub proof fn lemma_place_is_sound(book: BookView, order: Order)
    requires
        book.wf(),
    ensures
        book.place(order).wf(),
        book.affords(order) <==> book.wallet.accepts(WalletOp::Lock(order.spec_cost())),
        book.affords(order) ==> book.place(order).wallet == book.wallet.apply(
            WalletOp::Lock(order.spec_cost()),
        ),
{
    lemma_total_cost_push(book.orders, order);
    assert(order.spec_cost() >= 0) by (nonlinear_arith)
        requires
            order.spec_cost() == order.entry_price * order.quantity,
            order.entry_price >= 0,
            order.quantity >= 0,
    ;
}

/// Cancelling an order keeps the book sound.
pub proof fn lemma_cancel_is_sound(book: BookView, order: Order)
    requires
        book.wf(),
    ensures
        book.cancel(order).wf(),
{
    book.orders.index_of_first_ensures(order);
    match book.orders.index_of_first(order) {
        Some(i) => {
            lemma_total_cost_remove(book.orders, i);
        },
        None => {},
    }
}

/// Closing a position keeps the book sound, and where it succeeds the balance
/// grows by the profit and the cost of the position.
pub proof fn lemma_close_at_is_sound(book: BookView, index: int, exit_price: u64)
    requires
        book.wf(),
        0 <= index < book.positions.len(),
    ensures
        book.close_at(index, exit_price).0.wf(),
        book.close_at(index, exit_price).1 is Ok ==> {
            let closed = book.close_at(index, exit_price).0;
            &&& closed.wallet.balance == book.wallet.balance + book.credit(index, exit_price)
            &&& closed.positions.len() == book.positions.len() - 1
            &&& closed.orders == book.orders
        },
        book.close_at(index, exit_price).1 is Err ==> book.close_at(index, exit_price).0 == book,
{
    lemma_open_cost_remove(book.positions, index);
    lemma_sum_push(book.realized, book.positions[index].spec_estimate_profit(exit_price));
}

/// Closing a position by its number keeps the book sound.
pub proof fn lemma_close_is_sound(book: BookView, id: ID, exit_price: u64)
    requires
        book.wf(),
    ensures
        book.close(id, exit_price).0.wf(),
{
    if exit_price != 0 {
        let ids = book.positions.map_values(|p: Position| p.id);
        ids.index_of_first_ensures(id);
        match position_index(book.positions, id) {
            Some(index) => {
                lemma_close_at_is_sound(book, index, exit_price);
            },
            None => {},
        }
    }
}

/// Closing all positions keeps the book sound; where it succeeds no position
/// is left open.
pub proof fn lemma_close_all_is_sound(book: BookView, exit_price: u64)
    requires
        book.wf(),
    ensures
        book.close_all(exit_price).0.wf(),
        book.close_all(exit_price).1 is Ok ==> book.close_all(exit_price).0.positions.len() == 0,
        book.close_all(exit_price).0.orders == book.orders,
    decreases book.positions.len(),
{
    if exit_price != 0 && book.positions.len() > 0 {
        lemma_close_at_is_sound(book, 0, exit_price);
        let (next, r) = book.close_at(0, exit_price);
        if r is Ok {
            lemma_close_all_is_sound(next, exit_price);
        }
    }
}

/// The exit-rule pass keeps the book sound and leaves the pending orders alone.
pub proof fn lemma_exits_are_sound(book: BookView, candle: Candle, index: int)
    requires
        book.wf(),
    ensures
        book.exits_from(candle, index).0.wf(),
        book.exits_from(candle, index).0.orders == book.orders,
    decreases book.positions.len() - index,
{
    if 0 <= index < book.positions.len() {
        match book.positions[index].spec_exit_on(&candle) {
            ExitDecision::Hold => {
                lemma_exits_are_sound(book, candle, index + 1);
            },
            ExitDecision::Unsupported => {},
            ExitDecision::Close(price) => {
                if 0 < price <= u64::MAX {
                    lemma_close_at_is_sound(book, index, price as u64);
                    let (next, r) = book.close_at(index, price as u64);
                    if r is Ok {
                        lemma_exits_are_sound(next, candle, index);
                    }
                }
            },
        }
    }
}

/// The orders that a candle fills and those that it leaves make up the queue:
/// in number and in cost.
pub proof fn lemma_fill_splits(orders: Seq<Order>, candle: Candle)
    ensures
        orders.filter(fills(candle)).len() + orders.filter(stays(candle)).len() == orders.len(),
        total_cost(orders.filter(fills(candle))) + total_cost(orders.filter(stays(candle)))
            == total_cost(orders),
        0 <= total_cost(orders.filter(fills(candle))),
        0 <= total_cost(orders.filter(stays(candle))),
    decreases orders.len(),
{
    reveal(Seq::filter);
    if orders.len() == 0 {
        assert(orders.map_values(|o: Order| o.spec_cost()) =~= Seq::<int>::empty());
    } else {
        let front = orders.drop_last();
        let last = orders.last();
        lemma_fill_splits(front, candle);
        assert(orders =~= front.push(last));
        front.lemma_filter_push(last, fills(candle));
        front.lemma_filter_push(last, stays(candle));
        lemma_total_cost_push(front, last);
        lemma_total_cost_push(front.filter(fills(candle)), last);
        lemma_total_cost_push(front.filter(stays(candle)), last);
        assert(last.spec_cost() >= 0) by (nonlinear_arith)
            requires
                last.spec_cost() == last.entry_price * last.quantity,
                last.entry_price >= 0,
                last.quantity >= 0,
        ;
    }
}

/// The positions that filling orders opens cost what the orders had reserved.
pub proof fn lemma_opened_cost(orders: Seq<Order>, first_id: nat)
    ensures
        open_cost(numbered(orders, first_id)) == total_cost(orders),
{
    assert(numbered(orders, first_id).map_values(|p: Position| p.spec_cost()) =~= orders.map_values(
        |o: Order| o.spec_cost(),
    ));
}

/// The order-fill pass keeps the book sound, as long as the identifiers of
/// the positions that it opens fit in 64 bits.
pub proof fn lemma_fill_is_sound(book: BookView, candle: Candle)
    requires
        book.wf(),
        book.next_id + book.orders.len() <= u64::MAX,
    ensures
        book.fill(candle).wf(),
{
    let filled = book.filled(candle);
    let opened = numbered(filled, book.next_id);
    let after = book.fill(candle);
    lemma_fill_splits(book.orders, candle);
    lemma_opened_cost(filled, book.next_id);
    let cost = |p: Position| p.spec_cost();
    assert((book.positions + opened).map_values(cost) =~= book.positions.map_values(cost)
        + opened.map_values(cost));
    lemma_sum_concat(book.positions.map_values(cost), opened.map_values(cost));
    assert forall|i: int| 0 <= i < after.positions.len() implies (#[trigger] after.positions[i]).id
        < after.next_id by {
        if i >= book.positions.len() {
            assert(after.positions[i] == opened[i - book.positions.len()]);
        } else {
            assert(after.positions[i] == book.positions[i]);
        }
    }
    assert forall|i: int, j: int| 0 <= i < j < after.positions.len() implies (
    #[trigger] after.positions[i]).id < (#[trigger] after.positions[j]).id by {
        if i >= book.positions.len() {
            assert(after.positions[i] == opened[i - book.positions.len()]);
            assert(after.positions[j] == opened[j - book.positions.len()]);
        } else if j >= book.positions.len() {
            assert(after.positions[i] == book.positions[i]);
            assert(after.positions[j] == opened[j - book.positions.len()]);
        } else {
            assert(after.positions[i] == book.positions[i]);
            assert(after.positions[j] == book.positions[j]);
        }
    }
}

/// Fill containment: on a candle, exactly the pending orders whose entry
/// price lies between the low and the high are filled. The orders that stay
/// are those outside that range, in their order; each order filled opens one
/// position, in queue order, with the order's price, quantity and exit rule.
pub proof fn lemma_fill_containment(book: BookView, candle: Candle)
    ensures
        forall|i: int|
            0 <= i < book.orders.len() ==> (candle.low <= (#[trigger] book.orders[i]).entry_price
                <= candle.high <==> book.filled(candle).contains(book.orders[i])),
        forall|i: int|
            0 <= i < book.orders.len() ==> (!(candle.low <= (
            #[trigger] book.orders[i]).entry_price <= candle.high) <==> book.fill(
                candle,
            ).orders.contains(book.orders[i])),
        forall|k: int|
            0 <= k < book.filled(candle).len() ==> book.orders.contains(
                #[trigger] book.filled(candle)[k],
            ),
        forall|k: int|
            0 <= k < book.fill(candle).orders.len() ==> book.orders.contains(
                #[trigger] book.fill(candle).orders[k],
            ),
        book.filled(candle).len() + book.fill(candle).orders.len() == book.orders.len(),
        book.fill(candle).positions.len() == book.positions.len() + book.filled(candle).len(),
        forall|k: int|
            0 <= k < book.filled(candle).len() ==> #[trigger] book.fill(
                candle,
            ).positions[book.positions.len() + k] == (Position {
                id: (book.next_id + k) as ID,
                ..opened_by(book.filled(candle)[k])
            }),
        forall|i: int|
            0 <= i < book.positions.len() ==> #[trigger] book.fill(candle).positions[i]
                == book.positions[i],
{
    let filled = book.filled(candle);
    let kept = book.fill(candle).orders;
    lemma_fill_splits(book.orders, candle);
    assert forall|i: int| 0 <= i < book.orders.len() implies (candle.low <= (
    #[trigger] book.orders[i]).entry_price <= candle.high <==> filled.contains(
        book.orders[i],
    )) by {
        let order = book.orders[i];
        if order.spec_fills_on(&candle) {
            book.orders.lemma_filter_contains(fills(candle), i);
        }
        if filled.contains(order) {
            let k = choose|k: int| 0 <= k < filled.len() && filled[k] == order;
            book.orders.lemma_filter_pred(fills(candle), k);
        }
    }
    assert forall|i: int| 0 <= i < book.orders.len() implies (!(candle.low <= (
    #[trigger] book.orders[i]).entry_price <= candle.high) <==> kept.contains(
        book.orders[i],
    )) by {
        let order = book.orders[i];
        if !order.spec_fills_on(&candle) {
            book.orders.lemma_filter_contains(stays(candle), i);
        }
        if kept.contains(order) {
            let k = choose|k: int| 0 <= k < kept.len() && kept[k] == order;
            book.orders.lemma_filter_pred(stays(candle), k);
        }
    }
    assert forall|k: int| 0 <= k < filled.len() implies book.orders.contains(
        #[trigger] filled[k],
    ) by {
        assert(filled.contains(filled[k]));
        book.orders.lemma_filter_contains_rev(fills(candle), filled[k]);
    }
    assert forall|k: int| 0 <= k < kept.len() implies book.orders.contains(#[trigger] kept[k]) by {
        assert(kept.contains(kept[k]));
        book.orders.lemma_filter_contains_rev(stays(candle), kept[k]);
    }
}

/// Exit tie-break: where a candle reaches both the take-profit and the
/// stop-loss of a position, the position closes at the take-profit.
pub proof fn lemma_take_profit_first(position: Position, candle: Candle)
    requires
        position.exit_rule matches PositionExitRule::TakeProfitAndStopLoss(take_profit, _)
            && take_profit > 0 && match position.side {
            PositionSide::Long => take_profit <= candle.high,
            PositionSide::Short => take_profit >= candle.low,
        },
    ensures
        position.exit_rule matches PositionExitRule::TakeProfitAndStopLoss(take_profit, _)
            && position.spec_exit_on(&candle) == ExitDecision::Close(take_profit as i128),
{
}

/// One tick keeps the engine sound, as long as the identifiers of the
/// positions that it opens fit in 64 bits; it never moves the cursor back and
/// never touches the candles.
pub proof fn lemma_step_is_sound(engine: BacktestView)
    requires
        engine.wf(),
        engine.book.next_id + engine.book.orders.len() <= u64::MAX,
    ensures
        engine.step().0.wf(),
        engine.step().0.candles == engine.candles,
        engine.step().0.cursor >= engine.cursor,
        engine.step().1 is Ok && !engine.finished() ==> engine.step().0.cursor == engine.cursor + 1,
{
    match engine.current() {
        None => {},
        Some(candle) => {
            lemma_fill_is_sound(engine.book, candle);
            lemma_exits_are_sound(engine.book.fill(candle), candle, 0);
        },
    }
}

/// Idempotent reset: a reset engine is the engine as it was created, whatever
/// it went through before; so a second reset changes nothing, and what
/// follows a reset is what follows the creation.
pub proof fn lemma_reset_is_fresh(engine: BacktestView, other: BacktestView)
    requires
        other.candles == engine.candles,
        other.book.wallet.initial == engine.book.wallet.initial,
    ensures
        engine.reset() == BacktestView::fresh(engine.candles, engine.book.wallet.initial),
        engine.reset().reset() == engine.reset(),
        engine.reset() == other.reset(),
        engine.reset().step() == other.reset().step(),
{
}

/// Idempotent reset, with a strategy: a run from a reset engine is the run
/// from the engine as it was created, for every strategy that is a function
/// of the engine that it is handed. It leaves the same balance and the same
/// event log, and ends in the same way.
pub proof fn lemma_reset_replays(
    engine: BacktestView,
    other: BacktestView,
    strategy: spec_fn(BacktestView) -> (BacktestView, Result<(), Error>),
)
    requires
        other.candles == engine.candles,
        other.book.wallet.initial == engine.book.wallet.initial,
    ensures
        engine.reset().replay(strategy) == BacktestView::fresh(
            engine.candles,
            engine.book.wallet.initial,
        ).replay(strategy),
        engine.reset().replay(strategy) == other.reset().replay(strategy),
        engine.reset().replay(strategy).0.book.wallet.balance == other.reset().replay(
            strategy,
        ).0.book.wallet.balance,
        engine.reset().replay(strategy).0.book.events == other.reset().replay(
            strategy,
        ).0.book.events,
{
}

} // verus!
