//! The engine: wallet, orders, positions and the per-tick simulation.

use vstd::prelude::*;
use std::collections::VecDeque;
use crate::engine::book::{Book, BookView, Event};
use crate::engine::candle::Candle;
use crate::engine::order::Order;
use crate::engine::position::{Position, ID};
use crate::engine::wallet::as_outcome;
use crate::errors::Error;

pub mod book;
pub mod candle;
pub mod laws;
pub mod order;
pub mod position;
pub mod wallet;

verus! {

/// The mathematical content of a [`Backtest`].
pub struct BacktestView {
    /// The candle series, which never changes.
    pub candles: Seq<Candle>,
    /// The index of the candle that the next tick plays.
    pub cursor: nat,
    /// The wallet, the orders, the positions and the event log.
    pub book: BookView,
}

impl BacktestView {
    /// The engine before its first tick.
    pub open spec fn fresh(candles: Seq<Candle>, initial: int) -> BacktestView {
        BacktestView { candles, cursor: 0, book: BookView::fresh(initial) }
    }

    /// What holds of an engine at all times: it has candles, its cursor is
    /// within the series or just past it, and its book is sound.
    pub open spec fn wf(self) -> bool {
        &&& 0 < self.candles.len()
        &&& self.cursor <= self.candles.len()
        &&& self.book.wf()
    }

    /// Whether every candle has been played.
    pub open spec fn finished(self) -> bool {
        self.cursor >= self.candles.len()
    }

    /// The candle that the next tick plays, if there is one left.
    pub open spec fn current(self) -> Option<Candle> {
        if self.finished() {
            None
        } else {
            Some(self.candles[self.cursor as int])
        }
    }

    /// The engine after a reset: as it was created.
    pub open spec fn reset(self) -> BacktestView {
        BacktestView::fresh(self.candles, self.book.wallet.initial)
    }

    /// A run with a strategy that is a function of the engine that it is
    /// handed: the engine that the run leaves, and how the run ended. On each
    /// candle left the strategy has its turn, then the tick is played; the
    /// run ends when no candle is left, or at the first failure.
    pub open spec fn replay(
        self,
        strategy: spec_fn(BacktestView) -> (BacktestView, Result<(), Error>),
    ) -> (BacktestView, Ending)
        decreases self.candles.len() - self.cursor,
    {
        if self.finished() {
            (self, Ending::Finished)
        } else {
            let (handed, outcome) = strategy(self);
            match outcome {
                Err(e) => (handed, Ending::StrategyFailed(e)),
                Ok(_) => if handed.cursor != self.cursor || handed.candles.len()
                    != self.candles.len() {
                    (handed, Ending::CursorMoved)
                } else {
                    let (played, r) = handed.step();
                    match r {
                        Err(e) => (played, Ending::TickFailed(e)),
                        Ok(_) => played.replay(strategy),
                    }
                },
            }
        }
    }

    /// The same engine with another book.
    pub open spec fn with_book(self, book: BookView) -> BacktestView {
        BacktestView { book, ..self }
    }

    /// One tick, after the strategy has had its turn: the order-fill pass on
    /// the current candle, then the exit-rule pass on it, then the cursor
    /// moves on. Where the exit-rule pass fails the cursor stays. A finished
    /// engine is unchanged.
    pub open spec fn step(self) -> (BacktestView, Result<(), Error>) {
        match self.current() {
            None => (self, Ok(())),
            Some(candle) => {
                let (book, r) = self.book.fill(candle).exits(candle);
                if r is Ok {
                    (BacktestView { cursor: self.cursor + 1, book, ..self }, r)
                } else {
                    (self.with_book(book), r)
                }
            },
        }
    }
}

/// How a run ended.
pub enum Ending {
    /// Every candle was played.
    Finished,
    /// The strategy returned the error, and the tick was not played.
    StrategyFailed(Error),
    /// The strategy moved the cursor or handed back a series of another
    /// length, and the tick was not played.
    CursorMoved,
    /// A pass of the tick returned the error.
    TickFailed(Error),
}

/// What a strategy does on each candle, before the engine fills orders and
/// closes positions on it. It may place and cancel orders, close positions
/// and read the balances; an error that it returns ends the run.
pub trait Strategy {
    /// Called once per tick with the engine and the candle of the tick, which
    /// is the candle that the engine's cursor stands on.
    fn on_candle(&mut self, engine: &mut Backtest, candle: &Candle) -> Result<(), Error>
        requires
            old(engine)@.current() == Some(*candle),
    ;
}

/// Backtesting engine for trading strategies.
pub struct Backtest {
    index: usize,
    data: Vec<Candle>,
    book: Book,
}

impl View for Backtest {
    type V = BacktestView;

    closed spec fn view(&self) -> BacktestView {
        BacktestView { candles: self.data@, cursor: self.index as nat, book: self.book@ }
    }
}

impl Backtest {
    /// Every engine is well formed.
    #[verifier::type_invariant]
    pub open spec fn inv(self) -> bool {
        self@.wf()
    }

    /// Creates a new backtest instance with the given candle data.
    pub fn new(data: Vec<Candle>, initial_balance: i128) -> (r: Result<Self, Error>)
        ensures
            data@.len() == 0 ==> r == Err::<Self, Error>(Error::CandleDataEmpty),
            data@.len() > 0 && initial_balance <= 0 ==> r == Err::<Self, Error>(
                Error::NegZeroBalance,
            ),
            data@.len() > 0 && initial_balance > 0 ==> r is Ok && r->Ok_0@ == BacktestView::fresh(
                data@,
                initial_balance as int,
            ),
    {
        if data.is_empty() {
            return Err(Error::CandleDataEmpty);
        }
        match Book::new(initial_balance) {
            Err(e) => Err(e),
            Ok(book) => Ok(Self { index: 0, data, book }),
        }
    }

    /// Takes the book out of the engine, leaving a stand-in behind.
    fn take_book(&mut self) -> (book: Book)
        ensures
            book@ == old(self)@.book,
            book@.wf(),
            final(self)@.candles == old(self)@.candles,
            final(self)@.cursor == old(self)@.cursor,
            old(self)@.wf(),
    {
        proof {
            use_type_invariant(&*self);
        }
        let mut book = Book::placeholder();
        core::mem::swap(&mut self.book, &mut book);
        book
    }

    /// Puts `book` into the engine.
    fn put_book(&mut self, book: Book)
        requires
            book@.wf(),
        ensures
            final(self)@ == old(self)@.with_book(book@),
    {
        proof {
            use_type_invariant(&*self);
        }
        self.book = book;
    }

    /// The candle series.
    pub fn candles(&self) -> (r: &Vec<Candle>)
        ensures
            r@ == self@.candles,
    {
        &self.data
    }

    /// The index of the candle that the next tick plays.
    pub fn index(&self) -> (r: usize)
        ensures
            r == self@.cursor,
    {
        self.index
    }

    /// The candle that the next tick plays, if there is one left.
    pub fn current_candle(&self) -> (r: Option<&Candle>)
        ensures
            match r {
                Some(candle) => self@.current() == Some(*candle),
                None => self@.current() is None,
            },
    {
        if self.index < self.data.len() {
            Some(&self.data[self.index])
        } else {
            None
        }
    }

    /// The balance of the wallet.
    pub fn balance(&self) -> (r: i128)
        ensures
            r == self@.book.wallet.balance,
    {
        self.book.balance()
    }

    /// The funds locked for pending orders.
    pub fn locked(&self) -> (r: i128)
        ensures
            r == self@.book.wallet.locked,
    {
        self.book.locked()
    }

    /// The free balance of the wallet (available for new trades).
    pub fn free_balance(&self) -> (r: Result<i128, Error>)
        ensures
            r == Ok::<i128, Error>(self@.book.wallet.free() as i128),
            0 <= self@.book.wallet.free() <= i128::MAX,
    {
        self.book.free_balance()
    }

    /// The pending orders, oldest first.
    pub fn orders(&self) -> (r: &VecDeque<Order>)
        ensures
            r@ == self@.book.orders,
    {
        self.book.orders()
    }

    /// The open positions, oldest first.
    pub fn positions(&self) -> (r: &VecDeque<Position>)
        ensures
            r@ == self@.book.positions,
    {
        self.book.positions()
    }

    /// The event log, oldest entry first.
    pub fn events(&self) -> (r: &Vec<Event>)
        ensures
            r@ == self@.book.events,
    {
        self.book.events()
    }

    /// Places a new order.
    pub fn place_order(&mut self, order: Order) -> (r: Result<(), Error>)
        ensures
            final(self)@ == old(self)@.with_book(old(self)@.book.place(order)),
            old(self)@.book.affords(order) ==> r is Ok,
            !old(self)@.book.affords(order) ==> r == Err::<(), Error>(Error::NegZeroBalance),
    {
        let mut book = self.take_book();
        let r = book.place_order(order);
        self.put_book(book);
        r
    }

    /// Deletes a pending order.
    pub fn delete_order(&mut self, order: &Order) -> (r: Result<(), Error>)
        ensures
            final(self)@ == old(self)@.with_book(old(self)@.book.cancel(*order)),
            old(self)@.book.orders.contains(*order) ==> r is Ok,
            !old(self)@.book.orders.contains(*order) ==> r == Err::<(), Error>(
                Error::OrderNotFound,
            ),
    {
        let mut book = self.take_book();
        let r = book.delete_order(order);
        self.put_book(book);
        r
    }

    /// Closes an existing position.
    pub fn close_position(&mut self, id: ID, exit_price: u64) -> (r: Result<i128, Error>)
        ensures
            final(self)@ == old(self)@.with_book(old(self)@.book.close(id, exit_price).0),
            as_outcome(r) == old(self)@.book.close(id, exit_price).1,
    {
        let mut book = self.take_book();
        let r = book.close_position(id, exit_price);
        self.put_book(book);
        r
    }

    /// Closes every open position at `exit_price`, oldest first, up to the
    /// first one that fails.
    pub fn close_all_positions(&mut self, exit_price: u64) -> (r: Result<(), Error>)
        ensures
            final(self)@ == old(self)@.with_book(old(self)@.book.close_all(exit_price).0),
            r == old(self)@.book.close_all(exit_price).1,
    {
        let mut book = self.take_book();
        let r = book.close_all_positions(exit_price);
        self.put_book(book);
        r
    }

    /// Plays one tick without a strategy: fills the orders that the current
    /// candle fills, closes the positions whose exit rule it triggers, and
    /// moves on to the next candle.
    pub fn step(&mut self) -> (r: Result<(), Error>)
        ensures
            (final(self)@, r) == old(self)@.step(),
    {
        proof {
            use_type_invariant(&*self);
        }
        if self.index >= self.data.len() {
            return Ok(());
        }
        let candle = self.data[self.index];
        let mut book = self.take_book();
        book.execute_orders(&candle);
        let r = book.execute_positions(&candle);
        self.put_book(book);
        if r.is_ok() {
            self.index = self.index + 1;
        }
        r
    }

    /// Runs the backtest, calling the strategy on each candle and then
    /// playing the tick. The run ends at the first error, of the strategy or
    /// of the engine; a strategy that moves the cursor ends it too.
    ///
    /// An engine that has played every candle is left as it is, and the
    /// strategy is not called. A run that succeeds has played every candle
    /// that was left, of a series as long as the one it started with.
    pub fn run<S: Strategy>(&mut self, strategy: &mut S) -> (r: Result<(), Error>)
        ensures
            old(self)@.finished() ==> r is Ok && final(self)@ == old(self)@,
            r is Ok ==> final(self)@.finished(),
            r is Ok ==> final(self)@.candles.len() == old(self)@.candles.len(),
            r is Ok ==> final(self)@.cursor == old(self)@.candles.len(),
    {
        proof {
            use_type_invariant(&*self);
        }
        let total = self.data.len();
        let mut tick = self.index;
        while tick < total
            invariant
                old(self)@.cursor <= tick <= total,
                total == old(self)@.candles.len(),
                self@.cursor == tick,
                self@.candles.len() == total,
                tick == old(self)@.cursor ==> self@ == old(self)@,
            decreases total - tick,
        {
            let candle = self.data[tick];
            let outcome = strategy.on_candle(self, &candle);
            match self.after_strategy(tick, total, outcome) {
                Err(e) => {
                    return Err(e);
                },
                Ok(_) => {},
            }
            tick += 1;
        }
        Ok(())
    }

    /// What a run does once the strategy has had its turn at tick `tick` of
    /// a series of `total` candles. The strategy's error ends the run, and is
    /// the error returned; nothing of the tick is played. So does a strategy
    /// that has moved the cursor or handed back a series of another length.
    /// Otherwise the tick is played, as [`Backtest::step`] plays it.
    pub fn after_strategy(&mut self, tick: usize, total: usize, outcome: Result<(), Error>) -> (r:
        Result<(), Error>)
        ensures
            outcome is Err ==> r == outcome && final(self)@ == old(self)@,
            outcome is Ok && (old(self)@.cursor != tick || old(self)@.candles.len() != total)
                ==> (r matches Err(Error::Unreachable(_))) && final(self)@ == old(self)@,
            outcome is Ok && old(self)@.cursor == tick && old(self)@.candles.len() == total ==> (
                final(self)@,
                r,
            ) == old(self)@.step(),
    {
        match outcome {
            Err(e) => {
                return Err(e);
            },
            Ok(_) => {},
        }
        if self.index != tick || self.data.len() != total {
            return Err(Error::Unreachable("the strategy moved the cursor".to_owned()));
        }
        self.step()
    }

    /// Resets the backtest to its initial state.
    pub fn reset(&mut self)
        ensures
            final(self)@ == old(self)@.reset(),
    {
        let mut book = self.take_book();
        book.reset();
        self.put_book(book);
        self.index = 0;
    }
}

} // verus!
