use bts::engine::book::Event;
use bts::engine::candle::Candle;
use bts::engine::order::{Order, OrderSide};
use bts::engine::position::{Position, PositionExitRule, PositionSide};
use bts::engine::{Backtest, Strategy};
use bts::errors::Error;

fn candle(low: u64, high: u64) -> Candle {
    Candle::from((low, high, low, high, 1_000))
}

fn buy(entry: u64, quantity: u32, rule: PositionExitRule) -> Order {
    Order::new(OrderSide::Buy, entry, quantity, rule)
}

const OFF: PositionExitRule = PositionExitRule::TakeProfitAndStopLoss(0, 0);

/// Places the orders of the tick it is called on, by the number of the tick.
struct Script {
    tick: usize,
    orders: Vec<(usize, Order)>,
}

impl Strategy for Script {
    fn on_candle(&mut self, engine: &mut Backtest, _candle: &Candle) -> Result<(), Error> {
        for (at, order) in self.orders.iter() {
            if *at == self.tick {
                engine.place_order(*order)?;
            }
        }
        self.tick += 1;
        Ok(())
    }
}

#[test]
fn test_new_rejects_bad_configuration() {
    assert!(matches!(Backtest::new(Vec::new(), 100), Err(Error::CandleDataEmpty)));
    assert!(matches!(Backtest::new(Vec::new(), 0), Err(Error::CandleDataEmpty)));
    assert!(matches!(Backtest::new(vec![candle(1, 2)], 0), Err(Error::NegZeroBalance)));
    assert!(matches!(Backtest::new(vec![candle(1, 2)], -1), Err(Error::NegZeroBalance)));
    let bt = Backtest::new(vec![candle(1, 2)], 100).unwrap();
    assert_eq!(bt.balance(), 100);
    assert_eq!(bt.locked(), 0);
    assert_eq!(bt.index(), 0);
    assert_eq!(bt.current_candle(), Some(&candle(1, 2)));
    assert_eq!(bt.candles().len(), 1);
    assert!(bt.orders().is_empty() && bt.positions().is_empty() && bt.events().is_empty());
}

#[test]
fn test_place_and_delete_order() {
    let mut bt = Backtest::new(vec![candle(90, 110)], 1_000).unwrap();
    let order = buy(100, 4, OFF);
    bt.place_order(order).unwrap();
    assert_eq!(bt.balance(), 1_000);
    assert_eq!(bt.locked(), 400);
    assert_eq!(bt.free_balance().unwrap(), 600);

    // 7 * 100 > 600
    assert!(matches!(bt.place_order(buy(100, 7, OFF)), Err(Error::NegZeroBalance)));
    assert_eq!(bt.locked(), 400);
    assert_eq!(bt.orders().len(), 1);

    let other = buy(100, 6, OFF);
    bt.place_order(other).unwrap();
    assert_eq!(bt.free_balance().unwrap(), 0);

    assert!(matches!(bt.delete_order(&buy(100, 5, OFF)), Err(Error::OrderNotFound)));
    bt.delete_order(&order).unwrap();
    assert_eq!(bt.locked(), 600);
    assert_eq!(bt.orders().iter().copied().collect::<Vec<_>>(), vec![other]);
    assert!(matches!(bt.delete_order(&order), Err(Error::OrderNotFound)));
    assert_eq!(
        bt.events().clone(),
        vec![Event::AddOrder(order), Event::AddOrder(other), Event::DelOrder(order)]
    );
}

#[test]
fn test_delete_order_takes_the_first_of_equal_orders() {
    let mut bt = Backtest::new(vec![candle(90, 110)], 1_000).unwrap();
    let a = buy(100, 1, OFF);
    let b = buy(50, 1, OFF);
    bt.place_order(a).unwrap();
    bt.place_order(b).unwrap();
    bt.place_order(a).unwrap();
    bt.delete_order(&a).unwrap();
    assert_eq!(bt.orders().iter().copied().collect::<Vec<_>>(), vec![b, a]);
    assert_eq!(bt.locked(), 150);
}

#[test]
fn test_fill_containment() {
    let mut bt = Backtest::new(vec![candle(90, 110), candle(100, 120)], 10_000).unwrap();
    let inside = buy(95, 2, OFF);
    let above = buy(111, 3, OFF);
    let at_low = buy(90, 1, OFF);
    let below = buy(89, 1, OFF);
    let at_high = Order::new(OrderSide::Sell, 110, 1, OFF);
    for order in [inside, above, at_low, below, at_high] {
        bt.place_order(order).unwrap();
    }
    assert_eq!(bt.locked(), 190 + 333 + 90 + 89 + 110);
    bt.step().unwrap();

    // the orders outside the range stay, in their order
    assert_eq!(bt.orders().iter().copied().collect::<Vec<_>>(), vec![above, below]);
    let positions = bt.positions().iter().copied().collect::<Vec<_>>();
    assert_eq!(positions.len(), 3);
    assert_eq!(
        positions.iter().map(|p| (p.id(), p.entry_price(), p.quantity())).collect::<Vec<_>>(),
        vec![(0, 95, 2), (1, 90, 1), (2, 110, 1)]
    );
    assert_eq!(*positions[0].side(), PositionSide::Long);
    assert_eq!(*positions[2].side(), PositionSide::Short);
    assert_eq!(bt.locked(), 333 + 89);
    assert_eq!(bt.balance(), 10_000 - 190 - 90 - 110);
    assert_eq!(bt.index(), 1);

    // the next candle reaches 111
    bt.step().unwrap();
    assert_eq!(bt.orders().iter().copied().collect::<Vec<_>>(), vec![below]);
    assert_eq!(bt.positions().len(), 4);
    assert_eq!(bt.positions()[3].id(), 3);
    assert_eq!(bt.index(), 2);
    assert_eq!(bt.current_candle(), None);

    // a finished engine is unchanged by a tick
    let events = bt.events().clone();
    bt.step().unwrap();
    assert_eq!(bt.index(), 2);
    assert_eq!(bt.events().clone(), events);
}

#[test]
fn test_exit_tie_break() {
    let mut bt = Backtest::new(vec![candle(90, 110)], 1_000).unwrap();
    let order = buy(100, 2, PositionExitRule::TakeProfitAndStopLoss(105, 95));
    bt.place_order(order).unwrap();
    bt.step().unwrap();
    assert!(bt.positions().is_empty());
    // closed at 105: profit (105 - 100) * 2
    assert_eq!(bt.balance(), 1_010);
    let opened = Position { id: 0, ..Position::from(order) };
    assert_eq!(
        bt.events().clone(),
        vec![Event::AddOrder(order), Event::AddPosition(opened), Event::DelPosition(opened)]
    );
}

#[test]
fn test_stop_loss_exit() {
    let mut bt = Backtest::new(vec![candle(100, 104), candle(90, 104)], 1_000).unwrap();
    bt.place_order(buy(100, 2, PositionExitRule::TakeProfitAndStopLoss(105, 95))).unwrap();
    bt.step().unwrap();
    assert_eq!(bt.positions().len(), 1);
    assert_eq!(bt.balance(), 800);
    bt.step().unwrap();
    assert!(bt.positions().is_empty());
    assert_eq!(bt.balance(), 990);
}

#[test]
fn test_trailing_stop_exit() {
    let mut bt = Backtest::new(vec![candle(200, 210), candle(150, 210)], 10_000).unwrap();
    bt.place_order(buy(200, 3, PositionExitRule::TrailingStop(180, 5))).unwrap();
    bt.step().unwrap();
    assert_eq!(bt.positions().len(), 1);
    bt.step().unwrap();
    assert!(bt.positions().is_empty());
    // closed at 180 - 5% = 171: profit (171 - 200) * 3
    assert_eq!(bt.balance(), 10_000 - 87);
}

#[test]
fn test_unsupported_exit_rule_fails_the_tick() {
    let mut bt = Backtest::new(vec![candle(90, 110), candle(90, 110)], 1_000).unwrap();
    bt.place_order(buy(100, 1, OFF)).unwrap();
    bt.place_order(buy(100, 1, PositionExitRule::Limit(100))).unwrap();
    bt.place_order(buy(100, 1, PositionExitRule::TakeProfitAndStopLoss(105, 0))).unwrap();
    assert!(matches!(bt.step(), Err(Error::UnsupportedExitRule)));
    // the positions from the failing one on stay open, and the cursor stays
    assert_eq!(bt.positions().iter().map(|p| p.id()).collect::<Vec<_>>(), vec![0, 1, 2]);
    assert_eq!(bt.index(), 0);
    assert_eq!(bt.balance(), 700);
}

#[test]
fn test_invalid_trailing_exit_price_fails_the_tick() {
    let mut bt = Backtest::new(vec![candle(90, 110)], 1_000).unwrap();
    bt.place_order(buy(100, 1, PositionExitRule::TrailingStop(100, 100))).unwrap();
    assert!(matches!(bt.step(), Err(Error::InvalidPrice)));
    assert_eq!(bt.positions().len(), 1);
    // a short position whose exit price would lie above every price
    let mut bt = Backtest::new(vec![candle(90, u64::MAX)], 1_000).unwrap();
    bt.place_order(Order::new(OrderSide::Sell, 100, 1, PositionExitRule::TrailingStop(u64::MAX, 1)))
        .unwrap();
    assert!(matches!(bt.step(), Err(Error::InvalidPrice)));
    assert_eq!(bt.positions().len(), 1);
    // below the high the trigger is not touched
    let mut bt = Backtest::new(vec![candle(90, 110)], 1_000).unwrap();
    bt.place_order(Order::new(OrderSide::Sell, 100, 1, PositionExitRule::TrailingStop(u64::MAX, 1)))
        .unwrap();
    bt.step().unwrap();
    assert_eq!(bt.positions().len(), 1);
}

#[test]
fn test_close_position() {
    let mut bt = Backtest::new(vec![candle(90, 110)], 1_000).unwrap();
    bt.place_order(buy(100, 2, OFF)).unwrap();
    bt.place_order(Order::new(OrderSide::Sell, 100, 2, OFF)).unwrap();
    bt.step().unwrap();
    assert_eq!(bt.balance(), 600);

    assert!(matches!(bt.close_position(0, 0), Err(Error::InvalidPrice)));
    assert!(matches!(bt.close_position(9, 120), Err(Error::PositionNotFound)));
    // an invalid price is reported before an unknown position
    assert!(matches!(bt.close_position(9, 0), Err(Error::InvalidPrice)));
    assert_eq!(bt.positions().len(), 2);

    assert_eq!(bt.close_position(1, 120).unwrap(), -40);
    assert_eq!(bt.balance(), 760);
    assert_eq!(bt.close_position(0, 120).unwrap(), 40);
    assert_eq!(bt.balance(), 1_000);
    assert!(matches!(bt.close_position(0, 120), Err(Error::PositionNotFound)));
}

#[test]
fn test_close_position_rejected_by_the_wallet() {
    let mut bt = Backtest::new(vec![candle(90, 110)], 1_000).unwrap();
    bt.place_order(Order::new(OrderSide::Sell, 100, 10, OFF)).unwrap();
    bt.step().unwrap();
    assert_eq!(bt.balance(), 0);
    // the loss exceeds the cost: (100 - 201) * 10 + 1000 < 0
    assert!(matches!(bt.close_position(0, 201), Err(Error::NegZeroBalance)));
    assert_eq!(bt.positions().len(), 1);
    assert_eq!(bt.balance(), 0);
    assert_eq!(bt.close_position(0, 200).unwrap(), -1_000);
    assert_eq!(bt.balance(), 0);
}

#[test]
fn test_close_position_overflow() {
    let mut bt = Backtest::new(vec![candle(1, 1)], i128::MAX).unwrap();
    bt.place_order(buy(1, 1, OFF)).unwrap();
    bt.step().unwrap();
    assert_eq!(bt.balance(), i128::MAX - 1);
    assert!(matches!(bt.close_position(0, 2), Err(Error::Overflow)));
    assert_eq!(bt.positions().len(), 1);
    assert_eq!(bt.close_position(0, 1).unwrap(), 0);
}

#[test]
fn test_close_all_positions() {
    let mut bt = Backtest::new(vec![candle(90, 110)], 1_000).unwrap();
    bt.place_order(buy(100, 2, OFF)).unwrap();
    bt.place_order(buy(95, 2, OFF)).unwrap();
    bt.place_order(buy(10, 2, OFF)).unwrap();
    bt.step().unwrap();
    assert!(matches!(bt.close_all_positions(0), Err(Error::InvalidPrice)));
    assert_eq!(bt.positions().len(), 2);
    bt.close_all_positions(110).unwrap();
    assert!(bt.positions().is_empty());
    assert_eq!(bt.balance(), 1_000 + 20 + 30);
    assert_eq!(bt.orders().len(), 1);
    bt.close_all_positions(110).unwrap();
}

#[test]
fn test_conservation() {
    let candles =
        vec![candle(90, 110), candle(100, 120), candle(80, 100), candle(95, 130), candle(70, 90)];
    let mut bt = Backtest::new(candles, 5_000).unwrap();
    let mut script = Script {
        tick: 0,
        orders: vec![
            (0, buy(100, 3, PositionExitRule::TakeProfitAndStopLoss(118, 85))),
            (0, Order::new(OrderSide::Sell, 105, 2, PositionExitRule::TakeProfitAndStopLoss(82, 125))),
            (1, buy(119, 1, PositionExitRule::TrailingStop(100, 2))),
            (3, buy(96, 4, OFF)),
            (3, buy(300, 1, OFF)),
        ],
    };
    bt.run(&mut script).unwrap();
    assert_eq!(bt.index(), 5);
    bt.close_all_positions(90).unwrap();
    let pending = bt.orders().iter().copied().collect::<Vec<_>>();
    for order in pending.iter() {
        bt.delete_order(order).unwrap();
    }
    assert!(bt.orders().is_empty() && bt.positions().is_empty());
    assert_eq!(bt.locked(), 0);

    // (118 - 100) * 3 + (105 - 82) * 2 + (98 - 119) * 1 + (90 - 96) * 4
    let realized: i128 = 54 + 46 - 21 - 24;
    assert_eq!(bt.balance(), 5_000 + realized);
    let closed = bt.events().iter().filter(|e| matches!(e, Event::DelPosition(_))).count();
    assert_eq!(closed, 4);
}

#[test]
fn test_reset_replays_identically() {
    let candles = vec![candle(90, 110), candle(100, 120), candle(80, 100)];
    let orders = vec![
        (0, buy(100, 3, PositionExitRule::TakeProfitAndStopLoss(118, 85))),
        (1, buy(101, 1, PositionExitRule::TrailingStop(99, 10))),
        (2, buy(500, 1, OFF)),
    ];
    let mut bt = Backtest::new(candles.clone(), 5_000).unwrap();
    bt.run(&mut Script { tick: 0, orders: orders.clone() }).unwrap();
    let balance = bt.balance();
    let locked = bt.locked();
    let events = bt.events().clone();
    assert!(!events.is_empty());

    bt.reset();
    assert_eq!((bt.balance(), bt.locked(), bt.index()), (5_000, 0, 0));
    assert!(bt.orders().is_empty() && bt.positions().is_empty() && bt.events().is_empty());
    assert_eq!(bt.candles().clone(), candles);

    bt.run(&mut Script { tick: 0, orders: orders.clone() }).unwrap();
    assert_eq!(bt.balance(), balance);
    assert_eq!(bt.locked(), locked);
    assert_eq!(bt.events().clone(), events);

    let mut again = Backtest::new(candles, 5_000).unwrap();
    again.run(&mut Script { tick: 0, orders }).unwrap();
    assert_eq!(again.balance(), balance);
    assert_eq!(again.events().clone(), events);
}

struct Failing;

impl Strategy for Failing {
    fn on_candle(&mut self, engine: &mut Backtest, _candle: &Candle) -> Result<(), Error> {
        if engine.index() == 1 {
            return Err(Error::InsufficientFunds(42));
        }
        Ok(())
    }
}

struct Rewinding;

impl Strategy for Rewinding {
    fn on_candle(&mut self, engine: &mut Backtest, _candle: &Candle) -> Result<(), Error> {
        if engine.index() == 1 {
            engine.reset();
        }
        Ok(())
    }
}

#[test]
fn test_run_ends_at_the_first_error() {
    let candles = vec![candle(90, 110), candle(100, 120), candle(80, 100)];
    let mut bt = Backtest::new(candles.clone(), 5_000).unwrap();
    assert!(matches!(bt.run(&mut Failing), Err(Error::InsufficientFunds(42))));
    assert_eq!(bt.index(), 1);

    let mut bt = Backtest::new(candles.clone(), 5_000).unwrap();
    assert!(matches!(bt.run(&mut Rewinding), Err(Error::Unreachable(_))));

    let mut bt = Backtest::new(candles, 5_000).unwrap();
    let mut script = Script { tick: 0, orders: vec![(1, buy(100, 1, PositionExitRule::Limit(1)))] };
    assert!(matches!(bt.run(&mut script), Err(Error::UnsupportedExitRule)));
    assert_eq!(bt.index(), 1);
}

struct Never;

impl Strategy for Never {
    fn on_candle(&mut self, _engine: &mut Backtest, _candle: &Candle) -> Result<(), Error> {
        Err(Error::InsufficientFunds(0))
    }
}

#[test]
fn test_run_on_a_finished_engine_changes_nothing() {
    let candles = vec![candle(90, 110), candle(100, 120)];
    let mut bt = Backtest::new(candles.clone(), 5_000).unwrap();
    let mut script = Script { tick: 0, orders: vec![(0, buy(100, 3, OFF)), (1, buy(500, 1, OFF))] };
    bt.run(&mut script).unwrap();
    assert_eq!(bt.index(), 2);
    assert_eq!(bt.candles().len(), 2);
    let before = (bt.balance(), bt.locked(), bt.events().clone());
    let orders = bt.orders().iter().copied().collect::<Vec<_>>();
    let positions = bt.positions().iter().copied().collect::<Vec<_>>();

    // the strategy is not called: it would fail
    bt.run(&mut Never).unwrap();
    assert_eq!(bt.index(), 2);
    assert_eq!((bt.balance(), bt.locked(), bt.events().clone()), before);
    assert_eq!(bt.orders().iter().copied().collect::<Vec<_>>(), orders);
    assert_eq!(bt.positions().iter().copied().collect::<Vec<_>>(), positions);
    assert_eq!(bt.candles().clone(), candles);

    // on an engine with candles left it is called
    bt.reset();
    assert!(matches!(bt.run(&mut Never), Err(Error::InsufficientFunds(0))));
    assert_eq!(bt.index(), 0);
}

/// Notes the candles that it is handed, and checks each against the cursor.
struct Watcher {
    seen: Vec<Candle>,
}

impl Strategy for Watcher {
    fn on_candle(&mut self, engine: &mut Backtest, candle: &Candle) -> Result<(), Error> {
        assert_eq!(engine.current_candle(), Some(candle));
        assert_eq!(engine.index(), self.seen.len());
        self.seen.push(*candle);
        Ok(())
    }
}

#[test]
fn test_run_hands_each_candle_in_turn() {
    let candles = vec![candle(90, 110), candle(100, 120), candle(80, 100)];
    let mut bt = Backtest::new(candles.clone(), 5_000).unwrap();
    let mut watcher = Watcher { seen: Vec::new() };
    bt.run(&mut watcher).unwrap();
    assert_eq!(watcher.seen, candles);
    assert_eq!(bt.index(), 3);
    assert_eq!(bt.candles().clone(), candles);
    // a second run without a reset calls the strategy no more
    bt.run(&mut watcher).unwrap();
    assert_eq!(watcher.seen.len(), 3);
}

#[test]
fn test_after_strategy() {
    let candles = vec![candle(90, 110), candle(100, 120)];
    let mut bt = Backtest::new(candles, 1_000).unwrap();
    let order = buy(100, 2, OFF);
    bt.place_order(order).unwrap();

    // the strategy's error is handed on, and the tick is not played
    let r = bt.after_strategy(0, 2, Err(Error::InsufficientFunds(3)));
    assert!(matches!(r, Err(Error::InsufficientFunds(3))));
    assert_eq!((bt.index(), bt.orders().len(), bt.positions().len()), (0, 1, 0));

    // a cursor that is not where the run left it
    assert!(matches!(bt.after_strategy(1, 2, Ok(())), Err(Error::Unreachable(_))));
    assert!(matches!(bt.after_strategy(0, 3, Ok(())), Err(Error::Unreachable(_))));
    assert_eq!((bt.index(), bt.orders().len(), bt.positions().len()), (0, 1, 0));

    // otherwise the tick is played
    bt.after_strategy(0, 2, Ok(())).unwrap();
    assert_eq!((bt.index(), bt.orders().len(), bt.positions().len()), (1, 0, 1));
    assert_eq!(bt.balance(), 800);
}
