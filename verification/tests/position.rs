use bts::engine::candle::Candle;
use bts::engine::order::{Order, OrderSide};
use bts::engine::position::{
    ExitDecision, Position, PositionEvent, PositionExitRule, PositionSide,
};
use bts::PercentCalculus;

fn candle(low: u64, high: u64) -> Candle {
    Candle::from((low, high, low, high, 1_000))
}

#[test]
fn test_position_event() {
    let position = Position::from((PositionSide::Long, 1, 1, PositionExitRule::Limit(1)));
    let mut event = PositionEvent::from((position.id, 1, position.side, position.entry_price));
    event.close(3, 2);
    assert_eq!(event.len(), Some(2));
}

#[test]
fn test_position_event_open() {
    let event = PositionEvent::from((7, 4, PositionSide::Short, 120));
    assert_eq!(event.id(), 7);
    assert_eq!(event.len(), None);
}

#[test]
fn test_position_cost_and_profit() {
    let long = Position::from((PositionSide::Long, 100, 3, PositionExitRule::Limit(1)));
    assert_eq!(long.id(), 0);
    assert_eq!(long.cost(), 300);
    assert_eq!(long.estimate_profit(110), 30);
    assert_eq!(long.estimate_profit(90), -30);
    assert_eq!(long.profit_change(110), Some(10));
    assert_eq!(long.profit_change(85), Some(-15));

    let short = Position::from((PositionSide::Short, 100, 3, PositionExitRule::Limit(1)));
    assert_eq!(short.cost(), 300);
    assert_eq!(short.estimate_profit(110), -30);
    assert_eq!(short.estimate_profit(90), 30);
    // measured against the value at exit: (300 - 240) * 100 / 240
    assert_eq!(short.profit_change(80), Some(25));
    assert_eq!(short.profit_change(0), None);

    let none = Position::from((PositionSide::Long, 0, 3, PositionExitRule::Limit(1)));
    assert_eq!(none.profit_change(10), None);
}

#[test]
fn test_position_from_order() {
    let rule = PositionExitRule::TakeProfitAndStopLoss(105, 95);
    let buy = Order::new(OrderSide::Buy, 100, 2, rule);
    assert_eq!(buy.cost(), 200);
    let position = Position::from(buy);
    assert_eq!(*position.side(), PositionSide::Long);
    assert_eq!(position.entry_price(), 100);
    assert_eq!(position.quantity(), 2);
    assert_eq!(*position.exit_rule(), rule);

    let sell = Order::from((OrderSide::Sell, 100, 2, rule));
    assert_eq!(*Position::from(sell).side(), PositionSide::Short);
}

#[test]
fn test_order_fills_within_candle_range() {
    let c = candle(90, 110);
    let rule = PositionExitRule::TakeProfitAndStopLoss(0, 0);
    assert!(Order::new(OrderSide::Buy, 95, 1, rule).fills_on(&c));
    assert!(Order::new(OrderSide::Buy, 90, 1, rule).fills_on(&c));
    assert!(Order::new(OrderSide::Buy, 110, 1, rule).fills_on(&c));
    assert!(!Order::new(OrderSide::Buy, 111, 1, rule).fills_on(&c));
    assert!(!Order::new(OrderSide::Buy, 89, 1, rule).fills_on(&c));
}

#[test]
fn test_exit_tie_break_prefers_take_profit() {
    let position = Position::from((
        PositionSide::Long,
        100,
        1,
        PositionExitRule::TakeProfitAndStopLoss(105, 95),
    ));
    assert_eq!(position.exit_on(&candle(90, 110)), ExitDecision::Close(105));
    assert_eq!(position.exit_on(&candle(90, 104)), ExitDecision::Close(95));
    assert_eq!(position.exit_on(&candle(96, 104)), ExitDecision::Hold);

    let short = Position::from((
        PositionSide::Short,
        100,
        1,
        PositionExitRule::TakeProfitAndStopLoss(95, 105),
    ));
    assert_eq!(short.exit_on(&candle(90, 110)), ExitDecision::Close(95));
    assert_eq!(short.exit_on(&candle(96, 110)), ExitDecision::Close(105));
    assert_eq!(short.exit_on(&candle(96, 104)), ExitDecision::Hold);
}

#[test]
fn test_exit_rule_sides_switched_off() {
    let only_stop = Position::from((
        PositionSide::Long,
        100,
        1,
        PositionExitRule::TakeProfitAndStopLoss(0, 95),
    ));
    assert_eq!(only_stop.exit_on(&candle(96, 200)), ExitDecision::Hold);
    assert_eq!(only_stop.exit_on(&candle(95, 200)), ExitDecision::Close(95));
    let off = Position::from((
        PositionSide::Long,
        100,
        1,
        PositionExitRule::TakeProfitAndStopLoss(0, 0),
    ));
    assert_eq!(off.exit_on(&candle(0, 200)), ExitDecision::Hold);
}

#[test]
fn test_trailing_stop_exit_price() {
    let long =
        Position::from((PositionSide::Long, 100, 1, PositionExitRule::TrailingStop(200, 2)));
    assert_eq!(long.exit_on(&candle(200, 300)), ExitDecision::Close(196));
    assert_eq!(long.exit_on(&candle(201, 300)), ExitDecision::Hold);
    let short =
        Position::from((PositionSide::Short, 100, 1, PositionExitRule::TrailingStop(200, 2)));
    assert_eq!(short.exit_on(&candle(100, 200)), ExitDecision::Close(204));
    assert_eq!(short.exit_on(&candle(100, 199)), ExitDecision::Hold);
    let beyond =
        Position::from((PositionSide::Long, 100, 1, PositionExitRule::TrailingStop(200, 150)));
    assert_eq!(beyond.exit_on(&candle(100, 300)), ExitDecision::Close(-100));
}

#[test]
fn test_other_exit_rules_are_unsupported() {
    let c = candle(90, 110);
    for rule in [
        PositionExitRule::Limit(100),
        PositionExitRule::StopLoss(100),
        PositionExitRule::TakeProfit(100),
    ] {
        let position = Position::from((PositionSide::Long, 100, 1, rule));
        assert_eq!(position.exit_on(&c), ExitDecision::Unsupported);
    }
}

#[test]
fn test_percent_calculus() {
    assert_eq!(100i128.addpercent(10), 110);
    assert_eq!(100i128.subpercent(10), 90);
    assert_eq!(100i128.how_many(10), 10);
    assert_eq!(100i128.change(110), 10);
    assert_eq!(100i128.change(90), -10);
    // rounded toward zero
    assert_eq!(99i128.how_many(2), 1);
    assert_eq!((-99i128).how_many(2), -1);
    assert_eq!(99i128.addpercent(2), 100);
    assert_eq!(99i128.subpercent(2), 98);
    assert_eq!(3i128.change(4), 33);
    assert_eq!(3i128.change(2), -33);
    assert_eq!((-3i128).change(-2), -33);
}

#[test]
fn test_percent_calculus_at_the_limits() {
    // the share fits although the value raised by it would not
    assert_eq!(i128::MAX.how_many(1), i128::MAX / 100);
    assert_eq!(i128::MIN.how_many(1), -1701411834604692317316873037158841057);
    assert_eq!(i128::MAX.subpercent(1), i128::MAX - i128::MAX / 100);
    // lowering a negative value raises it: the lowest value stays in range
    assert_eq!(i128::MIN.subpercent(1), i128::MIN + 1701411834604692317316873037158841057);
    assert_eq!(0i128.addpercent(i128::MAX), 0);
}

#[test]
fn test_candle_accessors() {
    let plain = Candle::from((1, 4, 0, 3, 50));
    assert_eq!(
        (plain.open(), plain.high(), plain.low(), plain.close(), plain.volume(), plain.bid()),
        (1, 4, 0, 3, 50, 0)
    );
    assert_eq!(plain.ask(), 50);
    let with_bid = Candle::from((1, 4, 0, 3, 50, 70));
    assert_eq!(with_bid.bid(), 70);
    assert_eq!(with_bid.ask(), -20);
}
