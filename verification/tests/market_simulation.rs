use backtester::direction::Direction;
use backtester::execution::Execution;
use backtester::market_simulation::MarketSimulation;
use backtester::ohlcv::Ohlcv;
use backtester::order::{
    CancellationReason, Order, OrderBuilder, OrderId, OrderKind, OrderStatus,
};
use backtester::symbol::{Price, SymbolId};
use backtester::timestamp::Timestamp;
use chrono::{TimeZone, Utc};

/// A price in ten-thousandths.
fn price(value: f64) -> Price {
    (value * 10_000.0).round() as Price
}

fn utc(year: i32, month: u32, day: u32, hour: u32, minute: u32, second: u32) -> Timestamp {
    let datetime = Utc.with_ymd_and_hms(year, month, day, hour, minute, second).unwrap();
    Timestamp::new(datetime.timestamp(), datetime.timestamp_subsec_nanos())
}

fn build(id: &str, builder: OrderBuilder) -> Order {
    builder.set_id(OrderId::from(id)).build().unwrap()
}

#[test]
fn update_market_order() {
    let market_simulation = MarketSimulation::new();
    let symbol_id = SymbolId::from("eur/usd");
    let order = build(
        "order",
        OrderBuilder::unallocated(OrderKind::MarketOrder, symbol_id.clone(), Direction::Long),
    );
    let updates = market_simulation.update_orders(
        &vec![order.clone()],
        &Ohlcv::new(
            symbol_id.clone(),
            utc(2016, 1, 3, 17, 0, 0),
            price(1.),
            price(2.),
            price(0.),
            price(1.5),
            1,
        ),
    );
    let expected: Vec<(OrderId, OrderStatus)> = vec![(
        order.id().clone(),
        OrderStatus::Filled(Execution::new(
            symbol_id.clone(),
            order.quantity(),
            price(1.),
            utc(2016, 1, 3, 17, 0, 0),
        )),
    )];
    assert_eq!(updates, expected);
}

#[test]
fn update_limit_long_order() {
    let market_simulation = MarketSimulation::new();
    let symbol_id = SymbolId::from("eur/usd");
    let executed_order = build(
        "executed",
        OrderBuilder::unallocated(
            OrderKind::LimitOrder(price(100.)),
            symbol_id.clone(),
            Direction::Long,
        ),
    );
    let not_executed_order = build(
        "not executed",
        OrderBuilder::unallocated(
            OrderKind::LimitOrder(price(99.)),
            symbol_id.clone(),
            Direction::Long,
        ),
    );
    let updates = market_simulation.update_orders(
        &vec![executed_order.clone(), not_executed_order.clone()],
        &Ohlcv::new(
            symbol_id.clone(),
            utc(2016, 1, 3, 17, 0, 0),
            price(0.),
            price(0.),
            price(99.),
            price(0.),
            1,
        ),
    );
    let expected: Vec<(OrderId, OrderStatus)> = vec![(
        executed_order.id().clone(),
        OrderStatus::Filled(Execution::new(
            symbol_id.clone(),
            executed_order.quantity(),
            price(100.),
            utc(2016, 1, 3, 17, 0, 0),
        )),
    )];
    assert_eq!(updates, expected);
}

#[test]
fn update_limit_short_order() {
    let market_simulation = MarketSimulation::new();
    let symbol_id = SymbolId::from("eur/usd");
    let executed_order = build(
        "executed",
        OrderBuilder::unallocated(
            OrderKind::LimitOrder(price(100.)),
            symbol_id.clone(),
            Direction::Short,
        ),
    );
    let not_executed_order = build(
        "not executed",
        OrderBuilder::unallocated(
            OrderKind::LimitOrder(price(101.)),
            symbol_id.clone(),
            Direction::Short,
        ),
    );
    let updates = market_simulation.update_orders(
        &vec![executed_order.clone(), not_executed_order.clone()],
        &Ohlcv::new(
            symbol_id.clone(),
            utc(2016, 1, 3, 17, 0, 0),
            price(0.),
            price(101.),
            price(0.),
            price(0.),
            1,
        ),
    );
    let expected: Vec<(OrderId, OrderStatus)> = vec![(
        executed_order.id().clone(),
        OrderStatus::Filled(Execution::new(
            symbol_id.clone(),
            executed_order.quantity(),
            price(100.),
            utc(2016, 1, 3, 17, 0, 0),
        )),
    )];
    assert_eq!(updates, expected);
}

#[test]
fn update_stop_long_order() {
    let market_simulation = MarketSimulation::new();
    let symbol_id = SymbolId::from("eur/usd");
    let executed_order = build(
        "executed",
        OrderBuilder::unallocated(
            OrderKind::StopOrder(price(100.)),
            symbol_id.clone(),
            Direction::Long,
        ),
    );
    let not_executed_order = build(
        "not executed",
        OrderBuilder::unallocated(
            OrderKind::StopOrder(price(101.)),
            symbol_id.clone(),
            Direction::Long,
        ),
    );
    let updates = market_simulation.update_orders(
        &vec![executed_order.clone(), not_executed_order.clone()],
        &Ohlcv::new(
            symbol_id.clone(),
            utc(2016, 1, 3, 17, 0, 0),
            price(0.),
            price(101.),
            price(0.),
            price(0.),
            1,
        ),
    );
    let expected: Vec<(OrderId, OrderStatus)> = vec![(
        executed_order.id().clone(),
        OrderStatus::Filled(Execution::new(
            symbol_id.clone(),
            executed_order.quantity(),
            price(100.),
            utc(2016, 1, 3, 17, 0, 0),
        )),
    )];
    assert_eq!(updates, expected);
}

#[test]
fn update_stop_short_order() {
    let market_simulation = MarketSimulation::new();
    let symbol_id = SymbolId::from("eur/usd");
    let executed_order = build(
        "executed",
        OrderBuilder::unallocated(
            OrderKind::StopOrder(price(100.)),
            symbol_id.clone(),
            Direction::Short,
        ),
    );
    let not_executed_order = build(
        "not executed",
        OrderBuilder::unallocated(
            OrderKind::StopOrder(price(99.)),
            symbol_id.clone(),
            Direction::Short,
        ),
    );
    let updates = market_simulation.update_orders(
        &vec![executed_order.clone(), not_executed_order.clone()],
        &Ohlcv::new(
            symbol_id.clone(),
            utc(2016, 1, 3, 17, 0, 0),
            price(0.),
            price(0.),
            price(99.),
            price(0.),
            1,
        ),
    );
    let expected: Vec<(OrderId, OrderStatus)> = vec![(
        executed_order.id().clone(),
        OrderStatus::Filled(Execution::new(
            symbol_id.clone(),
            executed_order.quantity(),
            price(100.),
            utc(2016, 1, 3, 17, 0, 0),
        )),
    )];
    assert_eq!(updates, expected);
}

#[test]
fn update_oca() {
    let market_simulation = MarketSimulation::new();
    let symbol_id = SymbolId::from("eur/usd");
    let not_executed_order_1 = build(
        "not executed 1",
        OrderBuilder::unallocated(
            OrderKind::LimitOrder(price(100.)),
            symbol_id.clone(),
            Direction::Short,
        )
        .set_oca(Some(String::from("0"))),
    );
    let executed_order = build(
        "executed",
        OrderBuilder::unallocated(OrderKind::MarketOrder, symbol_id.clone(), Direction::Short)
            .set_oca(Some(String::from("0"))),
    );
    let not_executed_order_2 = build(
        "not executed 2",
        OrderBuilder::unallocated(
            OrderKind::StopOrder(price(98.)),
            symbol_id.clone(),
            Direction::Short,
        )
        .set_oca(Some(String::from("0"))),
    );
    let updates = market_simulation.update_orders(
        &vec![
            not_executed_order_1.clone(),
            executed_order.clone(),
            not_executed_order_2.clone(),
        ],
        &Ohlcv::new(
            symbol_id.clone(),
            utc(2016, 1, 3, 17, 0, 0),
            price(0.),
            price(0.),
            price(99.),
            price(0.),
            1,
        ),
    );
    let expected: Vec<(OrderId, OrderStatus)> = vec![
        (
            not_executed_order_1.id().clone(),
            OrderStatus::Cancelled(CancellationReason::FilledOca),
        ),
        (
            executed_order.id().clone(),
            OrderStatus::Filled(Execution::new(
                symbol_id.clone(),
                executed_order.quantity(),
                price(0.),
                utc(2016, 1, 3, 17, 0, 0),
            )),
        ),
        (
            not_executed_order_2.id().clone(),
            OrderStatus::Cancelled(CancellationReason::FilledOca),
        ),
    ];
    assert_eq!(updates, expected);
}

#[test]
fn update_outdated_order() {
    let market_simulation = MarketSimulation::new();
    let symbol_id = SymbolId::from("eur/usd");
    let executed_order = build(
        "executed",
        OrderBuilder::unallocated(
            OrderKind::StopOrder(price(100.)),
            symbol_id.clone(),
            Direction::Short,
        ),
    );
    let cancelled_order = build(
        "cancelled",
        OrderBuilder::unallocated(
            OrderKind::StopOrder(price(100.)),
            symbol_id.clone(),
            Direction::Short,
        )
        .set_active_until(Some(utc(2016, 1, 3, 16, 59, 59))),
    );
    let updates = market_simulation.update_orders(
        &vec![executed_order.clone(), cancelled_order.clone()],
        &Ohlcv::new(
            symbol_id.clone(),
            utc(2016, 1, 3, 17, 0, 0),
            price(0.),
            price(0.),
            price(99.),
            price(0.),
            1,
        ),
    );
    let expected: Vec<(OrderId, OrderStatus)> = vec![
        (
            executed_order.id().clone(),
            OrderStatus::Filled(Execution::new(
                symbol_id.clone(),
                executed_order.quantity(),
                price(100.),
                utc(2016, 1, 3, 17, 0, 0),
            )),
        ),
        (
            cancelled_order.id().clone(),
            OrderStatus::Cancelled(CancellationReason::OutdatedOrder),
        ),
    ];
    assert_eq!(updates, expected);
}

#[test]
fn update_inactive_order() {
    let market_simulation = MarketSimulation::new();
    let symbol_id = SymbolId::from("eur/usd");
    let executed_order = build(
        "executed",
        OrderBuilder::unallocated(
            OrderKind::StopOrder(price(100.)),
            symbol_id.clone(),
            Direction::Short,
        ),
    );
    let not_executed_order = build(
        "not executed",
        OrderBuilder::unallocated(
            OrderKind::StopOrder(price(100.)),
            symbol_id.clone(),
            Direction::Short,
        )
        .set_active_after(Some(utc(2016, 1, 3, 17, 0, 1))),
    );
    let updates = market_simulation.update_orders(
        &vec![executed_order.clone(), not_executed_order.clone()],
        &Ohlcv::new(
            symbol_id.clone(),
            utc(2016, 1, 3, 17, 0, 0),
            price(0.),
            price(0.),
            price(99.),
            price(0.),
            1,
        ),
    );
    let expected: Vec<(OrderId, OrderStatus)> = vec![(
        executed_order.id().clone(),
        OrderStatus::Filled(Execution::new(
            symbol_id.clone(),
            executed_order.quantity(),
            price(100.),
            utc(2016, 1, 3, 17, 0, 0),
        )),
    )];
    assert!(updates == expected);
}

fn candle(symbol: &str, second: u32, open: f64, high: f64, low: f64, close: f64) -> Ohlcv {
    Ohlcv::new(
        SymbolId::from(symbol),
        utc(2016, 1, 3, 17, 0, second),
        price(open),
        price(high),
        price(low),
        price(close),
        1,
    )
}

fn filled(symbol: &str, quantity: u32, at: f64, second: u32) -> OrderStatus {
    OrderStatus::Filled(Execution::new(
        SymbolId::from(symbol),
        quantity,
        price(at),
        utc(2016, 1, 3, 17, 0, second),
    ))
}

#[test]
fn no_orders_no_updates() {
    let updates =
        MarketSimulation::new().update_orders(&vec![], &candle("eur/usd", 0, 1., 2., 0., 1.5));
    assert!(updates.is_empty());
}

#[test]
fn oca_first_eligible_order_is_filled_the_others_are_cancelled() {
    let symbol_id = SymbolId::from("eur/usd");
    let market = |id: &str, group: &str| {
        build(
            id,
            OrderBuilder::unallocated(OrderKind::MarketOrder, symbol_id.clone(), Direction::Long)
                .set_oca(Some(String::from(group)))
                .set_quantity(7),
        )
    };
    let orders = vec![market("a", "g"), market("b", "g"), market("c", "h"), market("d", "g")];
    let updates =
        MarketSimulation::new().update_orders(&orders, &candle("eur/usd", 0, 1.25, 2., 0., 1.5));
    let expected: Vec<(OrderId, OrderStatus)> = vec![
        (OrderId::from("a"), filled("eur/usd", 7, 1.25, 0)),
        (OrderId::from("b"), OrderStatus::Cancelled(CancellationReason::FilledOca)),
        (OrderId::from("c"), filled("eur/usd", 7, 1.25, 0)),
        (OrderId::from("d"), OrderStatus::Cancelled(CancellationReason::FilledOca)),
    ];
    assert_eq!(updates, expected);
}

#[test]
fn oca_group_that_is_not_filled_cancels_nothing() {
    let symbol_id = SymbolId::from("eur/usd");
    let limit = |id: &str, at: f64| {
        build(
            id,
            OrderBuilder::unallocated(
                OrderKind::LimitOrder(price(at)),
                symbol_id.clone(),
                Direction::Long,
            )
            .set_oca(Some(String::from("g"))),
        )
    };
    let orders = vec![limit("a", 1.), limit("b", 2.)];
    let updates =
        MarketSimulation::new().update_orders(&orders, &candle("eur/usd", 0, 5., 6., 4., 5.));
    assert!(updates.is_empty());
}

#[test]
fn expired_order_is_cancelled_even_if_the_prices_trigger_it() {
    let symbol_id = SymbolId::from("eur/usd");
    let order = build(
        "late",
        OrderBuilder::unallocated(OrderKind::MarketOrder, symbol_id.clone(), Direction::Long)
            .set_active_until(Some(utc(2016, 1, 3, 17, 0, 5))),
    );
    let at_the_bound =
        MarketSimulation::new().update_orders(&vec![order.clone()], &candle("eur/usd", 5, 1., 2., 0., 1.));
    assert_eq!(
        at_the_bound,
        vec![(OrderId::from("late"), OrderStatus::Cancelled(CancellationReason::OutdatedOrder))]
    );
    let before_the_bound =
        MarketSimulation::new().update_orders(&vec![order], &candle("eur/usd", 4, 1., 2., 0., 1.));
    assert_eq!(before_the_bound, vec![(OrderId::from("late"), filled("eur/usd", 0, 1., 4))]);
}

#[test]
fn expired_order_of_another_instrument_is_cancelled() {
    let order = build(
        "late",
        OrderBuilder::unallocated(
            OrderKind::MarketOrder,
            SymbolId::from("eur/usd"),
            Direction::Long,
        )
        .set_active_until(Some(utc(2016, 1, 3, 17, 0, 0))),
    );
    let updates =
        MarketSimulation::new().update_orders(&vec![order], &candle("usd/jpy", 0, 1., 2., 0., 1.));
    assert_eq!(
        updates,
        vec![(OrderId::from("late"), OrderStatus::Cancelled(CancellationReason::OutdatedOrder))]
    );
}

#[test]
fn expired_order_of_a_filled_group_is_cancelled_for_the_group() {
    let symbol_id = SymbolId::from("eur/usd");
    let expired = build(
        "a",
        OrderBuilder::unallocated(OrderKind::MarketOrder, symbol_id.clone(), Direction::Long)
            .set_oca(Some(String::from("g")))
            .set_active_until(Some(utc(2016, 1, 3, 16, 0, 0))),
    );
    let sibling = build(
        "b",
        OrderBuilder::unallocated(OrderKind::MarketOrder, symbol_id.clone(), Direction::Long)
            .set_oca(Some(String::from("g"))),
    );
    let updates = MarketSimulation::new()
        .update_orders(&vec![expired, sibling], &candle("eur/usd", 0, 1., 2., 0., 1.));
    let expected: Vec<(OrderId, OrderStatus)> = vec![
        (OrderId::from("a"), OrderStatus::Cancelled(CancellationReason::FilledOca)),
        (OrderId::from("b"), filled("eur/usd", 0, 1., 0)),
    ];
    assert_eq!(updates, expected);
}

#[test]
fn candle_of_another_instrument_changes_nothing() {
    let orders = vec![
        build(
            "market",
            OrderBuilder::unallocated(
                OrderKind::MarketOrder,
                SymbolId::from("eur/usd"),
                Direction::Long,
            ),
        ),
        build(
            "limit",
            OrderBuilder::unallocated(
                OrderKind::LimitOrder(price(100.)),
                SymbolId::from("eur/usd"),
                Direction::Long,
            ),
        ),
    ];
    let updates =
        MarketSimulation::new().update_orders(&orders, &candle("usd/jpy", 0, 1., 2., 0., 1.));
    assert!(updates.is_empty());
}

#[test]
fn order_becomes_active_at_its_bound() {
    let order = build(
        "later",
        OrderBuilder::unallocated(
            OrderKind::MarketOrder,
            SymbolId::from("eur/usd"),
            Direction::Short,
        )
        .set_active_after(Some(utc(2016, 1, 3, 17, 0, 3))),
    );
    let engine = MarketSimulation::new();
    assert!(engine
        .update_orders(&vec![order.clone()], &candle("eur/usd", 2, 1., 2., 0., 1.))
        .is_empty());
    assert_eq!(
        engine.update_orders(&vec![order], &candle("eur/usd", 3, 1.5, 2., 0., 1.)),
        vec![(OrderId::from("later"), filled("eur/usd", 0, 1.5, 3))]
    );
}

#[test]
fn prices_at_the_trigger_level_do_not_fill() {
    let symbol_id = SymbolId::from("eur/usd");
    let order = |id: &str, kind: OrderKind, direction: Direction| {
        build(id, OrderBuilder::unallocated(kind, symbol_id.clone(), direction))
    };
    let orders = vec![
        order("limit long", OrderKind::LimitOrder(price(99.)), Direction::Long),
        order("limit short", OrderKind::LimitOrder(price(101.)), Direction::Short),
        order("stop long", OrderKind::StopOrder(price(101.)), Direction::Long),
        order("stop short", OrderKind::StopOrder(price(99.)), Direction::Short),
    ];
    let updates = MarketSimulation::new()
        .update_orders(&orders, &candle("eur/usd", 0, 100., 101., 99., 100.));
    assert!(updates.is_empty());
}

#[test]
fn timestamps_compare_by_seconds_then_nanoseconds() {
    let early = Timestamp::new(10, 999_999_999);
    let late = Timestamp::new(11, 0);
    assert!(early.is_before(&late));
    assert!(!late.is_before(&early));
    assert!(!early.is_before(&early));
    assert!(early.is_not_after(&early));
    assert!(Timestamp::new(11, 0).is_before(&Timestamp::new(11, 1)));
    assert!(!Timestamp::new(11, 1).is_not_after(&Timestamp::new(11, 0)));
    assert!(Timestamp::new(-1, 5).is_before(&Timestamp::new(0, 0)));
}
