use backtester::direction::Direction;
use backtester::execution::Execution;
use backtester::model::{Model, ModelId};
use backtester::order::policy::MarketOrderPolicy;
use backtester::order::{Order, OrderBuilder, OrderId, OrderKind, OrderStatus};
use backtester::portfolio::Portfolio;
use backtester::signal::detector::{DetectSignal, DetectSignalError};
use backtester::signal::Signal;
use backtester::strategy::{Strategy, StrategyCollection, StrategyType};
use backtester::symbol::{Price, SymbolId};
use backtester::timestamp::Timestamp;
use backtester::util::{
    active_datetime_to_str, datetime_to_str, direction_to_str, get_execution, get_order_pairs,
    order_kind_to_str, order_pair_header, order_pair_record, OrderPair,
};
use chrono::{TimeZone, Utc};

/// A price in ten-thousandths.
fn price(value: f64) -> Price {
    (value * 10_000.0).round() as Price
}

fn utc(year: i32, month: u32, day: u32, hour: u32, minute: u32, second: u32) -> Timestamp {
    let datetime = Utc.with_ymd_and_hms(year, month, day, hour, minute, second).unwrap();
    Timestamp::new(datetime.timestamp(), datetime.timestamp_subsec_nanos())
}

pub struct AlwaysDetectSignal {
    symbol_id: SymbolId,
}

impl DetectSignal for AlwaysDetectSignal {
    fn detect_signal(
        &mut self,
        datetime: &Timestamp,
    ) -> Result<Option<Signal>, DetectSignalError> {
        let signal = Signal::new(
            self.symbol_id.clone(),
            Direction::Long,
            datetime.clone(),
            String::from("always detect signal"),
        );
        Ok(Some(signal))
    }
}

pub struct OrderEveryCandle {
    symbol_id: SymbolId,
}

impl Model for OrderEveryCandle {
    fn id(&self) -> ModelId {
        ModelId::from("order every candle")
    }

    fn entry_strategy(&self) -> Strategy {
        Strategy::new(
            Box::new(AlwaysDetectSignal { symbol_id: self.symbol_id.clone() }),
            Box::new(MarketOrderPolicy::new()),
        )
    }

    fn exit_strategies(&self, _order: &Order) -> Vec<Strategy> {
        let strategy = Strategy::new(
            Box::new(AlwaysDetectSignal { symbol_id: self.symbol_id.clone() }),
            Box::new(MarketOrderPolicy::new()),
        );

        vec![strategy]
    }
}

#[test]
fn test_get_order_pairs() {
    let mut portfolio = Portfolio::new();
    let symbol_id = SymbolId::from("eur/usd");
    let datetime = utc(2017, 1, 1, 14, 0, 0);
    let model = OrderEveryCandle { symbol_id: symbol_id.clone() };
    let mut entry_strategy = model.entry_strategy();
    let entry_order_id = OrderId::from("entry order");
    let entry_order = entry_strategy
        .run(&datetime)
        .unwrap()
        .unwrap()
        .1
        .set_id(entry_order_id.clone())
        .set_status(OrderStatus::Filled(Execution::new(
            SymbolId::from("eur/usd"),
            0,
            price(1.),
            datetime.clone(),
        )))
        .build()
        .expect("failed to create entry order");
    let mut exit_strategy = model.exit_strategies(&entry_order).remove(0);
    let exit_order_id = OrderId::from("exit order");
    let exit_order = exit_strategy
        .run(&datetime)
        .unwrap()
        .unwrap()
        .1
        .set_id(exit_order_id.clone())
        .set_status(OrderStatus::Filled(Execution::new(
            SymbolId::from("eur/usd"),
            0,
            price(1.),
            datetime.clone(),
        )))
        .build()
        .expect("failed to create exit order");

    portfolio.add_orders(vec![entry_order, exit_order]);

    let mut strategy_collection = StrategyCollection::new();
    strategy_collection.order_strategy.insert(entry_order_id.clone(), entry_strategy.id().clone());
    strategy_collection.strategy_types.insert(
        entry_strategy.id().clone(),
        StrategyType::EntryStrategy(entry_strategy.id().clone(), &model),
    );

    strategy_collection.order_strategy.insert(exit_order_id.clone(), exit_strategy.id().clone());
    strategy_collection.strategy_types.insert(
        exit_strategy.id().clone(),
        StrategyType::ExitStrategy(entry_strategy.id().clone(), &model, entry_order_id.clone()),
    );

    assert_eq!(
        get_order_pairs(&portfolio, &strategy_collection),
        vec![OrderPair {
            entry_order: portfolio.closed_order(&entry_order_id).unwrap(),
            exit_order: portfolio.closed_order(&exit_order_id).unwrap()
        }]
    );
}

struct NoModel;

impl Model for NoModel {
    fn id(&self) -> ModelId {
        ModelId::from("no model")
    }

    fn entry_strategy(&self) -> Strategy {
        Strategy::new(
            Box::new(AlwaysDetectSignal { symbol_id: SymbolId::from("eur/usd") }),
            Box::new(MarketOrderPolicy::new()),
        )
    }

    fn exit_strategies(&self, _order: &Order) -> Vec<Strategy> {
        vec![]
    }
}

fn closed(id: &str, status: OrderStatus) -> Order {
    OrderBuilder::unallocated(OrderKind::MarketOrder, SymbolId::from("eur/usd"), Direction::Long)
        .set_id(OrderId::from(id))
        .set_status(status)
        .build()
        .unwrap()
}

fn filled_at(second: i64) -> OrderStatus {
    OrderStatus::Filled(Execution::new(
        SymbolId::from("eur/usd"),
        1,
        10_000,
        Timestamp::new(second, 0),
    ))
}

#[test]
fn order_pairs_come_in_the_order_in_which_the_entries_were_filled() {
    let model = NoModel;
    let mut portfolio = Portfolio::new();
    portfolio.add_orders(vec![
        closed("entry a", filled_at(30)),
        closed("entry b", filled_at(10)),
        closed("entry c", filled_at(20)),
        closed("entry d", filled_at(10)),
        closed("exit 1", filled_at(40)),
        closed("exit 2", filled_at(41)),
        closed("exit 3", filled_at(42)),
        closed("exit 4", filled_at(43)),
        closed(
            "exit 5",
            OrderStatus::Cancelled(backtester::order::CancellationReason::FilledOca),
        ),
        closed("exit 6", filled_at(44)),
    ]);
    let mut strategies = StrategyCollection::new();
    strategies
        .strategy_types
        .insert(String::from("enter"), StrategyType::EntryStrategy(String::from("enter"), &model));
    for entry in ["entry a", "entry b", "entry c", "entry d"] {
        strategies.order_strategy.insert(OrderId::from(entry), String::from("enter"));
    }
    for (exit, entry) in [
        ("exit 1", "entry a"),
        ("exit 2", "entry b"),
        ("exit 3", "entry c"),
        ("exit 4", "entry d"),
        ("exit 5", "entry a"),
        ("exit 6", "entry b"),
    ] {
        let strategy = format!("leave {}", exit);
        strategies.order_strategy.insert(OrderId::from(exit), strategy.clone());
        strategies.strategy_types.insert(
            strategy.clone(),
            StrategyType::ExitStrategy(strategy, &model, OrderId::from(entry)),
        );
    }
    let pairs: Vec<(String, String)> = get_order_pairs(&portfolio, &strategies)
        .iter()
        .map(|pair| (pair.entry_order.id().clone(), pair.exit_order.id().clone()))
        .collect();
    let expected: Vec<(String, String)> = [
        ("entry b", "exit 2"),
        ("entry d", "exit 4"),
        ("entry b", "exit 6"),
        ("entry c", "exit 3"),
        ("entry a", "exit 1"),
    ]
    .iter()
    .map(|(entry, exit)| (entry.to_string(), exit.to_string()))
    .collect();
    assert_eq!(pairs, expected);
}

#[test]
fn portfolio_without_exit_orders_has_no_pairs() {
    let model = NoModel;
    let mut portfolio = Portfolio::new();
    let mut strategies = StrategyCollection::new();
    assert!(get_order_pairs(&portfolio, &strategies).is_empty());
    portfolio.add_orders(vec![closed("entry", filled_at(1)), closed("waiting", OrderStatus::NotSent)]);
    strategies
        .strategy_types
        .insert(String::from("enter"), StrategyType::EntryStrategy(String::from("enter"), &model));
    strategies.order_strategy.insert(OrderId::from("entry"), String::from("enter"));
    strategies.order_strategy.insert(OrderId::from("waiting"), String::from("enter"));
    assert!(get_order_pairs(&portfolio, &strategies).is_empty());
}

#[test]
fn report_names_kinds_directions_and_bounds() {
    assert_eq!(order_kind_to_str(&OrderKind::MarketOrder), "MKT");
    assert_eq!(order_kind_to_str(&OrderKind::LimitOrder(5)), "LMT");
    assert_eq!(order_kind_to_str(&OrderKind::StopOrder(-5)), "STP");
    assert_eq!(direction_to_str(&Direction::Long), "LONG");
    assert_eq!(direction_to_str(&Direction::Short), "SHORT");
    assert_eq!(active_datetime_to_str(&None), "None");
    assert_eq!(
        active_datetime_to_str(&Some(utc(2017, 12, 29, 12, 0, 5))),
        "2017-12-29 12:00:05 UTC"
    );
    assert_eq!(
        active_datetime_to_str(&Some(Timestamp::new(1, 500_000_000))),
        "1970-01-01 00:00:01.500 UTC"
    );
    assert_eq!(active_datetime_to_str(&Some(Timestamp::new(i64::MAX, 0))), "");
}

#[test]
fn report_has_twenty_columns() {
    let header = order_pair_header();
    assert_eq!(header.len(), 20);
    assert_eq!(header[0], "EntryOrderId");
    assert_eq!(header[5], "EntryOrderOCA");
    assert_eq!(header[9], "EntryExecutionQuantity");
    assert_eq!(header[10], "ExitOrderId");
    assert_eq!(header[19], "ExitExecutionQuantity");
    for (entry, exit) in header[..10].iter().zip(header[10..].iter()) {
        assert_eq!(entry.replacen("Entry", "Exit", 1), *exit);
    }
}

#[test]
fn execution_of_a_filled_order() {
    let order = closed("entry", filled_at(3));
    assert_eq!(
        get_execution(&order),
        &Execution::new(SymbolId::from("eur/usd"), 1, 10_000, Timestamp::new(3, 0))
    );
}

#[test]
fn record_of_a_pair_has_the_fields_of_both_orders() {
    let entry = OrderBuilder::unallocated(
        OrderKind::MarketOrder,
        SymbolId::from("eur/usd"),
        Direction::Long,
    )
    .set_id(OrderId::from("entry"))
    .set_status(OrderStatus::Filled(Execution::new(
        SymbolId::from("eur/usd"),
        0,
        price(1.0871),
        utc(2016, 1, 3, 17, 1, 0),
    )))
    .build()
    .unwrap();
    let exit = OrderBuilder::unallocated(
        OrderKind::LimitOrder(price(1.0876)),
        SymbolId::from("eur/usd"),
        Direction::Short,
    )
    .set_id(OrderId::from("exit"))
    .set_oca(Some(String::from("the \"entry\"")))
    .set_active_after(Some(utc(2016, 1, 3, 17, 2, 0)))
    .set_status(OrderStatus::Filled(Execution::new(
        SymbolId::from("eur/usd"),
        4294967295,
        price(1.0876),
        utc(2016, 1, 3, 19, 30, 5),
    )))
    .build()
    .unwrap();
    let pair = OrderPair { entry_order: &entry, exit_order: &exit };
    let record = order_pair_record(&pair, String::from("1.0871"), String::from("1.0876"));
    let expected: Vec<String> = [
        "entry",
        "MKT",
        "None",
        "None",
        "LONG",
        "None",
        "eur/usd",
        "1.0871",
        "2016-01-03 17:01:00 UTC",
        "0",
        "exit",
        "LMT",
        "None",
        "2016-01-03 17:02:00 UTC",
        "SHORT",
        "Some(\"the \\\"entry\\\"\")",
        "eur/usd",
        "1.0876",
        "2016-01-03 19:30:05 UTC",
        "4294967295",
    ]
    .iter()
    .map(|field| field.to_string())
    .collect();
    assert_eq!(record, expected);
    assert_eq!(record.len(), order_pair_header().len());
}

#[test]
fn point_in_time_is_printed_as_a_date() {
    assert_eq!(datetime_to_str(&utc(2017, 12, 29, 12, 0, 5)), "2017-12-29 12:00:05 UTC");
    assert_eq!(datetime_to_str(&Timestamp::new(i64::MIN, 0)), "");
}
