use backtester::backtester::{Backtester, BacktesterError};
use backtester::direction::Direction;
use backtester::execution::Execution;
use backtester::model::{Model, ModelId};
use backtester::ohlcv::Ohlcv;
use backtester::order::policy::{MarketOrderPolicy, SimpleOrderPolicy, StopOrderPolicy};
use backtester::order::{
    CancellationReason, GenerateOrderId, Order, OrderBuilder, OrderId, OrderKind, OrderStatus,
};
use backtester::portfolio::Portfolio;
use backtester::signal::detector::{Always, DetectSignal, DetectSignalError, Once};
use backtester::signal::Signal;
use backtester::strategy::{Strategy, StrategyCollection, StrategyError, StrategyId};
use backtester::symbol::{Price, SymbolId};
use backtester::timestamp::Timestamp;
use chrono::{TimeZone, Utc};
use std::cell::Cell;

/// A price in ten-thousandths.
fn price(value: f64) -> Price {
    (value * 10_000.0).round() as Price
}

fn utc(year: i32, month: u32, day: u32, hour: u32, minute: u32, second: u32) -> Timestamp {
    let datetime = Utc.with_ymd_and_hms(year, month, day, hour, minute, second).unwrap();
    Timestamp::new(datetime.timestamp(), datetime.timestamp_subsec_nanos())
}

pub struct AlwaysDetectSignal {
    direction: Direction,
}

impl DetectSignal for AlwaysDetectSignal {
    fn detect_signal(
        &mut self,
        datetime: &Timestamp,
    ) -> Result<Option<Signal>, DetectSignalError> {
        let signal = Signal::new(
            SymbolId::from("eur/usd"),
            self.direction,
            datetime.clone(),
            String::from("always detect signal"),
        );
        Ok(Some(signal))
    }
}

pub struct OrderEveryCandle;

impl Model for OrderEveryCandle {
    fn id(&self) -> ModelId {
        ModelId::from("order every candle")
    }

    fn entry_strategy(&self) -> Strategy {
        Strategy::new(
            Box::new(AlwaysDetectSignal { direction: Direction::Long }),
            Box::new(MarketOrderPolicy::new()),
        )
    }

    fn exit_strategies(&self, _order: &Order) -> Vec<Strategy> {
        vec![Strategy::new(
            Box::new(AlwaysDetectSignal { direction: Direction::Short }),
            Box::new(MarketOrderPolicy::new()),
        )]
    }
}

pub struct IncrementalOrderIdGenerator {
    counter: Cell<u32>,
}

impl GenerateOrderId for IncrementalOrderIdGenerator {
    fn get_id(
        &self,
        _strategy_id: StrategyId,
        _signal: &Signal,
        _order_builder: &OrderBuilder,
    ) -> OrderId {
        let id = self.counter.get();
        self.counter.set(id + 1);
        id.to_string()
    }
}

fn four_candles() -> Vec<Ohlcv> {
    vec![
        Ohlcv::new(
            SymbolId::from("eur/usd"),
            utc(2017, 12, 29, 12, 0, 0),
            price(1.),
            price(1.),
            price(1.),
            price(1.),
            0,
        ),
        Ohlcv::new(
            SymbolId::from("usd/jpy"),
            utc(2017, 12, 29, 12, 0, 0),
            price(1.),
            price(1.),
            price(1.),
            price(1.),
            0,
        ),
        Ohlcv::new(
            SymbolId::from("eur/usd"),
            utc(2017, 12, 29, 12, 0, 5),
            price(1.),
            price(1.5),
            price(1.),
            price(1.5),
            3,
        ),
        Ohlcv::new(
            SymbolId::from("usd/jpy"),
            utc(2017, 12, 29, 12, 0, 5),
            price(1.),
            price(1.5),
            price(1.),
            price(1.5),
            3,
        ),
    ]
}

#[test]
fn test_run() {
    let backtester = Backtester::new()
        .set_order_id_generator(Box::new(IncrementalOrderIdGenerator { counter: Cell::new(0) }));

    let models: Vec<Box<dyn Model>> = vec![Box::new(OrderEveryCandle {})];
    let (portfolio, _strategy_collection) = backtester.run(&models, &four_candles()).unwrap();

    let mut active_orders = portfolio.active_orders().iter().collect::<Vec<&Order>>();
    assert_eq!(active_orders.len(), 2);
    let closed_orders = portfolio.closed_orders().iter().collect::<Vec<&Order>>();
    assert_eq!(closed_orders.len(), 1);

    let expected_active_orders: Vec<Order> = vec![
        // Long order from the second detection made by the entry strategy
        OrderBuilder::unallocated(
            OrderKind::MarketOrder,
            SymbolId::from("eur/usd"),
            Direction::Long,
        )
        .set_id(String::from("1"))
        .build()
        .unwrap(),
        // Short order from the exit strategy linked to the first entry order
        OrderBuilder::unallocated(
            OrderKind::MarketOrder,
            SymbolId::from("eur/usd"),
            Direction::Short,
        )
        .set_id(String::from("2"))
        .build()
        .unwrap(),
    ];
    let expected_closed_orders: Vec<Order> = vec![
        // First entry order has been filled
        OrderBuilder::unallocated(
            OrderKind::MarketOrder,
            SymbolId::from("eur/usd"),
            Direction::Long,
        )
        .set_id(String::from("0"))
        .set_status(OrderStatus::Filled(Execution::new(
            SymbolId::from("eur/usd"),
            0,
            price(1.),
            utc(2017, 12, 29, 12, 0, 5),
        )))
        .build()
        .unwrap(),
    ];

    active_orders.sort_by_key(|order| order.id());
    assert_eq!(active_orders, expected_active_orders.iter().collect::<Vec<&Order>>());
    assert_eq!(closed_orders, expected_closed_orders.iter().collect::<Vec<&Order>>());
}

#[test]
fn run_is_reproducible() {
    let run = || {
        let backtester = Backtester::new().set_order_id_generator(Box::new(
            IncrementalOrderIdGenerator { counter: Cell::new(0) },
        ));
        let models: Vec<Box<dyn Model>> = vec![Box::new(OrderEveryCandle {})];
        let (portfolio, strategy_collection) = backtester.run(&models, &four_candles()).unwrap();
        assert_eq!(strategy_collection.entry_strategies.len(), 1);
        assert_eq!(strategy_collection.exit_strategies.len(), 1);
        assert_eq!(strategy_collection.order_strategy.len(), 3);
        portfolio
    };
    assert_eq!(run(), run());
}

#[test]
fn run_without_candles_places_no_order() {
    let models: Vec<Box<dyn Model>> = vec![Box::new(OrderEveryCandle {})];
    let (portfolio, strategy_collection) = Backtester::new().run(&models, &vec![]).unwrap();
    assert_eq!(portfolio, Portfolio::new());
    assert_eq!(strategy_collection.entry_strategies.len(), 1);
    assert!(strategy_collection.exit_strategies.is_empty());
}

#[test]
fn run_with_the_uuid_generator_binds_every_order() {
    let models: Vec<Box<dyn Model>> = vec![Box::new(OrderEveryCandle {})];
    let (portfolio, strategy_collection) =
        Backtester::new().run(&models, &four_candles()).unwrap();
    assert_eq!(portfolio.active_orders().len(), 2);
    assert_eq!(portfolio.closed_orders().len(), 1);
    for order in portfolio.active_orders().iter().chain(portfolio.closed_orders().iter()) {
        let strategy = strategy_collection.order_strategy.get(order.id()).unwrap();
        assert!(strategy_collection.strategy_types.contains_key(strategy));
    }
}

struct FailingSignal;

impl DetectSignal for FailingSignal {
    fn detect_signal(
        &mut self,
        _datetime: &Timestamp,
    ) -> Result<Option<Signal>, DetectSignalError> {
        Err(DetectSignalError::IndicatorError)
    }
}

struct FailingModel;

impl Model for FailingModel {
    fn id(&self) -> ModelId {
        ModelId::from("failing")
    }

    fn entry_strategy(&self) -> Strategy {
        Strategy::new(Box::new(FailingSignal {}), Box::new(MarketOrderPolicy::new()))
    }

    fn exit_strategies(&self, _order: &Order) -> Vec<Strategy> {
        vec![]
    }
}

fn outcome<'a>(
    result: Result<(Portfolio, StrategyCollection<'a>), BacktesterError>,
) -> Result<Portfolio, BacktesterError> {
    result.map(|(portfolio, _)| portfolio)
}

#[test]
fn run_ends_with_the_failure_of_a_strategy() {
    let models: Vec<Box<dyn Model>> = vec![Box::new(OrderEveryCandle {}), Box::new(FailingModel {})];
    assert_eq!(
        outcome(Backtester::new().run(&models, &four_candles())),
        Err(BacktesterError::StrategyError(StrategyError::DetectSignalError(
            DetectSignalError::IndicatorError
        )))
    );
}

struct OneName;

impl GenerateOrderId for OneName {
    fn get_id(
        &self,
        _strategy_id: StrategyId,
        _signal: &Signal,
        _order_builder: &OrderBuilder,
    ) -> OrderId {
        OrderId::from("one name")
    }
}

#[test]
fn run_ends_where_an_identifier_comes_twice() {
    let backtester = Backtester::new().set_order_id_generator(Box::new(OneName));
    let models: Vec<Box<dyn Model>> = vec![Box::new(OrderEveryCandle {})];
    assert_eq!(
        outcome(backtester.run(&models, &four_candles())),
        Err(BacktesterError::DuplicateOrderId)
    );
    let one_candle = vec![four_candles().remove(0)];
    let portfolio = outcome(backtester.run(&models, &one_candle)).unwrap();
    assert_eq!(portfolio.active_orders().len(), 1);
}

#[test]
fn place_orders_leaves_the_portfolio_as_it_is_where_it_fails() {
    let backtester = Backtester::new().set_order_id_generator(Box::new(OneName));
    let models: Vec<Box<dyn Model>> = vec![Box::new(OrderEveryCandle {})];
    let mut strategies = backtester.strategy_manager().initialize_strategy_collection(&models);
    let mut portfolio = Portfolio::new();
    assert_eq!(
        backtester.place_orders(&mut portfolio, &mut strategies, &Timestamp::new(1, 0)),
        Ok(())
    );
    let before = portfolio.clone();
    assert_eq!(before.active_orders().len(), 1);
    assert_eq!(
        backtester.place_orders(&mut portfolio, &mut strategies, &Timestamp::new(2, 0)),
        Err(BacktesterError::DuplicateOrderId)
    );
    assert_eq!(portfolio, before);
}

struct StopEntry {
    stop: Price,
}

impl Model for StopEntry {
    fn id(&self) -> ModelId {
        ModelId::from("stop entry")
    }

    fn entry_strategy(&self) -> Strategy {
        Strategy::new(
            Box::new(Once::new(SymbolId::from("eur/usd"), Direction::Short)),
            Box::new(StopOrderPolicy::new(self.stop)),
        )
    }

    fn exit_strategies(&self, _order: &Order) -> Vec<Strategy> {
        vec![]
    }
}

fn minute_candle(minute: u32, open: f64, high: f64, low: f64, close: f64) -> Ohlcv {
    Ohlcv::new(
        SymbolId::from("eur/usd"),
        utc(2016, 1, 3, 17, minute, 0),
        price(open),
        price(high),
        price(low),
        price(close),
        1,
    )
}

#[test]
fn stop_order_is_filled_at_its_price_on_the_next_candle() {
    let models: Vec<Box<dyn Model>> = vec![Box::new(StopEntry { stop: price(1.0865) })];
    let candles = vec![
        minute_candle(0, 1.0870, 1.0871, 1.0869, 1.0870),
        minute_candle(1, 1.0868, 1.0872, 1.0860, 1.0861),
    ];
    let (portfolio, _) = Backtester::new().run(&models, &candles).unwrap();
    assert!(portfolio.active_orders().is_empty());
    assert_eq!(portfolio.closed_orders().len(), 1);
    let order = &portfolio.closed_orders()[0];
    assert_eq!(order.kind(), &OrderKind::StopOrder(price(1.0865)));
    assert_eq!(order.direction(), &Direction::Short);
    assert_eq!(
        order.status(),
        &OrderStatus::Filled(Execution::new(
            SymbolId::from("eur/usd"),
            order.quantity(),
            price(1.0865),
            utc(2016, 1, 3, 17, 1, 0),
        ))
    );
    assert_eq!(order.quantity(), 0);
}

struct Bracket;

impl Model for Bracket {
    fn id(&self) -> ModelId {
        ModelId::from("bracket")
    }

    fn entry_strategy(&self) -> Strategy {
        Strategy::new(
            Box::new(Once::new(SymbolId::from("eur/usd"), Direction::Long)),
            Box::new(SimpleOrderPolicy::new(OrderKind::MarketOrder)),
        )
    }

    fn exit_strategies(&self, entry_order: &Order) -> Vec<Strategy> {
        let execution = entry_order.execution().expect("Entry order not executed");
        let stop_loss_strategy = Strategy::new(
            Box::new(Once::new(SymbolId::from("eur/usd"), Direction::Short)),
            Box::new(
                SimpleOrderPolicy::new(OrderKind::StopOrder(execution.price() - price(0.0005)))
                    .set_oca(Some(entry_order.id().clone())),
            ),
        );
        let take_profit_strategy = Strategy::new(
            Box::new(Once::new(SymbolId::from("eur/usd"), Direction::Short)),
            Box::new(
                SimpleOrderPolicy::new(OrderKind::LimitOrder(execution.price() + price(0.0005)))
                    .set_oca(Some(entry_order.id().clone())),
            ),
        );
        vec![stop_loss_strategy, take_profit_strategy]
    }
}

#[test]
fn take_profit_is_filled_and_cancels_the_stop_loss() {
    let backtester = Backtester::new()
        .set_order_id_generator(Box::new(IncrementalOrderIdGenerator { counter: Cell::new(0) }));
    let models: Vec<Box<dyn Model>> = vec![Box::new(Bracket {})];
    let candles = vec![
        minute_candle(0, 1.0870, 1.0871, 1.0869, 1.0870),
        minute_candle(1, 1.0872, 1.0873, 1.0871, 1.0872),
        minute_candle(2, 1.0873, 1.0879, 1.0870, 1.0878),
    ];
    let (portfolio, strategy_collection) = backtester.run(&models, &candles).unwrap();
    assert!(portfolio.active_orders().is_empty());
    let entry = OrderBuilder::unallocated(
        OrderKind::MarketOrder,
        SymbolId::from("eur/usd"),
        Direction::Long,
    )
    .set_id(String::from("0"))
    .set_status(OrderStatus::Filled(Execution::new(
        SymbolId::from("eur/usd"),
        0,
        price(1.0872),
        utc(2016, 1, 3, 17, 1, 0),
    )))
    .build()
    .unwrap();
    let stop_loss = OrderBuilder::unallocated(
        OrderKind::StopOrder(price(1.0867)),
        SymbolId::from("eur/usd"),
        Direction::Short,
    )
    .set_id(String::from("1"))
    .set_oca(Some(String::from("0")))
    .set_status(OrderStatus::Cancelled(CancellationReason::FilledOca))
    .build()
    .unwrap();
    let take_profit = OrderBuilder::unallocated(
        OrderKind::LimitOrder(price(1.0877)),
        SymbolId::from("eur/usd"),
        Direction::Short,
    )
    .set_id(String::from("2"))
    .set_oca(Some(String::from("0")))
    .set_status(OrderStatus::Filled(Execution::new(
        SymbolId::from("eur/usd"),
        0,
        price(1.0877),
        utc(2016, 1, 3, 17, 2, 0),
    )))
    .build()
    .unwrap();
    assert_eq!(portfolio.closed_orders(), &vec![entry, stop_loss, take_profit]);
    assert!(strategy_collection.exit_strategies.is_empty());
}

struct TwoInstruments;

impl Model for TwoInstruments {
    fn id(&self) -> ModelId {
        ModelId::from("two instruments")
    }

    fn entry_strategy(&self) -> Strategy {
        Strategy::new(
            Box::new(Always::new(SymbolId::from("usd/jpy"), Direction::Long)),
            Box::new(MarketOrderPolicy::new()),
        )
    }

    fn exit_strategies(&self, _order: &Order) -> Vec<Strategy> {
        vec![]
    }
}

#[test]
fn match_candle_fills_orders_of_the_candle_s_instrument_only() {
    let backtester = Backtester::new()
        .set_order_id_generator(Box::new(IncrementalOrderIdGenerator { counter: Cell::new(0) }));
    let models: Vec<Box<dyn Model>> =
        vec![Box::new(OrderEveryCandle {}), Box::new(TwoInstruments {})];
    let mut strategies = backtester.strategy_manager().initialize_strategy_collection(&models);
    let mut portfolio = Portfolio::new();
    backtester.place_orders(&mut portfolio, &mut strategies, &Timestamp::new(1, 0)).unwrap();
    assert_eq!(portfolio.active_orders().len(), 2);
    let candle = Ohlcv::new(
        SymbolId::from("usd/jpy"),
        Timestamp::new(2, 0),
        price(110.25),
        price(111.),
        price(110.),
        price(110.5),
        9,
    );
    backtester.match_candle(&mut portfolio, &mut strategies, &candle);
    assert_eq!(portfolio.active_orders().len(), 1);
    assert_eq!(portfolio.active_orders()[0].symbol_id(), "eur/usd");
    assert_eq!(portfolio.closed_orders().len(), 1);
    assert_eq!(
        portfolio.closed_orders()[0].status(),
        &OrderStatus::Filled(Execution::new(
            SymbolId::from("usd/jpy"),
            0,
            price(110.25),
            Timestamp::new(2, 0),
        ))
    );
    assert_eq!(backtester.market_simulation().update_orders(&vec![], &candle), vec![]);
}
