use backtester::backtester::Backtester;
use backtester::direction::Direction;
use backtester::market_simulation::MarketSimulation;
use backtester::model::{Model, ModelId};
use backtester::ohlcv::Ohlcv;
use backtester::order::policy::SimpleOrderPolicy;
use backtester::order::{CancellationReason, Order, OrderKind, OrderStatus};
use backtester::signal::detector::{Always, Once};
use backtester::strategy::{Strategy, StrategyManager};
use backtester::symbol::{Price, SymbolId};
use backtester::timestamp::Timestamp;
use backtester::util::{get_execution, get_order_pairs};
use chrono::{TimeZone, Utc};

/// A price in millionths.
fn price(value: f64) -> Price {
    (value * 1_000_000.0).round() as Price
}

fn utc(year: i32, month: u32, day: u32, hour: u32, minute: u32, second: u32) -> Timestamp {
    let datetime = Utc.with_ymd_and_hms(year, month, day, hour, minute, second).unwrap();
    Timestamp::new(datetime.timestamp(), datetime.timestamp_subsec_nanos())
}

pub struct OrderEveryCandle {
    symbol_id: SymbolId,
}

impl Model for OrderEveryCandle {
    fn id(&self) -> ModelId {
        ModelId::from("order every candle")
    }

    fn entry_strategy(&self) -> Strategy {
        Strategy::new(
            Box::new(Always::new(self.symbol_id.clone(), Direction::Long)),
            Box::new(SimpleOrderPolicy::new(OrderKind::MarketOrder)),
        )
    }

    fn exit_strategies(&self, entry_order: &Order) -> Vec<Strategy> {
        let execution = entry_order.execution().expect("Entry order not executed");

        let stop_loss_strategy = Strategy::new(
            Box::new(Once::new(self.symbol_id.clone(), Direction::Short)),
            Box::new(
                SimpleOrderPolicy::new(OrderKind::StopOrder(execution.price() - price(0.0005)))
                    .set_oca(Some(entry_order.id().clone())),
            ),
        );

        let timeout_strategy = Strategy::new(
            Box::new(Once::new(self.symbol_id.clone(), Direction::Short)),
            Box::new(
                SimpleOrderPolicy::new(OrderKind::MarketOrder)
                    .set_active_after(Some(Timestamp::new(
                        execution.datetime().seconds + 120 * 60,
                        execution.datetime().nanoseconds,
                    )))
                    .set_oca(Some(entry_order.id().clone())),
            ),
        );

        let take_profit_strategy = Strategy::new(
            Box::new(Once::new(self.symbol_id.clone(), Direction::Short)),
            Box::new(
                SimpleOrderPolicy::new(OrderKind::LimitOrder(execution.price() + price(0.0005)))
                    .set_oca(Some(entry_order.id().clone())),
            ),
        );

        return vec![stop_loss_strategy, timeout_strategy, take_profit_strategy];
    }
}

/// One candle a minute, as the rows of a file of candles would give them.
fn candles(symbol_id: &SymbolId) -> Vec<Ohlcv> {
    let rows: [(u32, u32, f64, f64, f64, f64, u32); 8] = [
        (17, 0, 1.087010, 1.087130, 1.087010, 1.087130, 1),
        (17, 1, 1.087120, 1.087120, 1.087120, 1.087120, 0),
        (17, 2, 1.087080, 1.087220, 1.087080, 1.087220, 4),
        (17, 3, 1.087170, 1.087900, 1.087170, 1.087800, 2),
        (17, 4, 1.087800, 1.087850, 1.086200, 1.086300, 7),
        (17, 5, 1.086300, 1.086350, 1.086290, 1.086320, 1),
        (19, 6, 1.086310, 1.086320, 1.086300, 1.086310, 1),
        (19, 7, 1.086310, 1.086330, 1.086300, 1.086320, 3),
    ];
    rows.iter()
        .map(|(hour, minute, open, high, low, close, volume)| {
            Ohlcv::new(
                symbol_id.clone(),
                utc(2016, 1, 3, *hour, *minute, 0),
                price(*open),
                price(*high),
                price(*low),
                price(*close),
                *volume,
            )
        })
        .collect()
}

#[test]
fn backtest_order_every_candle() {
    let symbol_id = SymbolId::from("eur/usd");

    // launch backtest
    let backtester = Backtester::new();
    let models: Vec<Box<dyn Model>> =
        vec![Box::new(OrderEveryCandle { symbol_id: symbol_id.clone() })];
    let (portfolio, strategy_collection) = backtester.run(&models, &candles(&symbol_id)).unwrap();

    let order_pairs = get_order_pairs(&portfolio, &strategy_collection);
    assert!(!order_pairs.is_empty());
    for pair in order_pairs.iter() {
        let entry = get_execution(pair.entry_order);
        let exit = get_execution(pair.exit_order);
        assert_eq!(pair.exit_order.oca(), &Some(pair.entry_order.id().clone()));
        assert!(!exit.datetime().is_before(entry.datetime()));
        assert_eq!(pair.entry_order.direction(), &Direction::Long);
        assert_eq!(pair.exit_order.direction(), &Direction::Short);
    }
    for pair in order_pairs.windows(2) {
        assert!(get_execution(pair[0].entry_order)
            .datetime()
            .is_not_after(get_execution(pair[1].entry_order).datetime()));
    }
    for order in portfolio.closed_orders().iter() {
        let siblings = portfolio
            .closed_orders()
            .iter()
            .filter(|other| other.oca().is_some() && other.oca() == order.oca())
            .filter(|other| other.execution().is_some())
            .count();
        match order.status() {
            OrderStatus::Cancelled(CancellationReason::FilledOca) => assert_eq!(siblings, 1),
            OrderStatus::Filled(_) if order.oca().is_some() => assert_eq!(siblings, 1),
            _ => {}
        }
    }
    for order in portfolio.active_orders().iter() {
        assert!(!order.status().is_terminal());
    }
}

#[test]
fn backtester_keeps_its_parts() {
    let backtester = Backtester::new()
        .set_market_simulation(MarketSimulation::new())
        .set_strategy_manager(StrategyManager::new());
    let _: &MarketSimulation = backtester.market_simulation();
    let _: &StrategyManager = backtester.strategy_manager();
    let generator = backtester.order_id_generator();
    let models: Vec<Box<dyn Model>> = vec![];
    let (portfolio, strategies) = backtester.run(&models, &candles(&SymbolId::from("eur/usd"))).unwrap();
    assert!(portfolio.active_orders().is_empty());
    assert!(portfolio.closed_orders().is_empty());
    assert!(strategies.entry_strategies.is_empty());
    let _ = generator;
}

#[test]
fn boxed_and_borrowed_models_are_models() {
    let model = OrderEveryCandle { symbol_id: SymbolId::from("eur/usd") };
    let borrowed: &OrderEveryCandle = &model;
    assert_eq!(Model::id(&borrowed), "order every candle");
    let boxed: Box<dyn Model> = Box::new(OrderEveryCandle { symbol_id: SymbolId::from("eur/usd") });
    assert_eq!(Model::id(&boxed), "order every candle");
    let mut entry = Model::entry_strategy(&boxed);
    assert!(entry.run(&Timestamp::new(0, 0)).unwrap().is_some());
    let models = vec![borrowed];
    let collection = StrategyManager::new().initialize_strategy_collection(&models);
    assert_eq!(collection.entry_strategies.len(), 1);
}
