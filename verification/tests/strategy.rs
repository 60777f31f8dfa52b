use backtester::direction::Direction;
use backtester::order::policy::{MarketOrderPolicy, OrderPolicy, OrderPolicyError};
use backtester::order::{OrderBuilder, OrderKind};
use backtester::signal::detector::{Always, DetectSignal, DetectSignalError, Once};
use backtester::signal::Signal;
use backtester::strategy::{Strategy, StrategyError};
use backtester::symbol::SymbolId;
use backtester::timestamp::Timestamp;
use chrono::{TimeZone, Utc};

struct SomeSignal {
    symbol_id: SymbolId,
}

impl DetectSignal for SomeSignal {
    fn detect_signal(
        &mut self,
        datetime: &Timestamp,
    ) -> Result<Option<Signal>, DetectSignalError> {
        Ok(Some(Signal::new(
            self.symbol_id.clone(),
            Direction::Long,
            datetime.clone(),
            String::new(),
        )))
    }
}

struct NoSignal;

impl DetectSignal for NoSignal {
    fn detect_signal(
        &mut self,
        _datetime: &Timestamp,
    ) -> Result<Option<Signal>, DetectSignalError> {
        Ok(None)
    }
}

struct SignalError;

impl DetectSignal for SignalError {
    fn detect_signal(
        &mut self,
        _datetime: &Timestamp,
    ) -> Result<Option<Signal>, DetectSignalError> {
        Err(DetectSignalError::IndicatorError)
    }
}

struct MockOrderPolicy;

impl OrderPolicy for MockOrderPolicy {
    fn create_order(&self, signal: &Signal) -> Result<OrderBuilder, OrderPolicyError> {
        Ok(OrderBuilder::unallocated(
            OrderKind::MarketOrder,
            signal.symbol_id().clone(),
            signal.direction().clone(),
        ))
    }
}

struct MockOrderPolicyError;

impl OrderPolicy for MockOrderPolicyError {
    fn create_order(&self, _signal: &Signal) -> Result<OrderBuilder, OrderPolicyError> {
        Err(OrderPolicyError::IndicatorError)
    }
}

fn run_date() -> Timestamp {
    let datetime = Utc.with_ymd_and_hms(2016, 1, 3, 17, 0, 0).unwrap();
    Timestamp::new(datetime.timestamp(), datetime.timestamp_subsec_nanos())
}

#[test]
fn run_some_signal() {
    let symbol_id = SymbolId::from("symbol");
    let result = Strategy::new(
        Box::new(SomeSignal { symbol_id: symbol_id.clone() }),
        Box::new(MockOrderPolicy {}),
    )
    .run(&run_date());
    assert!(result.is_ok());
}

#[test]
fn run_no_signal() {
    let result = Strategy::new(Box::new(NoSignal {}), Box::new(MockOrderPolicy {})).run(&run_date());
    assert!(result.is_ok());
    assert!(result.unwrap().is_none())
}

#[test]
fn run_signal_error() {
    let result =
        Strategy::new(Box::new(SignalError {}), Box::new(MockOrderPolicy {})).run(&run_date());
    assert!(result.is_err());
}

#[test]
fn run_create_order_error() {
    let symbol_id = SymbolId::from("symbol");
    let result = Strategy::new(
        Box::new(SomeSignal { symbol_id: symbol_id.clone() }),
        Box::new(MockOrderPolicyError {}),
    )
    .run(&run_date());
    assert!(result.is_err());
}

#[test]
fn run_gives_the_signal_and_the_draft_that_answers_it() {
    let mut strategy = Strategy::new(
        Box::new(Always::new(SymbolId::from("eur/usd"), Direction::Short)),
        Box::new(MarketOrderPolicy::new()),
    );
    let (signal, draft) = strategy.run(&run_date()).unwrap().unwrap();
    assert_eq!(
        signal,
        Signal::new(
            SymbolId::from("eur/usd"),
            Direction::Short,
            run_date(),
            String::from("always detect signal")
        )
    );
    assert_eq!(
        draft,
        OrderBuilder::unallocated(
            OrderKind::MarketOrder,
            SymbolId::from("eur/usd"),
            Direction::Short
        )
    );
}

#[test]
fn run_reports_which_part_failed() {
    let detection =
        Strategy::new(Box::new(SignalError {}), Box::new(MockOrderPolicyError {})).run(&run_date());
    assert_eq!(
        detection.unwrap_err(),
        StrategyError::DetectSignalError(DetectSignalError::IndicatorError)
    );
    let policy = Strategy::new(
        Box::new(SomeSignal { symbol_id: SymbolId::from("symbol") }),
        Box::new(MockOrderPolicyError {}),
    )
    .run(&run_date());
    assert_eq!(
        policy.unwrap_err(),
        StrategyError::CreateOrderError(OrderPolicyError::IndicatorError)
    );
    let silent = Strategy::new(Box::new(NoSignal {}), Box::new(MockOrderPolicyError {}))
        .run(&run_date());
    assert_eq!(silent.unwrap(), None);
}

#[test]
fn run_keeps_the_state_of_the_detector() {
    let mut strategy = Strategy::new(
        Box::new(Once::new(SymbolId::from("eur/usd"), Direction::Long)),
        Box::new(MarketOrderPolicy::new()),
    );
    let id = strategy.id().clone();
    assert!(strategy.run(&run_date()).unwrap().is_some());
    assert!(strategy.run(&run_date()).unwrap().is_none());
    assert_eq!(strategy.id(), &id);
}

#[test]
fn strategies_have_identifiers_of_their_own() {
    let make = || Strategy::new(Box::new(NoSignal {}), Box::new(MockOrderPolicy {}));
    let first = make();
    let second = make();
    let third = make();
    assert!(first.id().starts_with("puid-"));
    assert!(first.id() != second.id());
    assert!(second.id() != third.id());
    assert!(first.id() != third.id());
}
