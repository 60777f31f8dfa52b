use backtester::ohlcv::source::{
    candles_between, NullOhlcvSource, OhlcvSource, OhlcvSourceCollection, OhlcvSourceError,
};
use backtester::ohlcv::Ohlcv;
use backtester::symbol::{Price, Symbol, SymbolId};
use backtester::timestamp::Timestamp;
use chrono::{TimeZone, Utc};

/// A price in ten-thousandths.
fn price(value: f64) -> Price {
    (value * 10_000.0).round() as Price
}

fn utc(year: i32, month: u32, day: u32, hour: u32, minute: u32, second: u32) -> Timestamp {
    let datetime = Utc.with_ymd_and_hms(year, month, day, hour, minute, second).unwrap();
    Timestamp::new(datetime.timestamp(), datetime.timestamp_subsec_nanos())
}

pub struct FakeOhlcvSource {
    symbol_id: SymbolId,
}

impl OhlcvSource for FakeOhlcvSource {
    fn ohlcv(
        &self,
        _start_date: &Timestamp,
        _end_date: &Timestamp,
    ) -> Result<Vec<Ohlcv>, OhlcvSourceError> {
        Ok(vec![
            Ohlcv::new(
                self.symbol_id.clone(),
                utc(2017, 12, 29, 12, 0, 0),
                price(1.),
                price(1.),
                price(1.),
                price(1.),
                0,
            ),
            Ohlcv::new(
                self.symbol_id.clone(),
                utc(2017, 12, 29, 12, 0, 5),
                price(1.),
                price(1.5),
                price(1.),
                price(1.5),
                3,
            ),
        ])
    }
}

#[test]
fn ohlcv() {
    let source_collection = OhlcvSourceCollection::new(vec![
        Box::new(FakeOhlcvSource { symbol_id: SymbolId::from("eur/usd") }),
        Box::new(FakeOhlcvSource { symbol_id: SymbolId::from("usd/jpy") }),
    ]);
    assert_eq!(
        source_collection
            .ohlcv(&utc(2017, 12, 29, 12, 0, 0), &utc(2017, 12, 29, 12, 0, 5))
            .unwrap(),
        vec![
            Ohlcv::new(
                SymbolId::from("eur/usd"),
                utc(2017, 12, 29, 12, 0, 0),
                price(1.),
                price(1.),
                price(1.),
                price(1.),
                0
            ),
            Ohlcv::new(
                SymbolId::from("usd/jpy"),
                utc(2017, 12, 29, 12, 0, 0),
                price(1.),
                price(1.),
                price(1.),
                price(1.),
                0
            ),
            Ohlcv::new(
                SymbolId::from("eur/usd"),
                utc(2017, 12, 29, 12, 0, 5),
                price(1.),
                price(1.5),
                price(1.),
                price(1.5),
                3
            ),
            Ohlcv::new(
                SymbolId::from("usd/jpy"),
                utc(2017, 12, 29, 12, 0, 5),
                price(1.),
                price(1.5),
                price(1.),
                price(1.5),
                3
            )
        ]
    );
}

#[test]
fn collection_orders_by_time_then_instrument() {
    let source_collection = OhlcvSourceCollection::new(vec![
        Box::new(FakeOhlcvSource { symbol_id: SymbolId::from("usd/jpy") }),
        Box::new(FakeOhlcvSource { symbol_id: SymbolId::from("eur/usd") }),
        Box::new(FakeOhlcvSource { symbol_id: SymbolId::from("gbp/usd") }),
    ]);
    assert_eq!(source_collection.symbol_sources().len(), 3);
    let keys: Vec<(i64, String)> = source_collection
        .ohlcv(&Timestamp::new(0, 0), &Timestamp::new(1, 0))
        .unwrap()
        .iter()
        .map(|candle| (candle.datetime().seconds % 60, candle.symbol_id().clone()))
        .collect();
    let expected: Vec<(i64, String)> = [
        (0, "eur/usd"),
        (0, "gbp/usd"),
        (0, "usd/jpy"),
        (5, "eur/usd"),
        (5, "gbp/usd"),
        (5, "usd/jpy"),
    ]
    .iter()
    .map(|(second, symbol)| (*second, symbol.to_string()))
    .collect();
    assert_eq!(keys, expected);
}

#[test]
fn collection_fails_where_a_source_fails() {
    let source_collection = OhlcvSourceCollection::new(vec![
        Box::new(FakeOhlcvSource { symbol_id: SymbolId::from("usd/jpy") }),
        Box::new(NullOhlcvSource::new()),
    ]);
    assert_eq!(
        source_collection.ohlcv(&Timestamp::new(7, 0), &Timestamp::new(9, 0)),
        Err(OhlcvSourceError::DateNotFound(Timestamp::new(7, 0)))
    );
    assert_eq!(
        OhlcvSourceCollection::new(vec![]).ohlcv(&Timestamp::new(7, 0), &Timestamp::new(9, 0)),
        Ok(vec![])
    );
}

fn candle(second: i64) -> Ohlcv {
    Ohlcv::new(SymbolId::from("eur/usd"), Timestamp::new(second, 0), 1, 2, 0, 1, second as u32)
}

fn seconds(candles: Vec<Ohlcv>) -> Vec<i64> {
    candles.iter().map(|candle| candle.datetime().seconds).collect()
}

#[test]
fn span_of_candles_ends_before_its_end_date() {
    let loaded: Vec<Ohlcv> = [10, 20, 30, 40, 50].iter().map(|second| candle(*second)).collect();
    let between = |start: i64, end: i64| {
        seconds(candles_between(&loaded, &Timestamp::new(start, 0), &Timestamp::new(end, 0)))
    };
    assert_eq!(between(20, 40), vec![20, 30]);
    assert_eq!(between(0, 60), vec![10, 20, 30, 40, 50]);
    assert_eq!(between(15, 35), vec![20, 30]);
    assert_eq!(between(10, 11), vec![10]);
    assert_eq!(between(50, 99), vec![50]);
}

#[test]
fn span_of_one_place_gives_the_candle_at_that_place() {
    let loaded: Vec<Ohlcv> = [10, 20, 30].iter().map(|second| candle(*second)).collect();
    let between = |start: i64, end: i64| {
        seconds(candles_between(&loaded, &Timestamp::new(start, 0), &Timestamp::new(end, 0)))
    };
    assert_eq!(between(20, 20), vec![20]);
    assert_eq!(between(11, 12), vec![20]);
    assert_eq!(between(0, 0), vec![10]);
    assert_eq!(between(30, 30), vec![30]);
}

#[test]
fn candle_keeps_what_it_was_made_of() {
    let candle = Ohlcv::new(SymbolId::from("eur/usd"), Timestamp::new(3, 4), 5, 6, 7, 8, 9);
    assert_eq!(candle.symbol_id(), "eur/usd");
    assert_eq!(candle.datetime(), &Timestamp::new(3, 4));
    assert_eq!(candle.open(), 5);
    assert_eq!(candle.high(), 6);
    assert_eq!(candle.low(), 7);
    assert_eq!(candle.close(), 8);
    assert_eq!(candle.volume(), 9);
    assert_eq!(candle.clone(), candle);
}

#[test]
fn symbols_are_equal_where_their_identifiers_are() {
    let source = NullOhlcvSource::new();
    let other_source = NullOhlcvSource::new();
    let symbol = Symbol::new(String::from("Instrument"), &source);
    assert_eq!(symbol.id, "Instrument");
    assert!(symbol == Symbol::new(String::from("Instrument"), &other_source));
    assert!(symbol != Symbol::new(String::from("instrument"), &source));
    assert_eq!(
        symbol.source.ohlcv(&Timestamp::new(1, 0), &Timestamp::new(2, 0)),
        Err(OhlcvSourceError::DateNotFound(Timestamp::new(1, 0)))
    );
}
