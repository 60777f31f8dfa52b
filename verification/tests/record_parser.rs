use backtester::ohlcv::source::{NullOhlcvSource, OhlcvSource, OhlcvSourceError};
use backtester::symbol::SymbolId;
use backtester::timestamp::Timestamp;
use backtester::util::record_parser::{RecordError, RecordParser};
use chrono::{TimeZone, Utc};

fn utc(year: i32, month: u32, day: u32, hour: u32, minute: u32, second: u32) -> Timestamp {
    let datetime = Utc.with_ymd_and_hms(year, month, day, hour, minute, second).unwrap();
    Timestamp::new(datetime.timestamp(), datetime.timestamp_subsec_nanos())
}

#[test]
fn parse_correct_volume_field() {
    let parser = RecordParser::new(SymbolId::from("eur/usd"), String::from(""));
    assert_eq!(parser.parse_volume_field("123").unwrap(), 123);
}

#[test]
#[should_panic]
fn parse_incorrect_volume_field() {
    let parser = RecordParser::new(SymbolId::from("eur/usd"), String::from(""));
    parser.parse_volume_field("1.30").unwrap();
}

#[test]
fn parse_correct_datetime_field() {
    let parser = RecordParser::new(SymbolId::from("eur/usd"), String::from("%Y%m%d %H:%M:%S"));
    assert_eq!(
        parser.parse_datetime_field("20170101 23:59:59").unwrap(),
        utc(2017, 1, 1, 23, 59, 59)
    );
}

#[test]
fn parse_incorrect_datetime_field() {
    let parser = RecordParser::new(SymbolId::from("eur/usd"), String::from("%Y%m%d %H:%M:%S"));
    assert!(parser.parse_datetime_field("20170101 23:59").is_err());
}

#[test]
fn datetime_field_is_counted_from_the_epoch() {
    let parser = RecordParser::new(SymbolId::from("eur/usd"), String::from("%Y%m%d %H%M%S"));
    assert_eq!(
        parser.parse_datetime_field("20160103 170000").unwrap(),
        Timestamp::new(1451840400, 0)
    );
    assert_eq!(parser.parse_datetime_field("19700101 000000").unwrap(), Timestamp::new(0, 0));
    assert_eq!(parser.parse_datetime_field("19691231 235959").unwrap(), Timestamp::new(-1, 0));
}

#[test]
fn datetime_field_keeps_the_fraction_of_a_second() {
    let parser = RecordParser::new(SymbolId::from("eur/usd"), String::from("%Y%m%d %H%M%S%.f"));
    assert_eq!(
        parser.parse_datetime_field("20170101 235959.25").unwrap(),
        Timestamp::new(1483315199, 250_000_000)
    );
}

#[test]
fn datetime_error_is_reported_as_such() {
    let parser = RecordParser::new(SymbolId::from("eur/usd"), String::from("%Y%m%d"));
    assert!(matches!(
        parser.parse_datetime_field("yesterday"),
        Err(RecordError::DatetimeError(_))
    ));
}

#[test]
fn volume_field_takes_a_plus_sign_and_digits_only() {
    let parser = RecordParser::new(SymbolId::from("eur/usd"), String::from(""));
    assert_eq!(parser.parse_volume_field("0").unwrap(), 0);
    assert_eq!(parser.parse_volume_field("+8").unwrap(), 8);
    assert_eq!(parser.parse_volume_field("007").unwrap(), 7);
    assert_eq!(parser.parse_volume_field("4294967295").unwrap(), u32::MAX);
    assert!(matches!(parser.parse_volume_field("4294967296"), Err(RecordError::VolumeError(_))));
    assert!(matches!(parser.parse_volume_field(""), Err(RecordError::VolumeError(_))));
    assert!(matches!(parser.parse_volume_field("+"), Err(RecordError::VolumeError(_))));
    assert!(matches!(parser.parse_volume_field("-1"), Err(RecordError::VolumeError(_))));
    assert!(matches!(parser.parse_volume_field(" 1"), Err(RecordError::VolumeError(_))));
    assert!(matches!(parser.parse_volume_field("1_0"), Err(RecordError::VolumeError(_))));
}

#[test]
fn parser_keeps_its_instrument() {
    let parser = RecordParser::new(SymbolId::from("eur/usd"), String::from("%Y"));
    assert_eq!(parser.symbol_id(), "eur/usd");
    assert_eq!(parser.clone(), parser);
}

#[test]
fn null_source_has_no_candles() {
    let source = NullOhlcvSource::new();
    let start = utc(2016, 1, 3, 17, 0, 0);
    assert_eq!(
        source.ohlcv(&start, &utc(2016, 1, 4, 17, 0, 0)),
        Err(OhlcvSourceError::DateNotFound(start))
    );
}

#[test]
fn source_error_names_the_date() {
    assert_eq!(
        OhlcvSourceError::DateNotFound(utc(2016, 1, 3, 17, 0, 0)).to_string(),
        "Date not found: 2016-01-03 17:00:00 UTC"
    );
    assert_eq!(
        OhlcvSourceError::DateNotFound(Timestamp::new(i64::MAX, 0)).to_string(),
        "Date not found: "
    );
}
