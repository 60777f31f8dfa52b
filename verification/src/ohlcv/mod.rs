use vstd::prelude::*;
use crate::symbol::{Price, SymbolId};
use crate::timestamp::Timestamp;

pub mod source;

verus! {

/// One candle: the open, high, low and close prices and the volume of one
/// instrument over one bucket of time.
#[derive(Debug, PartialEq)]
pub struct Ohlcv {
    symbol_id: SymbolId,
    datetime: Timestamp,
    open: Price,
    high: Price,
    low: Price,
    close: Price,
    volume: u32,
}

/// The mathematical value of an [`Ohlcv`].
pub struct OhlcvView {
    pub symbol_id: Seq<char>,
    pub datetime: Timestamp,
    pub open: Price,
    pub high: Price,
    pub low: Price,
    pub close: Price,
    pub volume: u32,
}

impl View for Ohlcv {
    type V = OhlcvView;

    closed spec fn view(&self) -> OhlcvView {
        OhlcvView {
            symbol_id: self.symbol_id@,
            datetime: self.datetime,
            open: self.open,
            high: self.high,
            low: self.low,
            close: self.close,
            volume: self.volume,
        }
    }
}

impl Clone for Ohlcv {
    fn clone(&self) -> (r: Self)
        ensures
            r@ == self@,
    {
        Ohlcv {
            symbol_id: self.symbol_id.clone(),
            datetime: self.datetime,
            open: self.open,
            high: self.high,
            low: self.low,
            close: self.close,
            volume: self.volume,
        }
    }
}

impl Ohlcv {
    pub fn new(
        symbol_id: SymbolId,
        datetime: Timestamp,
        open: Price,
        high: Price,
        low: Price,
        close: Price,
        volume: u32,
    ) -> (r: Ohlcv)
        ensures
            r@ == (OhlcvView { symbol_id: symbol_id@, datetime, open, high, low, close, volume }),
    {
        Ohlcv { symbol_id, datetime, open, high, low, close, volume }
    }

    pub fn symbol_id(&self) -> (r: &SymbolId)
        ensures
            r@ == self@.symbol_id,
    {
        &self.symbol_id
    }

    pub fn datetime(&self) -> (r: &Timestamp)
        ensures
            *r == self@.datetime,
    {
        &self.datetime
    }

    pub fn open(&self) -> (r: Price)
        ensures
            r == self@.open,
    {
        self.open
    }

    pub fn high(&self) -> (r: Price)
        ensures
            r == self@.high,
    {
        self.high
    }

    pub fn low(&self) -> (r: Price)
        ensures
            r == self@.low,
    {
        self.low
    }

    pub fn close(&self) -> (r: Price)
        ensures
            r == self@.close,
    {
        self.close
    }

    pub fn volume(&self) -> (r: u32)
        ensures
            r == self@.volume,
    {
        self.volume
    }
}

} // verus!
