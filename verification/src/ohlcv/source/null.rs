use vstd::prelude::*;
use crate::ohlcv::source::{OhlcvSource, OhlcvSourceError};
use crate::ohlcv::{Ohlcv, OhlcvView};
use crate::timestamp::Timestamp;

verus! {

/// A source without candles.
#[derive(Clone, Copy, Debug, PartialEq, Eq, Structural, Hash)]
pub struct NullOhlcvSource {}

impl OhlcvSource for NullOhlcvSource {
    open spec fn candles(&self, start_date: Timestamp, end_date: Timestamp) -> Result<
        Seq<OhlcvView>,
        OhlcvSourceError,
    > {
        Err(OhlcvSourceError::DateNotFound(start_date))
    }

    fn ohlcv(&self, start_date: &Timestamp, _end_date: &Timestamp) -> (r: Result<
        Vec<Ohlcv>,
        OhlcvSourceError,
    >) {
        Err(OhlcvSourceError::DateNotFound(*start_date))
    }
}

impl NullOhlcvSource {
    pub fn new() -> NullOhlcvSource {
        NullOhlcvSource {  }
    }
}

} // verus!
