use vstd::prelude::*;
use vstd::string::StringExecFns;
use crate::ohlcv::{Ohlcv, OhlcvView};
use crate::timestamp::{utc_datetime_text, Timestamp};

mod csv;
mod null;
mod ohlcv_source_collection;
pub use self::csv::{
    candles_between, first_from, in_time_order, is_first_from, lemma_first_from_is_unique,
};
pub use self::null::NullOhlcvSource;
pub use self::ohlcv_source_collection::{
    all_give, candle_before, gathered, in_stream_order, OhlcvSourceCollection,
};

verus! {

/// Why a source has no candles to give.
#[derive(Clone, Copy, Debug, PartialEq, Eq, Structural, Hash)]
pub enum OhlcvSourceError {
    DateNotFound(Timestamp),
}

impl OhlcvSourceError {
    /// The message of the error: `Date not found: ` and the date and time
    /// as `chrono` prints it (nothing where it has no date for the instant).
    pub open spec fn message(self) -> Seq<char> {
        match self {
            OhlcvSourceError::DateNotFound(date) => "Date not found: "@ + match utc_datetime_text(
                date.seconds,
                date.nanoseconds,
            ) {
                Some(text) => text,
                None => Seq::empty(),
            },
        }
    }

    pub fn to_string(&self) -> (r: String)
        ensures
            r@ == self.message(),
    {
        match self {
            OhlcvSourceError::DateNotFound(date) => {
                let mut message = "Date not found: ".to_owned();
                match date.utc_text() {
                    Some(text) => {
                        message.append(text.as_str());
                    },
                    None => {
                        assert(message@ + Seq::<char>::empty() =~= message@);
                    },
                }
                message
            },
        }
    }
}

/// The mathematical values of a sequence of candles.
pub open spec fn candle_views(candles: Seq<Ohlcv>) -> Seq<OhlcvView> {
    Seq::new(candles.len(), |i: int| candles[i]@)
}

/// The mathematical value of what a source returns.
pub open spec fn candles_view(result: Result<Vec<Ohlcv>, OhlcvSourceError>) -> Result<
    Seq<OhlcvView>,
    OhlcvSourceError,
> {
    match result {
        Ok(candles) => Ok(candle_views(candles@)),
        Err(e) => Err(e),
    }
}

/// The capability to give the candles of a span of time. What a source
/// gives depends on the source and the span alone. The sources of this
/// library are proved to give what `candles` says; of a source that is
/// written elsewhere this is taken on trust.
pub trait OhlcvSource {
    /// What `ohlcv` returns for the span. A source that does not say what
    /// it returns leaves this unspecified.
    open spec fn candles(&self, start_date: Timestamp, end_date: Timestamp) -> Result<
        Seq<OhlcvView>,
        OhlcvSourceError,
    > {
        arbitrary()
    }

    fn ohlcv(&self, start_date: &Timestamp, end_date: &Timestamp) -> (r: Result<
        Vec<Ohlcv>,
        OhlcvSourceError,
    >)
        ensures
            candles_view(r) == self.candles(*start_date, *end_date),
    ;
}

} // verus!
