use vstd::prelude::*;
use crate::direction::Direction;
use crate::signal::detector::{DetectSignal, DetectSignalError};
use crate::signal::{Signal, SignalView};
use crate::symbol::SymbolId;
use crate::timestamp::Timestamp;

verus! {

/// A detector that gives a signal at every point in time.
pub struct Always {
    symbol_id: SymbolId,
    direction: Direction,
}

impl Always {
    /// The instrument of the signals.
    pub closed spec fn symbol(&self) -> Seq<char> {
        self.symbol_id@
    }

    /// The direction of the signals.
    pub closed spec fn side(&self) -> Direction {
        self.direction
    }

    pub fn new(symbol_id: SymbolId, direction: Direction) -> (r: Self)
        ensures
            r.symbol() == symbol_id@,
            r.side() == direction,
    {
        Always { symbol_id, direction }
    }
}

impl DetectSignal for Always {
    open spec fn detected_after(&self, asked: Seq<Timestamp>, datetime: Timestamp) -> Result<
        Option<SignalView>,
        DetectSignalError,
    > {
        Ok(
            Some(
                SignalView {
                    symbol_id: self.symbol(),
                    direction: self.side(),
                    datetime,
                    label: "always detect signal"@,
                },
            ),
        )
    }

    fn detect_signal(&mut self, datetime: &Timestamp) -> (r: Result<
        Option<Signal>,
        DetectSignalError,
    >)
        ensures
            final(self).symbol() == old(self).symbol(),
            final(self).side() == old(self).side(),
    {
        let signal = Signal::new(
            self.symbol_id.clone(),
            self.direction,
            *datetime,
            "always detect signal".to_owned(),
        );
        Ok(Some(signal))
    }
}

} // verus!
