use vstd::prelude::*;
use crate::direction::Direction;
use crate::signal::detector::{DetectSignal, DetectSignalError};
use crate::signal::{Signal, SignalView};
use crate::symbol::SymbolId;
use crate::timestamp::Timestamp;

verus! {

/// A detector that gives a signal the first time it is asked, and none
/// after that.
pub struct Once {
    symbol_id: SymbolId,
    direction: Direction,
    detected: bool,
}

impl Once {
    /// The instrument of the signal.
    pub closed spec fn symbol(&self) -> Seq<char> {
        self.symbol_id@
    }

    /// The direction of the signal.
    pub closed spec fn side(&self) -> Direction {
        self.direction
    }

    /// The signal has been given.
    pub closed spec fn has_fired(&self) -> bool {
        self.detected
    }

    pub fn new(symbol_id: SymbolId, direction: Direction) -> (r: Once)
        ensures
            r.symbol() == symbol_id@,
            r.side() == direction,
            !r.has_fired(),
    {
        Once { symbol_id: symbol_id, direction: direction, detected: false }
    }
}

impl DetectSignal for Once {
    open spec fn detected_after(&self, asked: Seq<Timestamp>, datetime: Timestamp) -> Result<
        Option<SignalView>,
        DetectSignalError,
    > {
        if self.has_fired() || asked.len() > 0 {
            Ok(None)
        } else {
            Ok(
                Some(
                    SignalView {
                        symbol_id: self.symbol(),
                        direction: self.side(),
                        datetime,
                        label: "once"@,
                    },
                ),
            )
        }
    }

    fn detect_signal(&mut self, datetime: &Timestamp) -> (r: Result<
        Option<Signal>,
        DetectSignalError,
    >)
        ensures
            final(self).symbol() == old(self).symbol(),
            final(self).side() == old(self).side(),
            final(self).has_fired(),
    {
        if self.detected {
            Ok(None)
        } else {
            let signal = Signal::new(
                self.symbol_id.clone(),
                self.direction,
                *datetime,
                "once".to_owned(),
            );
            self.detected = true;
            Ok(Some(signal))
        }
    }
}

} // verus!
