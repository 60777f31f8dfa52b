use vstd::prelude::*;
use crate::signal::{Signal, SignalView};
use crate::timestamp::Timestamp;

mod always;
mod once;
pub use self::always::Always;
pub use self::once::Once;

verus! {

/// Why a detector could not decide.
#[derive(Clone, Copy, Debug, PartialEq, Eq, Structural, Hash)]
pub enum DetectSignalError {
    /// A value that the detector rests on could not be computed.
    IndicatorError,
}

/// The mathematical value of what a detector returns.
pub open spec fn detection_view(result: Result<Option<Signal>, DetectSignalError>) -> Result<
    Option<SignalView>,
    DetectSignalError,
> {
    match result {
        Ok(Some(signal)) => Ok(Some(signal@)),
        Ok(None) => Ok(None),
        Err(e) => Err(e),
    }
}

/// The capability to detect a signal at a point in time. A detector may
/// keep state of its own; what it returns depends on that state, on the
/// times at which it was asked since, and on the time at which it is asked.
/// The detectors of this library are proved to return what `detected_after`
/// says; of a detector that is written elsewhere this is taken on trust.
pub trait DetectSignal {
    /// What `detect_signal` returns at `datetime` once the detector, being
    /// as it is, has been asked at the times `asked`, one after the other.
    /// A detector that does not say what it returns leaves this unspecified.
    open spec fn detected_after(&self, asked: Seq<Timestamp>, datetime: Timestamp) -> Result<
        Option<SignalView>,
        DetectSignalError,
    > {
        arbitrary()
    }

    /// Asks the detector once, at `datetime`. It answers as a detector that
    /// has not been asked since, and from then on as one that was asked at
    /// `datetime` first.
    fn detect_signal(&mut self, datetime: &Timestamp) -> (r: Result<
        Option<Signal>,
        DetectSignalError,
    >)
        ensures
            detection_view(r) == old(self).detected_after(Seq::empty(), *datetime),
            forall|asked: Seq<Timestamp>, later: Timestamp| #[trigger]
                final(self).detected_after(asked, later) == old(self).detected_after(
                    seq![*datetime] + asked,
                    later,
                ),
    ;
}

} // verus!
