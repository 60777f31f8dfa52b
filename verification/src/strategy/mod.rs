use vstd::prelude::*;
use crate::order::policy::{OrderPolicy, OrderPolicyError};
use crate::order::{OrderBuilder, OrderBuilderView};
use crate::signal::detector::{DetectSignal, DetectSignalError};
use crate::signal::{Signal, SignalView};
use crate::timestamp::Timestamp;

mod strategy_id;
mod strategy_manager;
pub use self::strategy_id::{
    hex_digit, hex_text, key_before, last_field, law_order_of_identifiers, lemma_hex_text_order,
    lemma_last_field, lemma_last_field_is_inside, lemma_strategy_before_irreflexive,
    lemma_strategy_before_total, lemma_strategy_before_transitive, puid_text,
    shorter_or_smaller, strategy_before, strategy_is_before, StrategyId,
};
pub use self::strategy_manager::{
    binding_view, closed_views, closing_views, distinct_strategies, draft_views, entry_of,
    given_by_models, has_strategy, healthy, index_of_strategy, initialized,
    is_place_of_strategy, kept_or_spawned, law_retired_strategy_leaves_alone,
    law_same_signal_same_identifier, law_spawned_strategies_appear, lemma_failure_ends_run,
    lemma_failure_of_run, lemma_insert_keeps_sorted, lemma_place_of_strategy_exists,
    lemma_place_of_strategy_is_unique, lemma_run_among, lemma_sorted_strategies_are_distinct,
    lifecycle_among, lifecycle_step, passed, place_of_strategy, plan_view, planned_update,
    run_all, run_among, run_step, same_identifiers, sorted_strategies, spawned_by, type_views,
    with_exit_types, with_strategies, with_strategy, without_strategy, Lifecycle, PlannedUpdate,
    RunState, StrategiesUpdate, StrategyCollection, StrategyManager, StrategyType,
    StrategyTypeView,
};

verus! {

/// Why a strategy could not be run.
#[derive(Clone, Copy, Debug, PartialEq, Eq, Structural)]
pub enum StrategyError {
    DetectSignalError(DetectSignalError),
    CreateOrderError(OrderPolicyError),
}

/// A signal detector and the order policy that answers its signals, under
/// an identifier. Written without parameters, the type holds a detector and
/// a policy of any kind.
pub struct Strategy<
    D: DetectSignal + ?Sized = dyn DetectSignal,
    P: OrderPolicy + ?Sized = dyn OrderPolicy,
> {
    id: StrategyId,
    signal_detector: Box<D>,
    order_policy: Box<P>,
}

/// The mathematical value of what running a strategy returns.
pub open spec fn run_view(
    result: Result<Option<(Signal, OrderBuilder)>, StrategyError>,
) -> Result<Option<(SignalView, OrderBuilderView)>, StrategyError> {
    match result {
        Ok(Some((signal, order))) => Ok(Some((signal@, order@))),
        Ok(None) => Ok(None),
        Err(e) => Err(e),
    }
}

/// Calls `snowflake::ProcessUniqueId::new` and prints the identifier with
/// its `Display` (`puid-`, the thread's prefix and the count, both in
/// hexadecimal). The identifier depends on what the process has handed out
/// before, so the contract claims nothing about it. The outside type is
/// ordered by the prefix, then by the count; `strategy_before` reads that
/// order from the text, as `law_order_of_identifiers` shows. The outside function
/// panics once a thread has used up its identifiers and the process has no
/// prefix left, which takes more calls than a process can make.
#[verifier::external_body]
fn process_unique_id() -> (r: StrategyId) {
    snowflake::ProcessUniqueId::new().to_string()
}

/// Puts a strategy together.
fn assemble<D: DetectSignal + ?Sized, P: OrderPolicy + ?Sized>(
    id: StrategyId,
    signal_detector: Box<D>,
    order_policy: Box<P>,
) -> (r: Strategy<D, P>)
    ensures
        r.id_text() == id@,
        r.detector() == signal_detector,
        r.policy() == order_policy,
{
    Strategy { id, signal_detector, order_policy }
}

impl Strategy {
    /// A strategy under a fresh identifier.
    pub fn new(signal_detector: Box<dyn DetectSignal>, order_policy: Box<dyn OrderPolicy>) -> (r:
        Strategy)
        ensures
            r.detector() == signal_detector,
            r.policy() == order_policy,
    {
        let r = assemble(process_unique_id(), signal_detector, order_policy);
        r
    }
}

impl<D: DetectSignal + ?Sized, P: OrderPolicy + ?Sized> Strategy<D, P> {
    /// The characters of the identifier.
    pub closed spec fn id_text(&self) -> Seq<char> {
        self.id@
    }

    /// The signal detector, as it is now.
    pub closed spec fn detector(&self) -> Box<D> {
        self.signal_detector
    }

    /// The order policy.
    pub closed spec fn policy(&self) -> Box<P> {
        self.order_policy
    }

    /// What `run` returns at `datetime`, the detector being as it is.
    pub open spec fn outcome(&self, datetime: Timestamp) -> Result<
        Option<(SignalView, OrderBuilderView)>,
        StrategyError,
    > {
        self.outcome_after(Seq::empty(), datetime)
    }

    /// The strategy has been run once, at `datetime`, since it was as
    /// `before`: it has the same identifier and policy, and its detector
    /// answers as the detector of `before` does after it was asked at
    /// `datetime`.
    pub open spec fn asked_once(&self, before: Strategy<D, P>, datetime: Timestamp) -> bool {
        &&& self.id_text() == before.id_text()
        &&& self.policy() == before.policy()
        &&& forall|asked: Seq<Timestamp>, later: Timestamp| #[trigger]
            self.detector().detected_after(asked, later) == before.detector().detected_after(
                seq![datetime] + asked,
                later,
            )
    }

    /// What `run` returns at `datetime` once the strategy, being as it is,
    /// has been run at the times `asked`: the signal that the detector gives
    /// and the draft with which the policy answers it, nothing where the
    /// detector gives no signal, or the failure of the one or of the other.
    pub open spec fn outcome_after(&self, asked: Seq<Timestamp>, datetime: Timestamp) -> Result<
        Option<(SignalView, OrderBuilderView)>,
        StrategyError,
    > {
        match self.detector().detected_after(asked, datetime) {
            Ok(Some(signal)) => match self.policy().order_for(signal) {
                Ok(order) => Ok(Some((signal, order))),
                Err(e) => Err(StrategyError::CreateOrderError(e)),
            },
            Ok(None) => Ok(None),
            Err(e) => Err(StrategyError::DetectSignalError(e)),
        }
    }

    /// Asks the detector once for a signal at `datetime` and, where it
    /// gives one, the policy for the draft of an order.
    pub fn run(&mut self, datetime: &Timestamp) -> (r: Result<
        Option<(Signal, OrderBuilder)>,
        StrategyError,
    >)
        ensures
            run_view(r) == old(self).outcome(*datetime),
            final(self).asked_once(*old(self), *datetime),
    {
        match self.signal_detector.detect_signal(datetime) {
            Ok(Some(signal)) => match self.order_policy.create_order(&signal) {
                Ok(order) => Ok(Some((signal, order))),
                Err(e) => Err(StrategyError::CreateOrderError(e)),
            },
            Ok(None) => Ok(None),
            Err(e) => Err(StrategyError::DetectSignalError(e)),
        }
    }

    pub fn id(&self) -> (r: &StrategyId)
        ensures
            r@ == self.id_text(),
    {
        &self.id
    }
}

} // verus!
