use vstd::prelude::*;
use vstd::string::StringExecFns;
use crate::order::{OrderBuilder, OrderBuilderView, OrderId};
use crate::signal::{Signal, SignalView};
use crate::strategy::StrategyId;
use crate::timestamp::{utc_datetime_text, Timestamp};

verus! {

/// The capability to name an order: the identifier is a function of the
/// strategy, the signal and the draft, so that the same strategy and signal
/// are given the same identifier whenever they are named again. The
/// generator of this library is proved to give what `id_for` says; of a
/// generator that is written elsewhere this is taken on trust.
pub trait GenerateOrderId {
    /// The identifier that `get_id` gives. A generator that does not say
    /// what it gives leaves this unspecified.
    open spec fn id_for(
        &self,
        strategy_id: Seq<char>,
        signal: SignalView,
        order_builder: OrderBuilderView,
    ) -> Seq<char> {
        arbitrary()
    }

    fn get_id(&self, strategy_id: StrategyId, signal: &Signal, order_builder: &OrderBuilder) -> (r:
        OrderId)
        ensures
            r@ == self.id_for(strategy_id@, signal@, order_builder@),
    ;
}

/// The text of the name-based (SHA-1) UUID of `name` in the namespace of ISO
/// object identifiers, in its hyphenated lower-case form.
pub uninterp spec fn oid_uuid_v5_text(name: Seq<char>) -> Seq<char>;

/// Calls `uuid::Uuid::new_v5` with `uuid::Uuid::NAMESPACE_OID` and the bytes
/// of `name`, and prints the UUID through `Uuid::hyphenated`. The contract
/// claims that the text is a function of the name alone, and gives that
/// function a name.
#[verifier::external_body]
fn oid_uuid_v5(name: &str) -> (r: String)
    ensures
        r@ == oid_uuid_v5_text(name@),
{
    uuid::Uuid::new_v5(&uuid::Uuid::NAMESPACE_OID, name.as_bytes()).hyphenated().to_string()
}

/// The name from which the identifier of an order is derived: the
/// strategy's identifier, the separator ` - ` and the date and time of the
/// signal as `chrono` prints it (nothing where it has no date for the
/// instant).
pub open spec fn order_name(strategy_id: Seq<char>, datetime: Timestamp) -> Seq<char> {
    strategy_id + " - "@ + match utc_datetime_text(datetime.seconds, datetime.nanoseconds) {
        Some(text) => text,
        None => Seq::empty(),
    }
}

/// The generator that derives the identifier of an order from the
/// strategy's identifier and the signal's time, as a name-based UUID.
pub struct UUIDOrderIdGenerator;

impl UUIDOrderIdGenerator {
    pub fn new() -> Self {
        UUIDOrderIdGenerator {  }
    }
}

impl GenerateOrderId for UUIDOrderIdGenerator {
    open spec fn id_for(
        &self,
        strategy_id: Seq<char>,
        signal: SignalView,
        order_builder: OrderBuilderView,
    ) -> Seq<char> {
        oid_uuid_v5_text(order_name(strategy_id, signal.datetime))
    }

    fn get_id(&self, strategy_id: StrategyId, signal: &Signal, _order_builder: &OrderBuilder) -> (r:
        OrderId) {
        let mut name = strategy_id;
        name.append(" - ");
        match signal.datetime().utc_text() {
            Some(text) => {
                name.append(text.as_str());
            },
            None => {
                assert(name@ + Seq::<char>::empty() =~= name@);
            },
        }
        oid_uuid_v5(name.as_str())
    }
}

} // verus!
