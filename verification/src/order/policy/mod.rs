use vstd::prelude::*;
use crate::order::{OrderBuilder, OrderBuilderView};
use crate::signal::{Signal, SignalView};

mod market_order_policy;
mod simple_order_policy;
mod stop_order_policy;
pub use self::market_order_policy::MarketOrderPolicy;
pub use self::simple_order_policy::SimpleOrderPolicy;
pub use self::stop_order_policy::StopOrderPolicy;

verus! {

/// Why a policy could not make an order.
#[derive(Clone, Copy, Debug, PartialEq, Eq, Structural, Hash)]
pub enum OrderPolicyError {
    /// A value that the policy rests on could not be computed.
    IndicatorError,
}

/// The mathematical value of what a policy returns.
pub open spec fn draft_view(result: Result<OrderBuilder, OrderPolicyError>) -> Result<
    OrderBuilderView,
    OrderPolicyError,
> {
    match result {
        Ok(order) => Ok(order@),
        Err(e) => Err(e),
    }
}

/// The capability to turn a signal into the draft of an order. What a
/// policy returns depends on the policy and the signal alone. The policies
/// of this library are proved to return what `order_for` says; of a policy
/// that is written elsewhere this is taken on trust.
pub trait OrderPolicy {
    /// What `create_order` returns for the signal. A policy that does not
    /// say what it returns leaves this unspecified.
    open spec fn order_for(&self, signal: SignalView) -> Result<
        OrderBuilderView,
        OrderPolicyError,
    > {
        arbitrary()
    }

    fn create_order(&self, signal: &Signal) -> (r: Result<OrderBuilder, OrderPolicyError>)
        ensures
            draft_view(r) == self.order_for(signal@),
    ;
}

} // verus!
