use vstd::prelude::*;
use crate::order::policy::{OrderPolicy, OrderPolicyError};
use crate::order::{OrderBuilder, OrderBuilderView, OrderKind};
use crate::signal::{Signal, SignalView};

verus! {

/// The policy that answers every signal with a market order.
pub struct MarketOrderPolicy {}

impl MarketOrderPolicy {
    pub fn new() -> MarketOrderPolicy {
        MarketOrderPolicy {  }
    }
}

impl OrderPolicy for MarketOrderPolicy {
    open spec fn order_for(&self, signal: SignalView) -> Result<
        OrderBuilderView,
        OrderPolicyError,
    > {
        Ok(
            OrderBuilderView::unallocated(
                OrderKind::MarketOrder,
                signal.symbol_id,
                signal.direction,
            ),
        )
    }

    fn create_order(&self, signal: &Signal) -> (r: Result<OrderBuilder, OrderPolicyError>) {
        Ok(
            OrderBuilder::unallocated(
                OrderKind::MarketOrder,
                signal.symbol_id().clone(),
                *signal.direction(),
            ),
        )
    }
}

} // verus!
