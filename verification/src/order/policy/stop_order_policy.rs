use vstd::prelude::*;
use crate::order::policy::{OrderPolicy, OrderPolicyError};
use crate::order::{OrderBuilder, OrderBuilderView, OrderKind};
use crate::signal::{Signal, SignalView};
use crate::symbol::Price;

verus! {

/// The policy that answers every signal with a stop order at one price.
pub struct StopOrderPolicy {
    price: Price,
}

impl StopOrderPolicy {
    /// The price of the stop orders.
    pub closed spec fn stop_price(&self) -> Price {
        self.price
    }

    pub fn new(price: Price) -> (r: StopOrderPolicy)
        ensures
            r.stop_price() == price,
    {
        StopOrderPolicy { price }
    }
}

impl OrderPolicy for StopOrderPolicy {
    open spec fn order_for(&self, signal: SignalView) -> Result<
        OrderBuilderView,
        OrderPolicyError,
    > {
        Ok(
            OrderBuilderView::unallocated(
                OrderKind::StopOrder(self.stop_price()),
                signal.symbol_id,
                signal.direction,
            ),
        )
    }

    fn create_order(&self, signal: &Signal) -> (r: Result<OrderBuilder, OrderPolicyError>) {
        Ok(
            OrderBuilder::unallocated(
                OrderKind::StopOrder(self.price),
                signal.symbol_id().clone(),
                *signal.direction(),
            ),
        )
    }
}

} // verus!
