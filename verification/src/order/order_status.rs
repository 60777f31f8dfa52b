use vstd::prelude::*;
use crate::execution::{Execution, ExecutionView};

verus! {

/// Why an order was cancelled.
#[derive(Clone, Copy, Debug, PartialEq, Eq, Structural, Hash)]
pub enum CancellationReason {
    /// Another order of the same one-cancels-all group was filled first.
    FilledOca,
    /// The order was still waiting when its active-until bound was reached.
    OutdatedOrder,
}

/// Where an order stands. `Filled` and `Cancelled` are terminal.
#[derive(Debug, PartialEq)]
pub enum OrderStatus {
    NotSent,
    Sent,
    Filled(Execution),
    Cancelled(CancellationReason),
}

/// The mathematical value of an [`OrderStatus`].
pub enum OrderStatusView {
    NotSent,
    Sent,
    Filled(ExecutionView),
    Cancelled(CancellationReason),
}

impl OrderStatusView {
    /// The status is `Filled` or `Cancelled`.
    pub open spec fn is_terminal(self) -> bool {
        self is Filled || self is Cancelled
    }
}

impl View for OrderStatus {
    type V = OrderStatusView;

    open spec fn view(&self) -> OrderStatusView {
        match self {
            OrderStatus::NotSent => OrderStatusView::NotSent,
            OrderStatus::Sent => OrderStatusView::Sent,
            OrderStatus::Filled(execution) => OrderStatusView::Filled(execution@),
            OrderStatus::Cancelled(reason) => OrderStatusView::Cancelled(*reason),
        }
    }
}

impl Clone for OrderStatus {
    fn clone(&self) -> (r: Self)
        ensures
            r@ == self@,
    {
        match self {
            OrderStatus::NotSent => OrderStatus::NotSent,
            OrderStatus::Sent => OrderStatus::Sent,
            OrderStatus::Filled(execution) => OrderStatus::Filled(execution.clone()),
            OrderStatus::Cancelled(reason) => OrderStatus::Cancelled(*reason),
        }
    }
}

impl OrderStatus {
    /// Whether the status is `Filled` or `Cancelled`.
    pub fn is_terminal(&self) -> (r: bool)
        ensures
            r == self@.is_terminal(),
    {
        match self {
            OrderStatus::Filled(_) => true,
            OrderStatus::Cancelled(_) => true,
            _ => false,
        }
    }
}

} // verus!
