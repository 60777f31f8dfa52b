use vstd::prelude::*;
use crate::order::policy::{OrderPolicy, OrderPolicyError};
use crate::order::{clone_text, text_of, OcaGroup, OrderBuilder, OrderBuilderView, OrderKind};
use crate::signal::{Signal, SignalView};
use crate::timestamp::Timestamp;

verus! {

/// The policy that answers every signal with an order of one kind, in one
/// one-cancels-all group and with one window of time.
pub struct SimpleOrderPolicy {
    order_kind: OrderKind,
    oca: Option<OcaGroup>,
    active_until: Option<Timestamp>,
    active_after: Option<Timestamp>,
}

/// The mathematical value of a [`SimpleOrderPolicy`].
pub struct SimpleOrderPolicyView {
    pub order_kind: OrderKind,
    pub oca: Option<Seq<char>>,
    pub active_until: Option<Timestamp>,
    pub active_after: Option<Timestamp>,
}

impl View for SimpleOrderPolicy {
    type V = SimpleOrderPolicyView;

    closed spec fn view(&self) -> SimpleOrderPolicyView {
        SimpleOrderPolicyView {
            order_kind: self.order_kind,
            oca: text_of(self.oca),
            active_until: self.active_until,
            active_after: self.active_after,
        }
    }
}

impl SimpleOrderPolicy {
    pub fn new(order_kind: OrderKind) -> (r: Self)
        ensures
            r@ == (SimpleOrderPolicyView {
                order_kind,
                oca: None,
                active_until: None,
                active_after: None,
            }),
    {
        SimpleOrderPolicy {
            order_kind: order_kind,
            oca: None,
            active_until: None,
            active_after: None,
        }
    }

    pub fn oca(&self) -> (r: &Option<OcaGroup>)
        ensures
            text_of(*r) == self@.oca,
    {
        &self.oca
    }

    pub fn set_oca(self, value: Option<OcaGroup>) -> (r: Self)
        ensures
            r@ == (SimpleOrderPolicyView { oca: text_of(value), ..self@ }),
    {
        let mut policy = self;
        policy.oca = value;
        policy
    }

    pub fn active_until(&self) -> (r: &Option<Timestamp>)
        ensures
            *r == self@.active_until,
    {
        &self.active_until
    }

    pub fn set_active_until(self, value: Option<Timestamp>) -> (r: Self)
        ensures
            r@ == (SimpleOrderPolicyView { active_until: value, ..self@ }),
    {
        let mut policy = self;
        policy.active_until = value;
        policy
    }

    pub fn active_after(&self) -> (r: &Option<Timestamp>)
        ensures
            *r == self@.active_after,
    {
        &self.active_after
    }

    pub fn set_active_after(self, value: Option<Timestamp>) -> (r: Self)
        ensures
            r@ == (SimpleOrderPolicyView { active_after: value, ..self@ }),
    {
        let mut policy = self;
        policy.active_after = value;
        policy
    }
}

impl OrderPolicy for SimpleOrderPolicy {
    open spec fn order_for(&self, signal: SignalView) -> Result<
        OrderBuilderView,
        OrderPolicyError,
    > {
        Ok(
            OrderBuilderView {
                oca: self@.oca,
                active_until: self@.active_until,
                active_after: self@.active_after,
                ..OrderBuilderView::unallocated(
                    self@.order_kind,
                    signal.symbol_id,
                    signal.direction,
                )
            },
        )
    }

    fn create_order(&self, signal: &Signal) -> (r: Result<OrderBuilder, OrderPolicyError>) {
        Ok(
            OrderBuilder::unallocated(
                self.order_kind,
                signal.symbol_id().clone(),
                *signal.direction(),
            ).set_active_after(self.active_after).set_active_until(self.active_until).set_oca(
                clone_text(&self.oca),
            ),
        )
    }
}

} // verus!
