use vstd::prelude::*;
use crate::direction::Direction;
use crate::execution::Execution;
use crate::symbol::{Price, SymbolId};
use crate::timestamp::Timestamp;

mod order_id;
mod order_id_generator;
mod order_status;

pub mod policy;
pub use self::order_id::{
    bytes_before, id_before, id_is_before, lemma_bytes_before_irreflexive,
    lemma_bytes_before_total, lemma_bytes_before_transitive, lemma_id_before_irreflexive,
    lemma_id_before_total, lemma_id_before_transitive, OrderId,
};
pub use self::order_id_generator::{
    oid_uuid_v5_text, order_name, GenerateOrderId, UUIDOrderIdGenerator,
};
pub use self::order_status::{CancellationReason, OrderStatus, OrderStatusView};

verus! {

/// The name of a one-cancels-all group.
pub type OcaGroup = String;

/// How an order is triggered.
#[derive(Clone, Copy, Debug, PartialEq, Eq, Structural)]
pub enum OrderKind {
    MarketOrder,
    LimitOrder(Price),
    StopOrder(Price),
}

/// The characters of an optional text.
pub open spec fn text_of(text: Option<String>) -> Option<Seq<char>> {
    match text {
        Some(s) => Some(s@),
        None => None,
    }
}

pub(crate) fn clone_text(text: &Option<String>) -> (r: Option<String>)
    ensures
        text_of(r) == text_of(*text),
{
    match text {
        Some(s) => Some(s.clone()),
        None => None,
    }
}

/// An order that carries its identifier.
#[derive(Debug, PartialEq)]
pub struct Order {
    id: OrderId,
    symbol_id: SymbolId,
    direction: Direction,
    quantity: u32,
    status: OrderStatus,
    kind: OrderKind,
    oca: Option<OcaGroup>,
    active_until: Option<Timestamp>,
    active_after: Option<Timestamp>,
}

/// The mathematical value of an [`Order`].
pub struct OrderView {
    pub id: Seq<char>,
    pub symbol_id: Seq<char>,
    pub direction: Direction,
    pub quantity: u32,
    pub status: OrderStatusView,
    pub kind: OrderKind,
    pub oca: Option<Seq<char>>,
    pub active_until: Option<Timestamp>,
    pub active_after: Option<Timestamp>,
}

impl OrderView {
    /// The same order in another status.
    pub open spec fn with_status(self, status: OrderStatusView) -> OrderView {
        OrderView { status, ..self }
    }
}

impl View for Order {
    type V = OrderView;

    closed spec fn view(&self) -> OrderView {
        OrderView {
            id: self.id@,
            symbol_id: self.symbol_id@,
            direction: self.direction,
            quantity: self.quantity,
            status: self.status@,
            kind: self.kind,
            oca: text_of(self.oca),
            active_until: self.active_until,
            active_after: self.active_after,
        }
    }
}

impl Clone for Order {
    fn clone(&self) -> (r: Self)
        ensures
            r@ == self@,
    {
        Order {
            id: self.id.clone(),
            symbol_id: self.symbol_id.clone(),
            direction: self.direction,
            quantity: self.quantity,
            status: self.status.clone(),
            kind: self.kind,
            oca: clone_text(&self.oca),
            active_until: self.active_until,
            active_after: self.active_after,
        }
    }
}

impl Order {
    pub fn id(&self) -> (r: &OrderId)
        ensures
            r@ == self@.id,
    {
        &self.id
    }

    pub fn symbol_id(&self) -> (r: &SymbolId)
        ensures
            r@ == self@.symbol_id,
    {
        &self.symbol_id
    }

    pub fn direction(&self) -> (r: &Direction)
        ensures
            *r == self@.direction,
    {
        &self.direction
    }

    pub fn quantity(&self) -> (r: u32)
        ensures
            r == self@.quantity,
    {
        self.quantity
    }

    pub fn status(&self) -> (r: &OrderStatus)
        ensures
            r@ == self@.status,
    {
        &self.status
    }

    pub fn set_status(&mut self, value: OrderStatus)
        ensures
            final(self)@ == old(self)@.with_status(value@),
    {
        self.status = value
    }

    pub fn kind(&self) -> (r: &OrderKind)
        ensures
            *r == self@.kind,
    {
        &self.kind
    }

    pub fn oca(&self) -> (r: &Option<OcaGroup>)
        ensures
            text_of(*r) == self@.oca,
    {
        &self.oca
    }

    pub fn active_until(&self) -> (r: &Option<Timestamp>)
        ensures
            *r == self@.active_until,
    {
        &self.active_until
    }

    pub fn active_after(&self) -> (r: &Option<Timestamp>)
        ensures
            *r == self@.active_after,
    {
        &self.active_after
    }

    /// The fill of the order, where it is filled.
    pub fn execution(&self) -> (r: Option<&Execution>)
        ensures
            match r {
                Some(execution) => self@.status == OrderStatusView::Filled(execution@),
                None => !(self@.status is Filled),
            },
    {
        match &self.status {
            OrderStatus::Filled(execution) => Some(execution),
            _ => None,
        }
    }
}

/// The draft of an order: it may still lack its identifier.
#[derive(Debug, PartialEq)]
pub struct OrderBuilder {
    id: Option<OrderId>,
    symbol_id: SymbolId,
    direction: Direction,
    quantity: u32,
    status: OrderStatus,
    kind: OrderKind,
    oca: Option<OcaGroup>,
    active_until: Option<Timestamp>,
    active_after: Option<Timestamp>,
}

/// The mathematical value of an [`OrderBuilder`].
pub struct OrderBuilderView {
    pub id: Option<Seq<char>>,
    pub symbol_id: Seq<char>,
    pub direction: Direction,
    pub quantity: u32,
    pub status: OrderStatusView,
    pub kind: OrderKind,
    pub oca: Option<Seq<char>>,
    pub active_until: Option<Timestamp>,
    pub active_after: Option<Timestamp>,
}

impl OrderBuilderView {
    /// The draft that `OrderBuilder::unallocated` makes.
    pub open spec fn unallocated(
        kind: OrderKind,
        symbol_id: Seq<char>,
        direction: Direction,
    ) -> OrderBuilderView {
        OrderBuilderView {
            id: None,
            symbol_id,
            direction,
            quantity: 0,
            status: OrderStatusView::NotSent,
            kind,
            oca: None,
            active_until: None,
            active_after: None,
        }
    }

    /// The order that the draft becomes under the identifier `id`.
    pub open spec fn committed(self, id: Seq<char>) -> OrderView {
        OrderView {
            id,
            symbol_id: self.symbol_id,
            direction: self.direction,
            quantity: self.quantity,
            status: self.status,
            kind: self.kind,
            oca: self.oca,
            active_until: self.active_until,
            active_after: self.active_after,
        }
    }
}

impl View for OrderBuilder {
    type V = OrderBuilderView;

    closed spec fn view(&self) -> OrderBuilderView {
        OrderBuilderView {
            id: text_of(self.id),
            symbol_id: self.symbol_id@,
            direction: self.direction,
            quantity: self.quantity,
            status: self.status@,
            kind: self.kind,
            oca: text_of(self.oca),
            active_until: self.active_until,
            active_after: self.active_after,
        }
    }
}

impl Clone for OrderBuilder {
    fn clone(&self) -> (r: Self)
        ensures
            r@ == self@,
    {
        OrderBuilder {
            id: clone_text(&self.id),
            symbol_id: self.symbol_id.clone(),
            direction: self.direction,
            quantity: self.quantity,
            status: self.status.clone(),
            kind: self.kind,
            oca: clone_text(&self.oca),
            active_until: self.active_until,
            active_after: self.active_after,
        }
    }
}

impl OrderBuilder {
    /// A draft without identifier, of quantity 0, not sent, in no
    /// one-cancels-all group and without bounds in time.
    pub fn unallocated(kind: OrderKind, symbol_id: SymbolId, direction: Direction) -> (r:
        OrderBuilder)
        ensures
            r@ == OrderBuilderView::unallocated(kind, symbol_id@, direction),
    {
        OrderBuilder {
            id: None,
            symbol_id: symbol_id,
            direction: direction,
            quantity: 0,
            status: OrderStatus::NotSent,
            kind: kind,
            oca: None,
            active_until: None,
            active_after: None,
        }
    }

    pub fn kind(&self) -> (r: &OrderKind)
        ensures
            *r == self@.kind,
    {
        &self.kind
    }

    pub fn symbol_id(&self) -> (r: &SymbolId)
        ensures
            r@ == self@.symbol_id,
    {
        &self.symbol_id
    }

    pub fn direction(&self) -> (r: &Direction)
        ensures
            *r == self@.direction,
    {
        &self.direction
    }

    pub fn id(&self) -> (r: &Option<OrderId>)
        ensures
            text_of(*r) == self@.id,
    {
        &self.id
    }

    pub fn set_id(self, value: OrderId) -> (r: Self)
        ensures
            r@ == (OrderBuilderView { id: Some(value@), ..self@ }),
    {
        let mut builder = self;
        builder.id = Some(value);
        builder
    }

    pub fn status(&self) -> (r: &OrderStatus)
        ensures
            r@ == self@.status,
    {
        &self.status
    }

    pub fn set_status(self, value: OrderStatus) -> (r: Self)
        ensures
            r@ == (OrderBuilderView { status: value@, ..self@ }),
    {
        let mut builder = self;
        builder.status = value;
        builder
    }

    pub fn oca(&self) -> (r: &Option<OcaGroup>)
        ensures
            text_of(*r) == self@.oca,
    {
        &self.oca
    }

    pub fn set_oca(self, value: Option<OcaGroup>) -> (r: Self)
        ensures
            r@ == (OrderBuilderView { oca: text_of(value), ..self@ }),
    {
        let mut builder = self;
        builder.oca = value;
        builder
    }

    pub fn active_until(&self) -> (r: &Option<Timestamp>)
        ensures
            *r == self@.active_until,
    {
        &self.active_until
    }

    pub fn set_active_until(self, value: Option<Timestamp>) -> (r: Self)
        ensures
            r@ == (OrderBuilderView { active_until: value, ..self@ }),
    {
        let mut builder = self;
        builder.active_until = value;
        builder
    }

    pub fn quantity(&self) -> (r: u32)
        ensures
            r == self@.quantity,
    {
        self.quantity
    }

    pub fn set_quantity(self, value: u32) -> (r: Self)
        ensures
            r@ == (OrderBuilderView { quantity: value, ..self@ }),
    {
        let mut builder = self;
        builder.quantity = value;
        builder
    }

    pub fn active_after(&self) -> (r: &Option<Timestamp>)
        ensures
            *r == self@.active_after,
    {
        &self.active_after
    }

    pub fn set_active_after(self, value: Option<Timestamp>) -> (r: Self)
        ensures
            r@ == (OrderBuilderView { active_after: value, ..self@ }),
    {
        let mut builder = self;
        builder.active_after = value;
        builder
    }

    /// Commits the draft. A draft without identifier is rejected.
    pub fn build(self) -> (r: Result<Order, BuildOrderError>)
        ensures
            match r {
                Ok(order) => self@.id is Some && order@ == self@.committed(self@.id->0),
                Err(e) => self@.id is None && e == BuildOrderError::UndefinedId,
            },
    {
        match self.id {
            Some(id) => Ok(
                Order {
                    id: id,
                    symbol_id: self.symbol_id,
                    direction: self.direction,
                    quantity: self.quantity,
                    status: self.status,
                    kind: self.kind,
                    oca: self.oca,
                    active_until: self.active_until,
                    active_after: self.active_after,
                },
            ),
            None => Err(BuildOrderError::UndefinedId),
        }
    }
}

/// Why a draft could not be committed.
#[derive(Clone, Copy, Debug, PartialEq, Eq, Structural)]
pub enum BuildOrderError {
    /// The draft has no identifier.
    UndefinedId,
}


/// The mathematical values of a sequence of orders, in the same order.
pub open spec fn order_views(orders: Seq<Order>) -> Seq<OrderView> {
    Seq::new(orders.len(), |i: int| orders[i]@)
}

/// The mathematical values of a sequence of status changes: each is the
/// identifier of an order and its new status.
pub open spec fn update_views(updates: Seq<(OrderId, OrderStatus)>) -> Seq<
    (Seq<char>, OrderStatusView),
> {
    Seq::new(updates.len(), |i: int| (updates[i].0@, updates[i].1@))
}


/// No two orders of the sequence have the same identifier.
pub open spec fn distinct_ids(orders: Seq<OrderView>) -> bool {
    forall|i: int, j: int|
        0 <= i < j < orders.len() ==> (#[trigger] orders[i]).id != (#[trigger] orders[j]).id
}

} // verus!
