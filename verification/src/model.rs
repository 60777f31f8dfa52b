use vstd::prelude::*;
use crate::order::{Order, OrderView};
use crate::strategy::Strategy;

verus! {

/// The identifier of a model.
pub type ModelId = String;

/// A trading model. It is supplied from outside; the kernel only calls it.
///
/// A model may say what it gives: its identifier, which strategies are its
/// entry strategy, and which are its exit strategies for a filled entry
/// order. The strategies carry fresh identifiers, so they are no function of
/// the model and the order; a model says which ones it may give. A model
/// that says nothing leaves all of them open, and of its identifier it is
/// taken on trust that it never changes.
pub trait Model {
    /// The characters of the identifier.
    open spec fn identifier(&self) -> Seq<char> {
        arbitrary()
    }

    /// `strategy` is a strategy that the model may give as its entry
    /// strategy.
    open spec fn enters_with(&self, strategy: Strategy) -> bool {
        true
    }

    /// `strategies` are strategies that the model may give as the exit
    /// strategies for the filled entry order `order`.
    open spec fn exits_with(&self, order: OrderView, strategies: Seq<Strategy>) -> bool {
        true
    }

    /// A stable identifier.
    fn id(&self) -> (r: ModelId)
        ensures
            r@ == self.identifier(),
    ;

    /// The strategy that opens positions.
    fn entry_strategy(&self) -> (r: Strategy)
        ensures
            self.enters_with(r),
    ;

    /// The strategies that close the position which the filled entry order
    /// `order` opened.
    fn exit_strategies(&self, order: &Order) -> (r: Vec<Strategy>)
        ensures
            self.exits_with(order@, r@),
    ;
}

/// A boxed model is the model in the box: it has its identifier and gives
/// what it gives.
impl<M: Model + ?Sized> Model for Box<M> {
    open spec fn identifier(&self) -> Seq<char> {
        (**self).identifier()
    }

    open spec fn enters_with(&self, strategy: Strategy) -> bool {
        (**self).enters_with(strategy)
    }

    open spec fn exits_with(&self, order: OrderView, strategies: Seq<Strategy>) -> bool {
        (**self).exits_with(order, strategies)
    }

    fn id(&self) -> (r: ModelId) {
        (**self).id()
    }

    fn entry_strategy(&self) -> (r: Strategy) {
        (**self).entry_strategy()
    }

    fn exit_strategies(&self, order: &Order) -> (r: Vec<Strategy>) {
        (**self).exit_strategies(order)
    }
}

/// A borrowed model is the model that was lent: it has its identifier and
/// gives what it gives.
impl<'a, M: Model + ?Sized> Model for &'a M {
    open spec fn identifier(&self) -> Seq<char> {
        (**self).identifier()
    }

    open spec fn enters_with(&self, strategy: Strategy) -> bool {
        (**self).enters_with(strategy)
    }

    open spec fn exits_with(&self, order: OrderView, strategies: Seq<Strategy>) -> bool {
        (**self).exits_with(order, strategies)
    }

    fn id(&self) -> (r: ModelId) {
        (**self).id()
    }

    fn entry_strategy(&self) -> (r: Strategy) {
        (**self).entry_strategy()
    }

    fn exit_strategies(&self, order: &Order) -> (r: Vec<Strategy>) {
        (**self).exit_strategies(order)
    }
}

} // verus!
