use vstd::prelude::*;
use crate::direction::Direction;
use crate::symbol::SymbolId;
use crate::timestamp::Timestamp;

pub mod detector;

verus! {

/// A detected trade trigger.
#[derive(Debug, PartialEq)]
pub struct Signal {
    symbol_id: SymbolId,
    direction: Direction,
    datetime: Timestamp,
    label: String,
}

/// The mathematical value of a [`Signal`].
pub struct SignalView {
    pub symbol_id: Seq<char>,
    pub direction: Direction,
    pub datetime: Timestamp,
    pub label: Seq<char>,
}

impl View for Signal {
    type V = SignalView;

    closed spec fn view(&self) -> SignalView {
        SignalView {
            symbol_id: self.symbol_id@,
            direction: self.direction,
            datetime: self.datetime,
            label: self.label@,
        }
    }
}

impl Clone for Signal {
    fn clone(&self) -> (r: Self)
        ensures
            r@ == self@,
    {
        Signal {
            symbol_id: self.symbol_id.clone(),
            direction: self.direction,
            datetime: self.datetime,
            label: self.label.clone(),
        }
    }
}

impl Signal {
    pub fn new(symbol_id: SymbolId, direction: Direction, datetime: Timestamp, label: String) -> (r:
        Signal)
        ensures
            r@ == (SignalView { symbol_id: symbol_id@, direction, datetime, label: label@ }),
    {
        Signal { symbol_id: symbol_id, direction: direction, datetime: datetime, label: label }
    }

    pub fn symbol_id(&self) -> (r: &SymbolId)
        ensures
            r@ == self@.symbol_id,
    {
        &self.symbol_id
    }

    pub fn direction(&self) -> (r: &Direction)
        ensures
            *r == self@.direction,
    {
        &self.direction
    }

    pub fn datetime(&self) -> (r: &Timestamp)
        ensures
            *r == self@.datetime,
    {
        &self.datetime
    }

    pub fn label(&self) -> (r: &String)
        ensures
            r@ == self@.label,
    {
        &self.label
    }
}

} // verus!
