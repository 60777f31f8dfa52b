use vstd::prelude::*;
use crate::symbol::{Price, SymbolId};
use crate::timestamp::Timestamp;

verus! {

/// The record of a fill.
#[derive(Debug, PartialEq)]
pub struct Execution {
    symbol_id: SymbolId,
    quantity: u32,
    price: Price,
    datetime: Timestamp,
}

/// The mathematical value of an [`Execution`].
pub struct ExecutionView {
    pub symbol_id: Seq<char>,
    pub quantity: u32,
    pub price: Price,
    pub datetime: Timestamp,
}

impl View for Execution {
    type V = ExecutionView;

    closed spec fn view(&self) -> ExecutionView {
        ExecutionView {
            symbol_id: self.symbol_id@,
            quantity: self.quantity,
            price: self.price,
            datetime: self.datetime,
        }
    }
}

impl Clone for Execution {
    fn clone(&self) -> (r: Self)
        ensures
            r@ == self@,
    {
        Execution {
            symbol_id: self.symbol_id.clone(),
            quantity: self.quantity,
            price: self.price,
            datetime: self.datetime,
        }
    }
}

impl Execution {
    pub fn new(symbol_id: SymbolId, quantity: u32, price: Price, datetime: Timestamp) -> (r: Self)
        ensures
            r@ == (ExecutionView { symbol_id: symbol_id@, quantity, price, datetime }),
    {
        Execution { symbol_id, quantity, price, datetime }
    }

    pub fn symbol_id(&self) -> (r: &SymbolId)
        ensures
            r@ == self@.symbol_id,
    {
        &self.symbol_id
    }

    pub fn quantity(&self) -> (r: &u32)
        ensures
            *r == self@.quantity,
    {
        &self.quantity
    }

    pub fn price(&self) -> (r: &Price)
        ensures
            *r == self@.price,
    {
        &self.price
    }

    pub fn datetime(&self) -> (r: &Timestamp)
        ensures
            *r == self@.datetime,
    {
        &self.datetime
    }
}

} // verus!
