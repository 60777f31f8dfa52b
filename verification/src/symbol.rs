use vstd::prelude::*;
use vstd::std_specs::cmp::PartialEqSpecImpl;
use crate::ohlcv::source::OhlcvSource;

verus! {

/// The identifier of an instrument.
pub type SymbolId = String;

/// A price, as a whole number of the smallest price increment that the
/// caller works with. The kernel only compares and copies prices.
pub type Price = i64;

/// An instrument and the source of its candles. Two symbols are equal where
/// their identifiers are.
pub struct Symbol<'a, S: OhlcvSource + ?Sized = dyn OhlcvSource> {
    pub id: SymbolId,
    pub source: &'a S,
}

impl<'a, S: OhlcvSource + ?Sized> Symbol<'a, S> {
    pub fn new(id: SymbolId, source: &'a S) -> (r: Symbol<'a, S>)
        ensures
            r.id == id,
            r.source == source,
    {
        Symbol { id: id, source: source }
    }
}

impl<'a, S: OhlcvSource + ?Sized> PartialEq for Symbol<'a, S> {
    fn eq(&self, other: &Symbol<'a, S>) -> (r: bool) {
        self.id == other.id
    }
}

impl<'a, S: OhlcvSource + ?Sized> PartialEqSpecImpl for Symbol<'a, S> {
    open spec fn obeys_eq_spec() -> bool {
        true
    }

    open spec fn eq_spec(&self, other: &Symbol<'a, S>) -> bool {
        self.id@ == other.id@
    }
}

impl<'a, S: OhlcvSource + ?Sized> Eq for Symbol<'a, S> {

}

} // verus!
