use vstd::prelude::*;

verus! {

/// The side of a trade.
#[derive(Clone, Copy, Debug, PartialEq, Eq, Structural, Hash)]
pub enum Direction {
    Long,
    Short,
}

} // verus!
