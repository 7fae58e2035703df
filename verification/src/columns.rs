//! The column slots that the lookup argument refers to.
use vstd::prelude::*;

verus! {

/// A column of the circuit, as far as the lookup argument names it.
#[derive(Clone, Copy, Debug, PartialEq, Eq, Hash, Structural)]
pub enum Column {
    /// A witness column, by its index.
    X(usize),
    /// The partial sum of one chunk of lookup terms, by the chunk's index.
    LookupPartialSum(usize),
    /// The multiplicities of a table, by the table's integer encoding.
    LookupMultiplicity(u32),
    /// The running sum over the rows.
    LookupAggregation,
    /// The combined values of a fixed table, by the table's integer encoding.
    LookupFixedTable(u32),
}

/// The row that a cell is read from, relative to the row under consideration.
#[derive(Clone, Copy, Debug, PartialEq, Eq, Hash, Structural)]
pub enum CurrOrNext {
    /// The row itself.
    Curr,
    /// The row that follows it.
    Next,
}

} // verus!
