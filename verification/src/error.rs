//! The ways in which the lookup argument can reject what it is given.
use vstd::prelude::*;

verus! {

/// Why an operation of the lookup argument failed.
#[derive(Clone, Copy, Debug, PartialEq, Eq, Structural)]
pub enum LookupError {
    /// A denominator of a lookup term does not have the degree that the
    /// constraint system is laid out for.
    ConfigurationError,
    /// A lookup column was asked for where the proof has no lookup section.
    MissingData,
    /// A denominator is zero, so it has no inverse.
    ArithmeticError,
    /// An index of a witness column, of a partial sum or of a table lies
    /// outside what was declared.
    IndexError,
    /// The running sum does not return to zero after the last row: some value
    /// is not looked up as often as its table declares.
    SumNotZero,
}

} // verus!
