//! A fraction-sum lookup argument over the BN254 scalar field.
//!
//! Witness values are shown to be members of a table by one aggregated identity
//! of rational functions: the sum, over all rows, of `numerator / (beta + value)`
//! must vanish. This crate holds the data model of the argument, the arithmetic
//! that turns a witness into the partial sums and the running sum, the symbolic
//! constraints that a verifier checks, and the container that fixes the order in
//! which the parts of a proof are read.
use vstd::prelude::*;

pub mod algebra;
pub mod columns;
pub mod error;
pub mod expr;
pub mod field;
pub mod laws;
pub mod lookups;
pub mod mvlookup;
pub mod order;
pub mod poly;
pub mod proofs;
pub mod witness;

verus! {

/// The highest degree that a constraint of the surrounding proof system may have.
pub const MAX_SUPPORTED_DEGREE: usize = 8;

/// The number of lookup terms that one partial sum may hold: two less than the
/// highest supported degree, so that the terms' denominators, with the partial
/// sum itself, stay within that degree.
pub const CHUNK_SIZE: usize = 6;

/// The number of rows of the default evaluation domain.
pub const DOMAIN_SIZE: usize = 32768;

} // verus!
