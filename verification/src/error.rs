//! The ways in which a request for round keys can be refused.

use vstd::prelude::*;

verus! {

/// Why an input was refused.
#[derive(Clone, Copy, Debug, PartialEq, Eq, Structural)]
pub enum SdesError {
    /// Fewer than the two required arguments, key and data, were given.
    UsageError,
    /// The key is not a binary literal of one to ten digits.
    InvalidKeyFormat,
    /// The data is not a binary literal that fits in eight bits.
    InvalidDataFormat,
    /// A permutation table names a source position that is zero or lies
    /// beyond the source width.
    InvalidPermutationTable,
}

} // verus!
