//! Key schedule of the Simplified Data Encryption Standard (S-DES).
//!
//! A 10-bit master key is turned into the two 8-bit round keys of the cipher
//! by fixed bit permutations and circular shifts of its two 5-bit halves.
//! Every function is specified over bit patterns read as sequences of
//! booleans, most significant bit first.

pub mod arguments;
pub mod bits;
pub mod error;
pub mod permutation;
pub mod schedule;
pub mod text;
