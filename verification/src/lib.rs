//! Sparse matrix algebra over arbitrary coefficient rings.
//!
//! A sparse vector is a stream of `(key, value)` entries; a matrix is anything
//! that can produce such streams for its rows or columns.  The crate offers
//! lazy transformations of entry streams, a mergeable heap of streams, and a
//! pivoted column reduction built from these.

pub mod matrices;
pub mod matrix_factorization;
pub mod rings;
pub mod utilities;
pub mod vector_entries;
pub mod vectors;
