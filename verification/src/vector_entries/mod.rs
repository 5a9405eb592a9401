//! Entries of sparse vectors.

pub mod vector_entries;
