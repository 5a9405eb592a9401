//! Sparse vectors.
//!
//! A sparse vector is represented as a stream that runs over vector entries,
//! that is, over objects which implement `KeyValGet` and possibly `KeyValSet`.

pub mod vector_transforms;
