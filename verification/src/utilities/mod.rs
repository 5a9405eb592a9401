//! Miscellaneous objects, traits, and functions used throughout the library.

pub mod cell_complexes;
pub mod combinatorics;
pub mod heaps;
pub mod indexing_and_bijection;
pub mod iterators;
pub mod ring;
pub mod sequences_and_ordinals;
pub mod statistics;
