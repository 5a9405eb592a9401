//! Simplicial complexes whose simplices carry no weight.
//!
//! A simplex is a strictly ascending sequence of vertices.


pub mod boundary_matrices;
pub mod facets;
pub mod simplex;
