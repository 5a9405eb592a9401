//! Tools to work with cell complexes -- specifically, the
//! boundary matrices of cell complexes.

pub mod simplices_unweighted;
