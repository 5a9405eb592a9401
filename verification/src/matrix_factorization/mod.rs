//! Matrix factorization.

pub mod vec_of_vec;
