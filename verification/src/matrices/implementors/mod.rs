//! Some ways to store a matrix.

pub mod scalar_matrices;
pub mod vec_of_csvec;
pub mod vec_of_vec;
