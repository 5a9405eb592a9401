//! Matrices, and the traits through which their rows and columns are read.

pub mod implementors;
pub mod matrix_oracle;
