//! Matrices stored as a vector of index vectors and a vector of coefficient
//! vectors.
//!
//! This overall structure for data is common.  It is useful when there is a
//! natural bijection between *one* set of indices and {0, ..., n}, but not the
//! other set of indices.

use vstd::prelude::*;
use crate::matrices::matrix_oracle::{MajorDimension, WhichMajor};

verus! {

/// A sparse matrix whose `i`th major vector has the indices `min_ind[i]` and,
/// in the same order, the coefficients `snz_val[i]`.
pub struct VecCsv<MinKey, SnzVal> {
    major_dimension: MajorDimension,
    min_ind: Vec<Vec<MinKey>>,
    snz_val: Vec<Vec<SnzVal>>,
}

impl<MinKey, SnzVal> VecCsv<MinKey, SnzVal> {
    /// The number of major vectors.
    pub closed spec fn num_majors(&self) -> nat {
        self.min_ind@.len()
    }

    /// Make new (empty) matrix.
    pub fn new(major_dimension: MajorDimension) -> (r: Self)
        ensures
            r.major_dimension_of() == major_dimension,
            r.num_majors() == 0,
    {
        VecCsv { major_dimension: major_dimension, min_ind: Vec::new(), snz_val: Vec::new() }
    }
}

impl<MinKey, SnzVal> WhichMajor for VecCsv<MinKey, SnzVal> {
    closed spec fn major_dimension_of(&self) -> MajorDimension {
        self.major_dimension
    }

    fn major_dimension(&self) -> (r: MajorDimension) {
        self.major_dimension
    }
}

} // verus!
