//! Matrices stored as a vector of sparse vectors.

use vstd::prelude::*;
use std::marker::PhantomData;
use crate::matrices::matrix_oracle::{
    MajorDimension, OracleMajor, OracleMajorAscend, OracleMajorDescend, WhichMajor,
};
use crate::utilities::iterators::utility::{RevSliceStream, SliceStream};
use crate::vector_entries::vector_entries::KeyValGet;

verus! {

/// A vector of vectors, representing a sparse matrix.
///
/// Each of the internal vectors should have entries sorted in ascending order of index.
pub struct VecOfVec<'a, IndexCoeffPair> where IndexCoeffPair: KeyValGet {
    pub major_dimension: MajorDimension,
    pub vec_of_vec: Vec<Vec<IndexCoeffPair>>,
    pub phantom: PhantomData<&'a IndexCoeffPair>,
}

impl<'a, IndexCoeffPair> VecOfVec<'a, IndexCoeffPair> where IndexCoeffPair: KeyValGet {
    /// Make a new `VecOfVec` from its major vectors.
    pub fn new(major_dimension: MajorDimension, vecvec: Vec<Vec<IndexCoeffPair>>) -> (r: Self)
        ensures
            r.major_dimension == major_dimension,
            r.vec_of_vec == vecvec,
    {
        VecOfVec { major_dimension: major_dimension, vec_of_vec: vecvec, phantom: PhantomData }
    }
}

impl<'a, IndexCoeffPair> WhichMajor for VecOfVec<'a, IndexCoeffPair> where
    IndexCoeffPair: KeyValGet,
 {
    open spec fn major_dimension_of(&self) -> MajorDimension {
        self.major_dimension
    }

    fn major_dimension(&self) -> (r: MajorDimension) {
        self.major_dimension
    }
}

impl<'a, IndexCoeffPair> OracleMajor<
    'a,
    usize,
    <IndexCoeffPair as KeyValGet>::Key,
    <IndexCoeffPair as KeyValGet>::Val,
> for VecOfVec<'a, IndexCoeffPair> where IndexCoeffPair: KeyValGet + Copy + 'a {
    type PairMajor = IndexCoeffPair;

    type ViewMajor = SliceStream<'a, IndexCoeffPair>;

    /// The matrix has as many major vectors as were stored.
    open spec fn has_major(&self, index: usize) -> bool {
        index < self.vec_of_vec@.len()
    }

    /// The entries of a major vector, as they were stored.
    open spec fn major_entries(&self, index: usize) -> Seq<IndexCoeffPair> {
        self.vec_of_vec@[index as int]@
    }

    fn view_major<'b: 'a>(&'b self, index: usize) -> (r: SliceStream<'a, IndexCoeffPair>) {
        SliceStream::new(&self.vec_of_vec[index])
    }
}

impl<'a, IndexCoeffPair> OracleMajorAscend<
    'a,
    usize,
    <IndexCoeffPair as KeyValGet>::Key,
    <IndexCoeffPair as KeyValGet>::Val,
> for VecOfVec<'a, IndexCoeffPair> where IndexCoeffPair: KeyValGet + Copy + 'a {
    type PairMajorAscend = IndexCoeffPair;

    type ViewMajorAscend = SliceStream<'a, IndexCoeffPair>;

    /// The matrix has as many major vectors as were stored.
    open spec fn has_major_ascend(&self, index: usize) -> bool {
        index < self.vec_of_vec@.len()
    }

    /// The entries of a major vector, as they were stored; this is
    /// ascending order if they were stored in ascending order.
    open spec fn major_ascend_entries(&self, index: usize) -> Seq<IndexCoeffPair> {
        self.vec_of_vec@[index as int]@
    }

    /// Assumes that entries in each vector are sorted in ascending order.
    fn view_major_ascend<'b: 'a>(&'b self, index: usize) -> (r: SliceStream<'a, IndexCoeffPair>) {
        return self.view_major(index)
    }
}

impl<'a, IndexCoeffPair> OracleMajorDescend<
    'a,
    usize,
    <IndexCoeffPair as KeyValGet>::Key,
    <IndexCoeffPair as KeyValGet>::Val,
> for VecOfVec<'a, IndexCoeffPair> where IndexCoeffPair: KeyValGet + Copy + 'a {
    type PairMajorDescend = IndexCoeffPair;

    type ViewMajorDescend = RevSliceStream<'a, IndexCoeffPair>;

    /// The matrix has as many major vectors as were stored.
    open spec fn has_major_descend(&self, index: usize) -> bool {
        index < self.vec_of_vec@.len()
    }

    /// The entries of a major vector in the reverse of the order in which
    /// they were stored; this is descending order if they were stored in
    /// ascending order.
    open spec fn major_descend_entries(&self, index: usize) -> Seq<IndexCoeffPair> {
        self.vec_of_vec@[index as int]@.reverse()
    }

    /// Assumes that entries in each vector are sorted in ascending order.
    fn view_major_descend<'b: 'a>(&'b self, index: usize) -> (r: RevSliceStream<
        'a,
        IndexCoeffPair,
    >) {
        RevSliceStream::new(&self.vec_of_vec[index])
    }
}

} // verus!
