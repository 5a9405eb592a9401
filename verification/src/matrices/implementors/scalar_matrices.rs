//! Scalar matrices: multiples of the identity.

use vstd::prelude::*;
use std::marker::PhantomData;
use crate::matrices::matrix_oracle::{
    MajorDimension, OracleMajor, OracleMajorAscend, OracleMajorDescend, OracleMinor,
    OracleMinorAscend, OracleMinorDescend, WhichMajor,
};
use crate::utilities::iterators::utility::OnceStream;

verus! {

//  ---------------------------------------------------------------------------
//  SCALAR MATRICES (INDEXED ONLY BY INTEGERS; SEE BELOW FOR A GENERALIZATION)
//  ---------------------------------------------------------------------------
/// Represents a scalar matrix indexed by integers (see below for a more general struct).
///
/// Concretely, for any `index` (whether major or minor), each major/minor view
/// of the matrix returns a stream that yields the single entry
/// `(index, scalar)`, where `scalar` is the given scalar.
pub struct ScalarMatrixOracleUsize<Val> {
    scalar: Val,
    major_dimension: MajorDimension,
}

impl<Val> ScalarMatrixOracleUsize<Val> {
    /// The scalar on the diagonal.
    pub closed spec fn scalar_of(&self) -> Val {
        self.scalar
    }

    /// Create new scalar matrix.
    pub fn new(scalar: Val, major_dimension: MajorDimension) -> (r: Self)
        ensures
            r.scalar_of() == scalar,
            r.major_dimension_of() == major_dimension,
    {
        ScalarMatrixOracleUsize { scalar: scalar, major_dimension: major_dimension }
    }
}

//  WHICH MAJOR
//
impl<Val> WhichMajor for ScalarMatrixOracleUsize<Val> {
    closed spec fn major_dimension_of(&self) -> MajorDimension {
        self.major_dimension
    }

    fn major_dimension(&self) -> (r: MajorDimension) {
        self.major_dimension
    }
}

//  OracleMajor
//
impl<'a, Val> OracleMajor<'a, usize, usize, Val> for ScalarMatrixOracleUsize<Val> where Val: Copy {
    type PairMajor = (usize, Val);

    type ViewMajor = OnceStream<(usize, Val)>;

    /// Every index has a vector.
    open spec fn has_major(&self, index: usize) -> bool {
        true
    }

    /// The vector for `index` holds the scalar, at `index`.
    open spec fn major_entries(&self, index: usize) -> Seq<(usize, Val)> {
        seq![(index, self.scalar_of())]
    }

    fn view_major<'b: 'a>(&'b self, index: usize) -> (r: OnceStream<(usize, Val)>) {
        OnceStream::new((index, self.scalar))
    }
}

//  OracleMajorAscend
//
impl<'a, Val> OracleMajorAscend<'a, usize, usize, Val> for ScalarMatrixOracleUsize<Val> where Val: Copy {
    type PairMajorAscend = (usize, Val);

    type ViewMajorAscend = OnceStream<(usize, Val)>;

    /// Every index has a vector.
    open spec fn has_major_ascend(&self, index: usize) -> bool {
        true
    }

    /// The vector for `index` holds the scalar, at `index`.
    open spec fn major_ascend_entries(&self, index: usize) -> Seq<(usize, Val)> {
        seq![(index, self.scalar_of())]
    }

    fn view_major_ascend<'b: 'a>(&'b self, index: usize) -> (r: OnceStream<(usize, Val)>) {
        OnceStream::new((index, self.scalar))
    }
}

//  OracleMajorDescend
//
impl<'a, Val> OracleMajorDescend<'a, usize, usize, Val> for ScalarMatrixOracleUsize<Val> where Val: Copy {
    type PairMajorDescend = (usize, Val);

    type ViewMajorDescend = OnceStream<(usize, Val)>;

    /// Every index has a vector.
    open spec fn has_major_descend(&self, index: usize) -> bool {
        true
    }

    /// The vector for `index` holds the scalar, at `index`.
    open spec fn major_descend_entries(&self, index: usize) -> Seq<(usize, Val)> {
        seq![(index, self.scalar_of())]
    }

    fn view_major_descend<'b: 'a>(&'b self, index: usize) -> (r: OnceStream<(usize, Val)>) {
        OnceStream::new((index, self.scalar))
    }
}

//  OracleMinor
//
impl<'a, Val> OracleMinor<'a, usize, usize, Val> for ScalarMatrixOracleUsize<Val> where Val: Copy {
    type PairMinor = (usize, Val);

    type ViewMinor = OnceStream<(usize, Val)>;

    /// Every index has a vector.
    open spec fn has_minor(&self, index: usize) -> bool {
        true
    }

    /// The vector for `index` holds the scalar, at `index`.
    open spec fn minor_entries(&self, index: usize) -> Seq<(usize, Val)> {
        seq![(index, self.scalar_of())]
    }

    fn view_minor<'b: 'a>(&'b self, index: usize) -> (r: OnceStream<(usize, Val)>) {
        OnceStream::new((index, self.scalar))
    }
}

//  OracleMinorAscend
//
impl<'a, Val> OracleMinorAscend<'a, usize, usize, Val> for ScalarMatrixOracleUsize<Val> where Val: Copy {
    type PairMinorAscend = (usize, Val);

    type ViewMinorAscend = OnceStream<(usize, Val)>;

    /// Every index has a vector.
    open spec fn has_minor_ascend(&self, index: usize) -> bool {
        true
    }

    /// The vector for `index` holds the scalar, at `index`.
    open spec fn minor_ascend_entries(&self, index: usize) -> Seq<(usize, Val)> {
        seq![(index, self.scalar_of())]
    }

    fn view_minor_ascend<'b: 'a>(&'b self, index: usize) -> (r: OnceStream<(usize, Val)>) {
        OnceStream::new((index, self.scalar))
    }
}

//  OracleMinorDescend
//
impl<'a, Val> OracleMinorDescend<'a, usize, usize, Val> for ScalarMatrixOracleUsize<Val> where Val: Copy {
    type PairMinorDescend = (usize, Val);

    type ViewMinorDescend = OnceStream<(usize, Val)>;

    /// Every index has a vector.
    open spec fn has_minor_descend(&self, index: usize) -> bool {
        true
    }

    /// The vector for `index` holds the scalar, at `index`.
    open spec fn minor_descend_entries(&self, index: usize) -> Seq<(usize, Val)> {
        seq![(index, self.scalar_of())]
    }

    fn view_minor_descend<'b: 'a>(&'b self, index: usize) -> (r: OnceStream<(usize, Val)>) {
        OnceStream::new((index, self.scalar))
    }
}

//  ---------------------------------------------------------------------------
//  SCALAR MATRICES (INDICES CAN BE OF ANY TYPE)
//  ---------------------------------------------------------------------------
/// Represents a scalar matrix.
///
/// Concretely, for any `index` (whether major or minor), each major/minor view
/// of the matrix returns a stream that yields the single entry
/// `(index, scalar)`, where `scalar` is the given scalar.
pub struct ScalarMatrixOracle<Key, Val> {
    scalar: Val,
    major_dimension: MajorDimension,
    phantom: PhantomData<Key>,
}

impl<Key, Val> ScalarMatrixOracle<Key, Val> {
    /// The scalar on the diagonal.
    pub closed spec fn scalar_of(&self) -> Val {
        self.scalar
    }

    /// Create new scalar matrix.
    pub fn new(scalar: Val, major_dimension: MajorDimension) -> (r: Self)
        ensures
            r.scalar_of() == scalar,
            r.major_dimension_of() == major_dimension,
    {
        ScalarMatrixOracle {
            scalar: scalar,
            major_dimension: major_dimension,
            phantom: PhantomData,
        }
    }
}

//  WHICH MAJOR
//
impl<Key, Val> WhichMajor for ScalarMatrixOracle<Key, Val> {
    closed spec fn major_dimension_of(&self) -> MajorDimension {
        self.major_dimension
    }

    fn major_dimension(&self) -> (r: MajorDimension) {
        self.major_dimension
    }
}

//  OracleMajor
//
impl<'a, Key, Val> OracleMajor<'a, Key, Key, Val> for ScalarMatrixOracle<Key, Val> where Val: Copy, Key: Copy {
    type PairMajor = (Key, Val);

    type ViewMajor = OnceStream<(Key, Val)>;

    /// Every index has a vector.
    open spec fn has_major(&self, index: Key) -> bool {
        true
    }

    /// The vector for `index` holds the scalar, at `index`.
    open spec fn major_entries(&self, index: Key) -> Seq<(Key, Val)> {
        seq![(index, self.scalar_of())]
    }

    fn view_major<'b: 'a>(&'b self, index: Key) -> (r: OnceStream<(Key, Val)>) {
        OnceStream::new((index, self.scalar))
    }
}

//  OracleMajorAscend
//
impl<'a, Key, Val> OracleMajorAscend<'a, Key, Key, Val> for ScalarMatrixOracle<Key, Val> where Val: Copy, Key: Copy {
    type PairMajorAscend = (Key, Val);

    type ViewMajorAscend = OnceStream<(Key, Val)>;

    /// Every index has a vector.
    open spec fn has_major_ascend(&self, index: Key) -> bool {
        true
    }

    /// The vector for `index` holds the scalar, at `index`.
    open spec fn major_ascend_entries(&self, index: Key) -> Seq<(Key, Val)> {
        seq![(index, self.scalar_of())]
    }

    fn view_major_ascend<'b: 'a>(&'b self, index: Key) -> (r: OnceStream<(Key, Val)>) {
        OnceStream::new((index, self.scalar))
    }
}

//  OracleMajorDescend
//
impl<'a, Key, Val> OracleMajorDescend<'a, Key, Key, Val> for ScalarMatrixOracle<Key, Val> where Val: Copy, Key: Copy {
    type PairMajorDescend = (Key, Val);

    type ViewMajorDescend = OnceStream<(Key, Val)>;

    /// Every index has a vector.
    open spec fn has_major_descend(&self, index: Key) -> bool {
        true
    }

    /// The vector for `index` holds the scalar, at `index`.
    open spec fn major_descend_entries(&self, index: Key) -> Seq<(Key, Val)> {
        seq![(index, self.scalar_of())]
    }

    fn view_major_descend<'b: 'a>(&'b self, index: Key) -> (r: OnceStream<(Key, Val)>) {
        OnceStream::new((index, self.scalar))
    }
}

//  OracleMinor
//
impl<'a, Key, Val> OracleMinor<'a, Key, Key, Val> for ScalarMatrixOracle<Key, Val> where Val: Copy, Key: Copy {
    type PairMinor = (Key, Val);

    type ViewMinor = OnceStream<(Key, Val)>;

    /// Every index has a vector.
    open spec fn has_minor(&self, index: Key) -> bool {
        true
    }

    /// The vector for `index` holds the scalar, at `index`.
    open spec fn minor_entries(&self, index: Key) -> Seq<(Key, Val)> {
        seq![(index, self.scalar_of())]
    }

    fn view_minor<'b: 'a>(&'b self, index: Key) -> (r: OnceStream<(Key, Val)>) {
        OnceStream::new((index, self.scalar))
    }
}

//  OracleMinorAscend
//
impl<'a, Key, Val> OracleMinorAscend<'a, Key, Key, Val> for ScalarMatrixOracle<Key, Val> where Val: Copy, Key: Copy {
    type PairMinorAscend = (Key, Val);

    type ViewMinorAscend = OnceStream<(Key, Val)>;

    /// Every index has a vector.
    open spec fn has_minor_ascend(&self, index: Key) -> bool {
        true
    }

    /// The vector for `index` holds the scalar, at `index`.
    open spec fn minor_ascend_entries(&self, index: Key) -> Seq<(Key, Val)> {
        seq![(index, self.scalar_of())]
    }

    fn view_minor_ascend<'b: 'a>(&'b self, index: Key) -> (r: OnceStream<(Key, Val)>) {
        OnceStream::new((index, self.scalar))
    }
}

//  OracleMinorDescend
//
impl<'a, Key, Val> OracleMinorDescend<'a, Key, Key, Val> for ScalarMatrixOracle<Key, Val> where Val: Copy, Key: Copy {
    type PairMinorDescend = (Key, Val);

    type ViewMinorDescend = OnceStream<(Key, Val)>;

    /// Every index has a vector.
    open spec fn has_minor_descend(&self, index: Key) -> bool {
        true
    }

    /// The vector for `index` holds the scalar, at `index`.
    open spec fn minor_descend_entries(&self, index: Key) -> Seq<(Key, Val)> {
        seq![(index, self.scalar_of())]
    }

    fn view_minor_descend<'b: 'a>(&'b self, index: Key) -> (r: OnceStream<(Key, Val)>) {
        OnceStream::new((index, self.scalar))
    }
}

} // verus!
