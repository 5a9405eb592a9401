//! Matrix oracle traits.
//!
//! A matrix oracle is an object that can be asked for the rows or the columns
//! of a matrix.  In many sparse matrices it is easier to look up rows than
//! columns, or vice versa; the easy dimension is the *major dimension*, and a
//! row or column of that kind is a *major vector*.
//!
//! A vector is handed out as a stream of entries.  Asking twice for the
//! same vector yields the same entries in the same order.
//!
//! **Note** Most functions that take matrix oracles as inputs do not require
//! their inputs to implement *all* of the oracle traits -- only a *subset*.

use vstd::prelude::*;
use crate::utilities::iterators::utility::Stream;
use crate::vector_entries::vector_entries::KeyValGet;

verus! {

/// An enum with two values: `Row` and `Col`.
#[derive(Clone, Copy, Debug, PartialEq, Eq, Structural)]
pub enum MajorDimension {
    Row,
    Col,
}

//  ---------------------------------------------------------------------------
//  MAJOR DIMENSION
//  ---------------------------------------------------------------------------
/// Tells which dimension of a matrix is the major one.
pub trait WhichMajor {
    /// The major dimension of the matrix.
    spec fn major_dimension_of(&self) -> MajorDimension;

    /// Return the major dimension of the matrix.
    fn major_dimension(&self) -> (r: MajorDimension)
        ensures
            r == self.major_dimension_of(),
    ;
}

//  ---------------------------------------------------------------------------
//  ORACLE MAJOR
//  ---------------------------------------------------------------------------
/// Entries may not appear in sorted order.
pub trait OracleMajor<'a, MajKey, MinKey, SnzVal> {
    type PairMajor: KeyValGet<Key = MinKey, Val = SnzVal>;

    type ViewMajor: Stream<Item = Self::PairMajor>;

    /// The matrix has a major vector for `index`.
    spec fn has_major(&self, index: MajKey) -> bool;

    /// The entries of the major vector for `index`, in the order in which
    /// `view_major` hands them out.
    spec fn major_entries(&self, index: MajKey) -> Seq<Self::PairMajor>;

    /// Get a major vector.
    ///
    /// The order in which terms appear is the same every time the function is
    /// called; however, the order need not be sorted.
    fn view_major<'b: 'a>(&'b self, index: MajKey) -> (r: Self::ViewMajor)
        requires
            self.has_major(index),
        ensures
            r.valid(),
            r.remaining() == self.major_entries(index),
    ;
}

/// Entries appear in ascending order, according to index.
pub trait OracleMajorAscend<'a, MajKey, MinKey, SnzVal> {
    type PairMajorAscend: KeyValGet<Key = MinKey, Val = SnzVal>;

    type ViewMajorAscend: Stream<Item = Self::PairMajorAscend>;

    /// The matrix has a major vector for `index`.
    spec fn has_major_ascend(&self, index: MajKey) -> bool;

    /// The entries of the major vector for `index`, in the order in which
    /// `view_major_ascend` hands them out.
    spec fn major_ascend_entries(&self, index: MajKey) -> Seq<Self::PairMajorAscend>;

    /// Get a major vector with entries sorted in ascending order of index.
    fn view_major_ascend<'b: 'a>(&'b self, index: MajKey) -> (r: Self::ViewMajorAscend)
        requires
            self.has_major_ascend(index),
        ensures
            r.valid(),
            r.remaining() == self.major_ascend_entries(index),
    ;
}

/// Entries appear in descending order, according to index.
pub trait OracleMajorDescend<'a, MajKey, MinKey, SnzVal> {
    type PairMajorDescend: KeyValGet<Key = MinKey, Val = SnzVal>;

    type ViewMajorDescend: Stream<Item = Self::PairMajorDescend>;

    /// The matrix has a major vector for `index`.
    spec fn has_major_descend(&self, index: MajKey) -> bool;

    /// The entries of the major vector for `index`, in the order in which
    /// `view_major_descend` hands them out.
    spec fn major_descend_entries(&self, index: MajKey) -> Seq<Self::PairMajorDescend>;

    /// Get a major vector with entries sorted in descending order of index.
    fn view_major_descend<'b: 'a>(&'b self, index: MajKey) -> (r: Self::ViewMajorDescend)
        requires
            self.has_major_descend(index),
        ensures
            r.valid(),
            r.remaining() == self.major_descend_entries(index),
    ;
}

//  ---------------------------------------------------------------------------
//  ORACLE MINOR
//  ---------------------------------------------------------------------------
/// Entries may not appear in sorted order.
pub trait OracleMinor<'a, MajKey, MinKey, SnzVal> {
    type PairMinor: KeyValGet<Key = MinKey, Val = SnzVal>;

    type ViewMinor: Stream<Item = Self::PairMinor>;

    /// The matrix has a minor vector for `index`.
    spec fn has_minor(&self, index: MajKey) -> bool;

    /// The entries of the minor vector for `index`, in the order in which
    /// `view_minor` hands them out.
    spec fn minor_entries(&self, index: MajKey) -> Seq<Self::PairMinor>;

    /// Get a minor vector.
    ///
    /// The order in which terms appear is the same every time the function is
    /// called; however, the order need not be sorted.
    fn view_minor<'b: 'a>(&'b self, index: MajKey) -> (r: Self::ViewMinor)
        requires
            self.has_minor(index),
        ensures
            r.valid(),
            r.remaining() == self.minor_entries(index),
    ;
}

/// Entries appear in ascending order, according to index.
pub trait OracleMinorAscend<'a, MajKey, MinKey, SnzVal> {
    type PairMinorAscend: KeyValGet<Key = MinKey, Val = SnzVal>;

    type ViewMinorAscend: Stream<Item = Self::PairMinorAscend>;

    /// The matrix has a minor vector for `index`.
    spec fn has_minor_ascend(&self, index: MajKey) -> bool;

    /// The entries of the minor vector for `index`, in the order in which
    /// `view_minor_ascend` hands them out.
    spec fn minor_ascend_entries(&self, index: MajKey) -> Seq<Self::PairMinorAscend>;

    /// Get a minor vector with entries sorted in ascending order of index.
    fn view_minor_ascend<'b: 'a>(&'b self, index: MajKey) -> (r: Self::ViewMinorAscend)
        requires
            self.has_minor_ascend(index),
        ensures
            r.valid(),
            r.remaining() == self.minor_ascend_entries(index),
    ;
}

/// Entries appear in descending order, according to index.
pub trait OracleMinorDescend<'a, MajKey, MinKey, SnzVal> {
    type PairMinorDescend: KeyValGet<Key = MinKey, Val = SnzVal>;

    type ViewMinorDescend: Stream<Item = Self::PairMinorDescend>;

    /// The matrix has a minor vector for `index`.
    spec fn has_minor_descend(&self, index: MajKey) -> bool;

    /// The entries of the minor vector for `index`, in the order in which
    /// `view_minor_descend` hands them out.
    spec fn minor_descend_entries(&self, index: MajKey) -> Seq<Self::PairMinorDescend>;

    /// Get a minor vector with entries sorted in descending order of index.
    fn view_minor_descend<'b: 'a>(&'b self, index: MajKey) -> (r: Self::ViewMinorDescend)
        requires
            self.has_minor_descend(index),
        ensures
            r.valid(),
            r.remaining() == self.minor_descend_entries(index),
    ;
}

//  ---------------------------------------------------------------------------
//  REFERENCES TO ORACLES
//  ---------------------------------------------------------------------------
//  A reference to an oracle is an oracle.
impl<'r, M: WhichMajor> WhichMajor for &'r M {
    open spec fn major_dimension_of(&self) -> MajorDimension {
        (**self).major_dimension_of()
    }

    fn major_dimension(&self) -> (r: MajorDimension) {
        (**self).major_dimension()
    }
}

impl<'a, 'r, M, MajKey, MinKey, SnzVal> OracleMajor<'a, MajKey, MinKey, SnzVal> for &'r M where
    M: OracleMajor<'a, MajKey, MinKey, SnzVal>,
 {
    type PairMajor = M::PairMajor;

    type ViewMajor = M::ViewMajor;

    open spec fn has_major(&self, index: MajKey) -> bool {
        (**self).has_major(index)
    }

    open spec fn major_entries(&self, index: MajKey) -> Seq<M::PairMajor> {
        (**self).major_entries(index)
    }

    fn view_major<'b: 'a>(&'b self, index: MajKey) -> (r: M::ViewMajor) {
        (**self).view_major(index)
    }
}

impl<'a, 'r, M, MajKey, MinKey, SnzVal> OracleMajorAscend<'a, MajKey, MinKey, SnzVal> for &'r M where
    M: OracleMajorAscend<'a, MajKey, MinKey, SnzVal>,
 {
    type PairMajorAscend = M::PairMajorAscend;

    type ViewMajorAscend = M::ViewMajorAscend;

    open spec fn has_major_ascend(&self, index: MajKey) -> bool {
        (**self).has_major_ascend(index)
    }

    open spec fn major_ascend_entries(&self, index: MajKey) -> Seq<M::PairMajorAscend> {
        (**self).major_ascend_entries(index)
    }

    fn view_major_ascend<'b: 'a>(&'b self, index: MajKey) -> (r: M::ViewMajorAscend) {
        (**self).view_major_ascend(index)
    }
}

impl<'a, 'r, M, MajKey, MinKey, SnzVal> OracleMajorDescend<'a, MajKey, MinKey, SnzVal> for &'r M where
    M: OracleMajorDescend<'a, MajKey, MinKey, SnzVal>,
 {
    type PairMajorDescend = M::PairMajorDescend;

    type ViewMajorDescend = M::ViewMajorDescend;

    open spec fn has_major_descend(&self, index: MajKey) -> bool {
        (**self).has_major_descend(index)
    }

    open spec fn major_descend_entries(&self, index: MajKey) -> Seq<M::PairMajorDescend> {
        (**self).major_descend_entries(index)
    }

    fn view_major_descend<'b: 'a>(&'b self, index: MajKey) -> (r: M::ViewMajorDescend) {
        (**self).view_major_descend(index)
    }
}

impl<'a, 'r, M, MajKey, MinKey, SnzVal> OracleMinor<'a, MajKey, MinKey, SnzVal> for &'r M where
    M: OracleMinor<'a, MajKey, MinKey, SnzVal>,
 {
    type PairMinor = M::PairMinor;

    type ViewMinor = M::ViewMinor;

    open spec fn has_minor(&self, index: MajKey) -> bool {
        (**self).has_minor(index)
    }

    open spec fn minor_entries(&self, index: MajKey) -> Seq<M::PairMinor> {
        (**self).minor_entries(index)
    }

    fn view_minor<'b: 'a>(&'b self, index: MajKey) -> (r: M::ViewMinor) {
        (**self).view_minor(index)
    }
}

impl<'a, 'r, M, MajKey, MinKey, SnzVal> OracleMinorAscend<'a, MajKey, MinKey, SnzVal> for &'r M where
    M: OracleMinorAscend<'a, MajKey, MinKey, SnzVal>,
 {
    type PairMinorAscend = M::PairMinorAscend;

    type ViewMinorAscend = M::ViewMinorAscend;

    open spec fn has_minor_ascend(&self, index: MajKey) -> bool {
        (**self).has_minor_ascend(index)
    }

    open spec fn minor_ascend_entries(&self, index: MajKey) -> Seq<M::PairMinorAscend> {
        (**self).minor_ascend_entries(index)
    }

    fn view_minor_ascend<'b: 'a>(&'b self, index: MajKey) -> (r: M::ViewMinorAscend) {
        (**self).view_minor_ascend(index)
    }
}

impl<'a, 'r, M, MajKey, MinKey, SnzVal> OracleMinorDescend<'a, MajKey, MinKey, SnzVal> for &'r M where
    M: OracleMinorDescend<'a, MajKey, MinKey, SnzVal>,
 {
    type PairMinorDescend = M::PairMinorDescend;

    type ViewMinorDescend = M::ViewMinorDescend;

    open spec fn has_minor_descend(&self, index: MajKey) -> bool {
        (**self).has_minor_descend(index)
    }

    open spec fn minor_descend_entries(&self, index: MajKey) -> Seq<M::PairMinorDescend> {
        (**self).minor_descend_entries(index)
    }

    fn view_minor_descend<'b: 'a>(&'b self, index: MajKey) -> (r: M::ViewMinorDescend) {
        (**self).view_minor_descend(index)
    }
}

} // verus!
