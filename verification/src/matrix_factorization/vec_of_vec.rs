//! Column reduction of matrices stored as vectors of sparse columns.
//!
//! A column is a vector of `(key, coefficient)` entries.  The reduction
//! expects its columns in *canonical form*: keys strictly ascending, no
//! coefficient zero.

use vstd::prelude::*;
use vstd::multiset::Multiset;
use std::collections::HashMap;
use itertools::Itertools;
use crate::rings::ring::{quotient_cancels, DivisionRing};
use crate::utilities::iterators::utility::{
    collect, extend, Peekable, SliceStream, Stream, VecStream,
};
use crate::vectors::vector_transforms::{
    absorb_second, gathered, lemma_gathered_pair, lemma_without_zeros_push,
    lemma_without_zeros_step, scaled, without_zeros, Transforms,
};

verus! {

//  ---------------------------------------------------------------------------
//  SUMS OF SPARSE VECTORS
//  ---------------------------------------------------------------------------
/// The merge of `a` and `b` by key: again and again the first entry of `a`
/// if its key is not greater than that of the first entry of `b`, else the
/// first entry of `b`.
pub open spec fn merged_by_key<Val>(a: Seq<(usize, Val)>, b: Seq<(usize, Val)>) -> Seq<(usize, Val)>
    decreases a.len() + b.len(),
{
    if a.len() == 0 {
        b
    } else if b.len() == 0 {
        a
    } else if a[0].0 <= b[0].0 {
        seq![a[0]] + merged_by_key(a.skip(1), b)
    } else {
        seq![b[0]] + merged_by_key(a, b.skip(1))
    }
}

/// The vector `a + scalar * b` as the reduction computes it: `b` is scaled,
/// the two are merged by key, entries with equal keys are gathered, and
/// zeros are dropped.
pub open spec fn with_multiple_added<Val: Copy, R: DivisionRing<Val>>(
    ring: R,
    a: Seq<(usize, Val)>,
    b: Seq<(usize, Val)>,
    scalar: Val,
) -> Seq<(usize, Val)> {
    without_zeros(ring, gathered(ring, merged_by_key(a, scaled(ring, b, scalar))))
}

/// Whether the key of `a` is not greater than the key of `b`.
fn key_not_after<Val>(a: &(usize, Val), b: &(usize, Val)) -> (r: bool)
    ensures
        r == (a.0 <= b.0),
{
    a.0 <= b.0
}

/// Merge two vectors of entries by key, with `itertools::Itertools::merge_by`:
/// while both have an entry left, the next entry is that of `a` if
/// `key_not_after` says so of the two, else that of `b`; when one is
/// exhausted, the rest of the other follows.
#[verifier::external_body]
fn merge_by_key<Val: Copy>(a: &Vec<(usize, Val)>, b: &Vec<(usize, Val)>) -> (r: Vec<(usize, Val)>)
    ensures
        r@ == merged_by_key(a@, b@),
{
    a.iter().copied().merge_by(b.iter().copied(), |x, y| key_not_after(x, y)).collect()
}

/// Replace `clearee` by `clearee + scalar * clearor`, using `buffer` as
/// working space; `buffer` is left empty.
fn add_multiple<Val, RingOperator>(
    clearee: &mut Vec<(usize, Val)>,
    clearor: &Vec<(usize, Val)>,
    scalar: Val,
    buffer: &mut Vec<(usize, Val)>,
    ring: RingOperator,
) where Val: Copy, RingOperator: DivisionRing<Val> + Copy
    ensures
        final(clearee)@ == with_multiple_added(ring, old(clearee)@, clearor@, scalar),
        final(buffer)@ == Seq::<(usize, Val)>::empty(),
{
    broadcast use vstd::laws_eq::group_laws_eq;

    let mut scaled_clearor: Vec<(usize, Val)> = Vec::new();
    extend(&mut scaled_clearor, SliceStream::new(clearor).scale(ring, scalar));
    assert(scaled_clearor@ =~= scaled(ring, clearor@, scalar));
    let merged = merge_by_key(clearee, &scaled_clearor);  // merge, preserving order of keys
    let summed = Peekable::new(VecStream::new(merged))  // make peekable (necessary to gather coefficients)
    .gather(ring)  // gather coefficients
    .drop_zeros(ring);  // drop zeros
    buffer.clear();
    extend(buffer, summed);
    assert(buffer@ =~= with_multiple_added(ring, clearee@, clearor@, scalar));
    clearee.clear();
    clearee.append(buffer);
    assert(clearee@ =~= with_multiple_added(ring, old(clearee)@, clearor@, scalar));
}

//  ---------------------------------------------------------------------------
//  CLEAR A VECTOR
//  ---------------------------------------------------------------------------
/// The first entry of `s` whose key is `key`, if there is one.
pub open spec fn entry_with_key<Val>(s: Seq<(usize, Val)>, key: usize) -> Option<(usize, Val)>
    decreases s.len(),
{
    if s.len() == 0 {
        None
    } else if s[0].0 == key {
        Some(s[0])
    } else {
        entry_with_key(s.skip(1), key)
    }
}

/// The entry of `clearee` that a clearing with `pivot_entry` has to clear:
/// the first entry with the pivot's key, provided its coefficient is not
/// zero.
pub open spec fn entry_to_clear<Val: Copy, R: DivisionRing<Val>>(
    ring: R,
    clearee: Seq<(usize, Val)>,
    pivot_entry: (usize, Val),
) -> Option<(usize, Val)> {
    match entry_with_key(clearee, pivot_entry.0) {
        Some(e) => if ring.is_zero(e.1) {
            None
        } else {
            Some(e)
        },
        None => None,
    }
}

/// `clearee` after a clearing with `clearor` and `pivot_entry`: unchanged if
/// there is no entry to clear, else `clearee + scalar * clearor` where
/// `scalar` is minus the entry's coefficient divided by the pivot's.
pub open spec fn cleared_if_in<Val: Copy, R: DivisionRing<Val>>(
    ring: R,
    clearor: Seq<(usize, Val)>,
    clearee: Seq<(usize, Val)>,
    pivot_entry: (usize, Val),
) -> Seq<(usize, Val)> {
    match entry_to_clear(ring, clearee, pivot_entry) {
        Some(e) => with_multiple_added(
            ring,
            clearee,
            clearor,
            ring.quotient(ring.negation(e.1), pivot_entry.1),
        ),
        None => clearee,
    }
}

/// A clearing of `clearee` with `pivot_entry` divides by no zero: if there
/// is an entry to clear, the pivot's coefficient is not zero.
pub open spec fn can_clear<Val: Copy, R: DivisionRing<Val>>(
    ring: R,
    clearee: Seq<(usize, Val)>,
    pivot_entry: (usize, Val),
) -> bool {
    entry_to_clear(ring, clearee, pivot_entry) is Some ==> !ring.is_zero(pivot_entry.1)
}

/// The first entry of `v` whose key is `key`, if there is one.
fn find_entry<Val: Copy>(v: &Vec<(usize, Val)>, key: usize) -> (r: Option<(usize, Val)>)
    ensures
        r == entry_with_key(v@, key),
{
    let mut i: usize = 0;
    assert(v@.skip(0) =~= v@);
    while i < v.len()
        invariant
            i <= v@.len(),
            entry_with_key(v@, key) == entry_with_key(v@.skip(i as int), key),
        decreases v@.len() - i,
    {
        if v[i].0 == key {
            return Some(v[i]);
        }
        assert(v@.skip(i as int).skip(1) =~= v@.skip(i + 1));
        i += 1;
    }
    None
}

/// Clear an entry of the `clearee` sparse vector by adding a scalar multiple of the `clearor`.
///
/// # Important notes
///
/// - Does nothing if the entry to be cleared in clearee is either a structural zero or
///   structurally nonzero but equal to 0.
/// - If a nonzero multiple of `clearor` is required, then zero entries will be dropped.
/// - Assumes that `pivot_entry` is an entry of the clearor vector.
/// - May not be called with a `pivot_entry` that is zero while the corresponding entry
///   of `clearee` is nonzero.
pub fn clear_if_in<Val, RingOperator>(
    clearor: &Vec<(usize, Val)>,
    clearee: &mut Vec<(usize, Val)>,
    buffer: &mut Vec<(usize, Val)>,
    pivot_entry: &(usize, Val),
    ring: RingOperator,
) where Val: Copy, RingOperator: DivisionRing<Val> + Copy
    requires
        can_clear(ring, old(clearee)@, *pivot_entry),
    ensures
        final(clearee)@ == cleared_if_in(ring, clearor@, old(clearee)@, *pivot_entry),
        entry_with_key(old(clearee)@, pivot_entry.0) is None ==> final(clearee)@ == old(clearee)@,
        entry_to_clear(ring, old(clearee)@, *pivot_entry) is None ==> final(buffer)@ == old(
            buffer,
        )@,
        entry_to_clear(ring, old(clearee)@, *pivot_entry) is Some ==> final(buffer)@ == Seq::<
            (usize, Val),
        >::empty(),
{
    let entry_to_clear_opt = find_entry(clearee, pivot_entry.0);
    if let Some(entry_to_clear) = entry_to_clear_opt {
        if ring.is_0(entry_to_clear.1) {
            return ;
        }  // short circuit if the entry to be cleared is zero

        let scalar = ring.divide(ring.negate(entry_to_clear.1), pivot_entry.1);
        add_multiple(clearee, clearor, scalar, buffer, ring);
    }
}

/// The columns of a matrix, each as a sequence of entries.
pub open spec fn columns<Val>(matrix: Seq<Vec<(usize, Val)>>) -> Seq<Seq<(usize, Val)>> {
    matrix.map_values(|column: Vec<(usize, Val)>| column@)
}

/// The matrix after the columns listed in `indices` have been cleared, one
/// after the other, with `clearor` and `pivot_entry`.
pub open spec fn cleared_cols<Val: Copy, R: DivisionRing<Val>>(
    ring: R,
    clearor: Seq<(usize, Val)>,
    matrix: Seq<Seq<(usize, Val)>>,
    indices: Seq<usize>,
    pivot_entry: (usize, Val),
) -> Seq<Seq<(usize, Val)>>
    decreases indices.len(),
{
    if indices.len() == 0 {
        matrix
    } else {
        let c = indices[0] as int;
        cleared_cols(
            ring,
            clearor,
            matrix.update(c, cleared_if_in(ring, clearor, matrix[c], pivot_entry)),
            indices.skip(1),
            pivot_entry,
        )
    }
}

/// Every index in `indices` names a column of the matrix, and none of the
/// clearings divides by zero.
pub open spec fn can_clear_cols<Val: Copy, R: DivisionRing<Val>>(
    ring: R,
    clearor: Seq<(usize, Val)>,
    matrix: Seq<Seq<(usize, Val)>>,
    indices: Seq<usize>,
    pivot_entry: (usize, Val),
) -> bool
    decreases indices.len(),
{
    if indices.len() == 0 {
        true
    } else {
        let c = indices[0] as int;
        &&& c < matrix.len()
        &&& can_clear(ring, matrix[c], pivot_entry)
        &&& can_clear_cols(
            ring,
            clearor,
            matrix.update(c, cleared_if_in(ring, clearor, matrix[c], pivot_entry)),
            indices.skip(1),
            pivot_entry,
        )
    }
}

/// Reduce the specified columns of the `clearee_matrix` using the `clearor` column.
///
/// This is achieved by applying the function [`clear_if_in`] to each of the columns
/// specified.  See the documentation for that function for important notes about
/// how the clearing is performed.
pub fn clear_cols<RingOperator, Val>(
    clearor: &Vec<(usize, Val)>,
    clearee_matrix: &mut Vec<Vec<(usize, Val)>>,
    col_ind_2clear: Vec<usize>,
    pivot_entry: &(usize, Val),
    ring: RingOperator,
) where Val: Copy, RingOperator: DivisionRing<Val> + Copy
    requires
        can_clear_cols(
            ring,
            clearor@,
            columns(old(clearee_matrix)@),
            col_ind_2clear@,
            *pivot_entry,
        ),
    ensures
        columns(final(clearee_matrix)@) == cleared_cols(
            ring,
            clearor@,
            columns(old(clearee_matrix)@),
            col_ind_2clear@,
            *pivot_entry,
        ),
{
    let mut buffer: Vec<(usize, Val)> = Vec::new();
    let mut i: usize = 0;
    let ghost start = columns(clearee_matrix@);
    assert(col_ind_2clear@.skip(0) =~= col_ind_2clear@);
    while i < col_ind_2clear.len()
        invariant
            i <= col_ind_2clear@.len(),
            can_clear_cols(
                ring,
                clearor@,
                columns(clearee_matrix@),
                col_ind_2clear@.skip(i as int),
                *pivot_entry,
            ),
            cleared_cols(ring, clearor@, start, col_ind_2clear@, *pivot_entry) == cleared_cols(
                ring,
                clearor@,
                columns(clearee_matrix@),
                col_ind_2clear@.skip(i as int),
                *pivot_entry,
            ),
        decreases col_ind_2clear@.len() - i,
    {
        let col_ind = col_ind_2clear[i];
        let ghost before = columns(clearee_matrix@);
        assert(col_ind_2clear@.skip(i as int)[0] == col_ind);
        assert(before[col_ind as int] == clearee_matrix@[col_ind as int]@);
        clear_if_in(clearor, &mut clearee_matrix[col_ind], &mut buffer, pivot_entry, ring);
        proof {
            assert(columns(clearee_matrix@) =~= before.update(
                col_ind as int,
                cleared_if_in(ring, clearor@, before[col_ind as int], *pivot_entry),
            ));
            assert(col_ind_2clear@.skip(i as int).skip(1) =~= col_ind_2clear@.skip(i + 1));
        }
        i += 1;
    }
}

//  ---------------------------------------------------------------------------
//  CANONICAL FORM
//  ---------------------------------------------------------------------------
/// The keys of `s` are strictly ascending.
pub open spec fn keys_ascending<Val>(s: Seq<(usize, Val)>) -> bool {
    forall|i: int, j: int| 0 <= i < j < s.len() ==> s[i].0 < s[j].0
}

/// The keys of `s` never descend.
pub open spec fn keys_sorted<Val>(s: Seq<(usize, Val)>) -> bool {
    forall|i: int, j: int| 0 <= i < j < s.len() ==> s[i].0 <= s[j].0
}

/// Every key of `s` is at least `lo` and less than `hi`.
pub open spec fn keys_within<Val>(s: Seq<(usize, Val)>, lo: int, hi: int) -> bool {
    forall|i: int| 0 <= i < s.len() ==> lo <= (#[trigger] s[i]).0 < hi
}

/// No coefficient of `s` is zero.
pub open spec fn no_zeros<Val: Copy, R: DivisionRing<Val>>(ring: R, s: Seq<(usize, Val)>) -> bool {
    forall|i: int| 0 <= i < s.len() ==> !ring.is_zero((#[trigger] s[i]).1)
}

/// `s` is a sparse vector in canonical form: its keys are strictly
/// ascending and none of its coefficients is zero.
pub open spec fn is_canonical<Val: Copy, R: DivisionRing<Val>>(
    ring: R,
    s: Seq<(usize, Val)>,
) -> bool {
    keys_ascending(s) && no_zeros(ring, s)
}

/// A merge by key holds the entries of both inputs.
pub proof fn lemma_merged_by_key_within<Val>(
    a: Seq<(usize, Val)>,
    b: Seq<(usize, Val)>,
    lo: int,
    hi: int,
)
    requires
        keys_within(a, lo, hi),
        keys_within(b, lo, hi),
    ensures
        keys_within(merged_by_key(a, b), lo, hi),
        merged_by_key(a, b).len() == a.len() + b.len(),
    decreases a.len() + b.len(),
{
    if a.len() == 0 || b.len() == 0 {
    } else if a[0].0 <= b[0].0 {
        assert(keys_within(a.skip(1), lo, hi)) by {
            assert forall|i: int| 0 <= i < a.skip(1).len() implies lo <= (#[trigger] a.skip(
                1,
            )[i]).0 < hi by {
                assert(a.skip(1)[i] == a[i + 1]);
            }
        }
        lemma_merged_by_key_within(a.skip(1), b, lo, hi);
    } else {
        assert(keys_within(b.skip(1), lo, hi)) by {
            assert forall|i: int| 0 <= i < b.skip(1).len() implies lo <= (#[trigger] b.skip(
                1,
            )[i]).0 < hi by {
                assert(b.skip(1)[i] == b[i + 1]);
            }
        }
        lemma_merged_by_key_within(a, b.skip(1), lo, hi);
    }
}

/// The merge by key of two vectors with sorted
/// keys has sorted keys and, as a multiset, is the union of the two.
pub proof fn merge_by_key_preserves_order<Val>(a: Seq<(usize, Val)>, b: Seq<(usize, Val)>)
    requires
        keys_sorted(a),
        keys_sorted(b),
    ensures
        keys_sorted(merged_by_key(a, b)),
        merged_by_key(a, b).to_multiset() == a.to_multiset().add(b.to_multiset()),
    decreases a.len() + b.len(),
{
    broadcast use vstd::seq_lib::group_to_multiset_ensures;
    broadcast use vstd::multiset::group_multiset_axioms;

    let m = merged_by_key(a, b);
    if a.len() == 0 {
        assert(m.to_multiset() =~= a.to_multiset().add(b.to_multiset()));
    } else if b.len() == 0 {
        assert(m.to_multiset() =~= a.to_multiset().add(b.to_multiset()));
    } else {
        let (first, a_rest, b_rest) = if a[0].0 <= b[0].0 {
            (a[0], a.skip(1), b)
        } else {
            (b[0], a, b.skip(1))
        };
        let rest = merged_by_key(a_rest, b_rest);
        let top = usize::MAX + 1;
        assert(keys_within(a_rest, first.0 as int, top) && keys_sorted(a_rest)) by {
            assert forall|i: int| 0 <= i < a_rest.len() implies first.0 <= (#[trigger] a_rest[i]).0
                < top by {
                if a[0].0 <= b[0].0 {
                    assert(a_rest[i] == a[i + 1]);
                } else {
                    assert(a[0].0 <= a[i].0 || i == 0);
                }
            }
            assert forall|i: int, j: int| 0 <= i < j < a_rest.len() implies a_rest[i].0
                <= a_rest[j].0 by {
                if a[0].0 <= b[0].0 {
                    assert(a_rest[i] == a[i + 1] && a_rest[j] == a[j + 1]);
                }
            }
        }
        assert(keys_within(b_rest, first.0 as int, top) && keys_sorted(b_rest)) by {
            assert forall|i: int| 0 <= i < b_rest.len() implies first.0 <= (#[trigger] b_rest[i]).0
                < top by {
                if a[0].0 <= b[0].0 {
                    assert(b[0].0 <= b[i].0 || i == 0);
                } else {
                    assert(b_rest[i] == b[i + 1]);
                }
            }
            assert forall|i: int, j: int| 0 <= i < j < b_rest.len() implies b_rest[i].0
                <= b_rest[j].0 by {
                if !(a[0].0 <= b[0].0) {
                    assert(b_rest[i] == b[i + 1] && b_rest[j] == b[j + 1]);
                }
            }
        }
        lemma_merged_by_key_within(a_rest, b_rest, first.0 as int, top);
        merge_by_key_preserves_order(a_rest, b_rest);
        assert(m == seq![first] + rest);
        assert forall|i: int, j: int| 0 <= i < j < m.len() implies m[i].0 <= m[j].0 by {
            if i == 0 {
                assert(m[j] == rest[j - 1]);
            } else {
                assert(m[i] == rest[i - 1] && m[j] == rest[j - 1]);
            }
        }
        vstd::seq_lib::lemma_multiset_commutative(seq![first], rest);
        assert(seq![first].to_multiset() =~= Multiset::singleton(first));
        if a[0].0 <= b[0].0 {
            assert(a =~= seq![first] + a_rest);
            vstd::seq_lib::lemma_multiset_commutative(seq![first], a_rest);
        } else {
            assert(b =~= seq![first] + b_rest);
            vstd::seq_lib::lemma_multiset_commutative(seq![first], b_rest);
        }
        assert(m.to_multiset() =~= a.to_multiset().add(b.to_multiset()));
    }
}

/// If `x` and `y` share a key that is greater than all the keys of `a` and
/// of `b`, the merge of `a` followed by `x` with `b` followed by `y` is the
/// merge of `a` and `b`, followed by `x` and `y`.
pub proof fn lemma_merged_by_key_last<Val>(
    a: Seq<(usize, Val)>,
    b: Seq<(usize, Val)>,
    x: (usize, Val),
    y: (usize, Val),
)
    requires
        x.0 == y.0,
        keys_within(a, 0, x.0 as int),
        keys_within(b, 0, x.0 as int),
    ensures
        merged_by_key(a.push(x), b.push(y)) == merged_by_key(a, b).push(x).push(y),
    decreases a.len() + b.len(),
{
    let ax = a.push(x);
    let by = b.push(y);
    if a.len() == 0 && b.len() == 0 {
        assert(ax.skip(1) =~= Seq::<(usize, Val)>::empty());
        assert(merged_by_key(ax.skip(1), by) == by);
        assert(seq![x] + by =~= merged_by_key(a, b).push(x).push(y));
    } else if a.len() == 0 {
        assert(by[0] == b[0]);
        assert(by.skip(1) =~= b.skip(1).push(y));
        assert(keys_within(b.skip(1), 0, x.0 as int)) by {
            assert forall|i: int| 0 <= i < b.skip(1).len() implies 0 <= (#[trigger] b.skip(
                1,
            )[i]).0 < x.0 by {
                assert(b.skip(1)[i] == b[i + 1]);
            }
        }
        lemma_merged_by_key_last(a, b.skip(1), x, y);
        assert(merged_by_key(a, b.skip(1)) == b.skip(1));
        assert(seq![b[0]] + b.skip(1).push(x).push(y) =~= b.push(x).push(y));
    } else if b.len() == 0 {
        assert(ax[0] == a[0]);
        assert(ax.skip(1) =~= a.skip(1).push(x));
        assert(keys_within(a.skip(1), 0, x.0 as int)) by {
            assert forall|i: int| 0 <= i < a.skip(1).len() implies 0 <= (#[trigger] a.skip(
                1,
            )[i]).0 < x.0 by {
                assert(a.skip(1)[i] == a[i + 1]);
            }
        }
        lemma_merged_by_key_last(a.skip(1), b, x, y);
        assert(merged_by_key(a.skip(1), b) =~= a.skip(1));
        assert(seq![a[0]] + a.skip(1).push(x).push(y) =~= a.push(x).push(y));
    } else {
        assert(ax[0] == a[0] && by[0] == b[0]);
        if a[0].0 <= b[0].0 {
            assert(ax.skip(1) =~= a.skip(1).push(x));
            assert(keys_within(a.skip(1), 0, x.0 as int)) by {
                assert forall|i: int| 0 <= i < a.skip(1).len() implies 0 <= (#[trigger] a.skip(
                    1,
                )[i]).0 < x.0 by {
                    assert(a.skip(1)[i] == a[i + 1]);
                }
            }
            lemma_merged_by_key_last(a.skip(1), b, x, y);
            assert(seq![a[0]] + merged_by_key(a.skip(1), b).push(x).push(y) =~= (seq![a[0]]
                + merged_by_key(a.skip(1), b)).push(x).push(y));
        } else {
            assert(by.skip(1) =~= b.skip(1).push(y));
            assert(keys_within(b.skip(1), 0, x.0 as int)) by {
                assert forall|i: int| 0 <= i < b.skip(1).len() implies 0 <= (#[trigger] b.skip(
                    1,
                )[i]).0 < x.0 by {
                    assert(b.skip(1)[i] == b[i + 1]);
                }
            }
            lemma_merged_by_key_last(a, b.skip(1), x, y);
            assert(seq![b[0]] + merged_by_key(a, b.skip(1)).push(x).push(y) =~= (seq![b[0]]
                + merged_by_key(a, b.skip(1))).push(x).push(y));
        }
    }
}

/// Gathering keeps the keys within their bounds, and turns sorted keys into
/// strictly ascending keys.
pub proof fn lemma_gathered_keys<Val: Copy, R: DivisionRing<Val>>(
    ring: R,
    s: Seq<(usize, Val)>,
    lo: int,
    hi: int,
)
    requires
        keys_within(s, lo, hi),
    ensures
        keys_within(gathered(ring, s), lo, hi),
        keys_sorted(s) ==> keys_ascending(gathered(ring, s)),
    decreases s.len(),
{
    let g = gathered(ring, s);
    if s.len() == 0 {
    } else if s.len() >= 2 && s[1].0 == s[0].0 {
        let t = absorb_second(ring, s);
        assert forall|i: int| 0 <= i < t.len() implies lo <= (#[trigger] t[i]).0 < hi by {
            if i > 0 {
                assert(t[i] == s[i + 1]);
            }
        }
        if keys_sorted(s) {
            assert forall|i: int, j: int| 0 <= i < j < t.len() implies t[i].0 <= t[j].0 by {
                assert(t[j] == s[j + 1]);
                if i > 0 {
                    assert(t[i] == s[i + 1]);
                }
            }
        }
        lemma_gathered_keys(ring, t, lo, hi);
    } else {
        let rest = s.skip(1);
        let bound = if keys_sorted(s) {
            s[0].0 + 1
        } else {
            lo
        };
        assert forall|i: int| 0 <= i < rest.len() implies lo <= (#[trigger] rest[i]).0 < hi
            && bound <= rest[i].0 by {
            assert(rest[i] == s[i + 1]);
            if keys_sorted(s) {
                assert(s[0].0 <= s[1].0 && s[1].0 <= s[i + 1].0);
            }
        }
        if keys_sorted(s) {
            assert forall|i: int, j: int| 0 <= i < j < rest.len() implies rest[i].0
                <= rest[j].0 by {
                assert(rest[i] == s[i + 1] && rest[j] == s[j + 1]);
            }
        }
        lemma_gathered_keys(ring, rest, lo, hi);
        lemma_gathered_keys(ring, rest, bound, hi);
        let gr = gathered(ring, rest);
        assert(g == seq![s[0]] + gr);
        assert forall|i: int| 0 <= i < g.len() implies lo <= (#[trigger] g[i]).0 < hi by {
            if i > 0 {
                assert(g[i] == gr[i - 1]);
            }
        }
        if keys_sorted(s) {
            assert forall|i: int, j: int| 0 <= i < j < g.len() implies g[i].0 < g[j].0 by {
                assert(g[j] == gr[j - 1]);
                if i > 0 {
                    assert(g[i] == gr[i - 1]);
                }
            }
        }
    }
}

/// If `x` and `y` share a key that is greater than all the keys of `p`,
/// gathering `p` followed by `x` and `y` gathers `p`, and adds `y` into `x`.
pub proof fn lemma_gathered_last<Val: Copy, R: DivisionRing<Val>>(
    ring: R,
    p: Seq<(usize, Val)>,
    x: (usize, Val),
    y: (usize, Val),
)
    requires
        x.0 == y.0,
        keys_within(p, 0, x.0 as int),
    ensures
        gathered(ring, p.push(x).push(y)) == gathered(ring, p).push((x.0, ring.sum(x.1, y.1))),
    decreases p.len(),
{
    let s = p.push(x).push(y);
    let sum = (x.0, ring.sum(x.1, y.1));
    if p.len() == 0 {
        assert(s =~= seq![x, y]);
        lemma_gathered_pair(ring, x, y);
        assert(gathered(ring, p).push(sum) =~= seq![sum]);
    } else if p.len() >= 2 && p[1].0 == p[0].0 {
        let t = absorb_second(ring, p);
        assert(absorb_second(ring, s) =~= t.push(x).push(y));
        assert forall|i: int| 0 <= i < t.len() implies 0 <= (#[trigger] t[i]).0 < x.0 by {
            if i > 0 {
                assert(t[i] == p[i + 1]);
            }
        }
        lemma_gathered_last(ring, t, x, y);
    } else {
        let rest = p.skip(1);
        assert(s[1].0 != s[0].0) by {
            if p.len() >= 2 {
                assert(s[1] == p[1]);
            } else {
                assert(s[1] == x);
            }
        }
        assert(s.skip(1) =~= rest.push(x).push(y));
        assert forall|i: int| 0 <= i < rest.len() implies 0 <= (#[trigger] rest[i]).0 < x.0 by {
            assert(rest[i] == p[i + 1]);
        }
        lemma_gathered_last(ring, rest, x, y);
        assert(seq![p[0]] + gathered(ring, rest).push(sum) =~= (seq![p[0]] + gathered(
            ring,
            rest,
        )).push(sum));
    }
}

/// Dropping zeros keeps the keys within their bounds and strictly ascending,
/// and leaves no zero.
pub proof fn lemma_without_zeros_keys<Val: Copy, R: DivisionRing<Val>>(
    ring: R,
    s: Seq<(usize, Val)>,
    lo: int,
    hi: int,
)
    requires
        keys_within(s, lo, hi),
    ensures
        keys_within(without_zeros(ring, s), lo, hi),
        no_zeros(ring, without_zeros(ring, s)),
        keys_ascending(s) ==> keys_ascending(without_zeros(ring, s)),
    decreases s.len(),
{
    let w = without_zeros(ring, s);
    lemma_without_zeros_step(ring, s);
    if s.len() > 0 {
        let rest = s.skip(1);
        let bound = if keys_ascending(s) {
            s[0].0 + 1
        } else {
            lo
        };
        assert forall|i: int| 0 <= i < rest.len() implies lo <= (#[trigger] rest[i]).0 < hi
            && bound <= rest[i].0 by {
            assert(rest[i] == s[i + 1]);
        }
        if keys_ascending(s) {
            assert forall|i: int, j: int| 0 <= i < j < rest.len() implies rest[i].0
                < rest[j].0 by {
                assert(rest[i] == s[i + 1] && rest[j] == s[j + 1]);
            }
        }
        lemma_without_zeros_keys(ring, rest, lo, hi);
        lemma_without_zeros_keys(ring, rest, bound, hi);
        let wr = without_zeros(ring, rest);
        if !ring.is_zero(s[0].1) {
            assert(w == seq![s[0]] + wr);
            assert forall|i: int| 0 <= i < w.len() implies lo <= (#[trigger] w[i]).0 < hi
                && !ring.is_zero(w[i].1) by {
                if i > 0 {
                    assert(w[i] == wr[i - 1]);
                }
            }
            if keys_ascending(s) {
                assert forall|i: int, j: int| 0 <= i < j < w.len() implies w[i].0 < w[j].0 by {
                    assert(w[j] == wr[j - 1]);
                    if i > 0 {
                        assert(w[i] == wr[i - 1]);
                    }
                }
            }
        }
    }
}

/// The sum `a + scalar * b` of two vectors with sorted keys is in canonical
/// form: its keys are strictly ascending, and none of its coefficients is
/// zero.
pub proof fn sum_is_canonical<Val: Copy, R: DivisionRing<Val>>(
    ring: R,
    a: Seq<(usize, Val)>,
    b: Seq<(usize, Val)>,
    scalar: Val,
)
    requires
        keys_sorted(a),
        keys_sorted(b),
    ensures
        is_canonical(ring, with_multiple_added(ring, a, b, scalar)),
{
    let top = usize::MAX + 1;
    let sb = scaled(ring, b, scalar);
    assert(keys_sorted(sb)) by {
        assert forall|i: int, j: int| 0 <= i < j < sb.len() implies sb[i].0 <= sb[j].0 by {
            assert(sb[i].0 == b[i].0 && sb[j].0 == b[j].0);
        }
    }
    merge_by_key_preserves_order(a, sb);
    let m = merged_by_key(a, sb);
    assert(keys_within(m, 0, top));
    lemma_gathered_keys(ring, m, 0, top);
    lemma_without_zeros_keys(ring, gathered(ring, m), 0, top);
}

/// Adding to `a` the multiple of `b` that cancels the last entry of `a`:
/// if `a` and `b` have strictly ascending keys and end on the same key, and
/// the last coefficient of `a` plus `scalar` times the last coefficient of
/// `b` is zero, then `a + scalar * b` is in canonical form and all its keys
/// lie before that last key.
pub proof fn lemma_last_entry_cancels<Val: Copy, R: DivisionRing<Val>>(
    ring: R,
    a: Seq<(usize, Val)>,
    b: Seq<(usize, Val)>,
    scalar: Val,
)
    requires
        keys_ascending(a),
        keys_ascending(b),
        a.len() > 0,
        b.len() > 0,
        a.last().0 == b.last().0,
        ring.is_zero(ring.sum(a.last().1, ring.product(b.last().1, scalar))),
    ensures
        is_canonical(ring, with_multiple_added(ring, a, b, scalar)),
        keys_within(with_multiple_added(ring, a, b, scalar), 0, a.last().0 as int),
{
    let k = a.last().0;
    let a0 = a.drop_last();
    let b0 = b.drop_last();
    let sb = scaled(ring, b, scalar);
    let sb0 = scaled(ring, b0, scalar);
    let y = (k, ring.product(b.last().1, scalar));
    assert(a =~= a0.push(a.last()));
    assert(sb =~= sb0.push(y));
    assert(keys_within(a0, 0, k as int) && keys_sorted(a0)) by {
        assert forall|i: int| 0 <= i < a0.len() implies 0 <= (#[trigger] a0[i]).0 < k by {
            assert(a0[i] == a[i]);
        }
    }
    assert(keys_within(sb0, 0, k as int) && keys_sorted(sb0)) by {
        assert forall|i: int| 0 <= i < sb0.len() implies 0 <= (#[trigger] sb0[i]).0 < k by {
            assert(sb0[i].0 == b[i].0);
        }
        assert forall|i: int, j: int| 0 <= i < j < sb0.len() implies sb0[i].0 <= sb0[j].0 by {
            assert(sb0[i].0 == b[i].0 && sb0[j].0 == b[j].0);
        }
    }
    let m0 = merged_by_key(a0, sb0);
    lemma_merged_by_key_last(a0, sb0, a.last(), y);
    lemma_merged_by_key_within(a0, sb0, 0, k as int);
    merge_by_key_preserves_order(a0, sb0);
    lemma_gathered_last(ring, m0, a.last(), y);
    lemma_gathered_keys(ring, m0, 0, k as int);
    let g0 = gathered(ring, m0);
    let z = (k, ring.sum(a.last().1, y.1));
    lemma_without_zeros_push(ring, g0, z);
    assert(merged_by_key(a, sb) == m0.push(a.last()).push(y));
    assert(gathered(ring, merged_by_key(a, sb)) == g0.push(z));
    assert(with_multiple_added(ring, a, b, scalar) == without_zeros(ring, g0));
    lemma_without_zeros_keys(ring, g0, 0, k as int);
}

//  ---------------------------------------------------------------------------
//  RIGHT REDUCE
//  ---------------------------------------------------------------------------
/// The pivot map fits the columns: each pivot key is mapped to a column
/// that is not empty, has strictly ascending keys, and ends on that key with
/// a coefficient that is not zero.
pub open spec fn pivots_fit<Val: Copy, R: DivisionRing<Val>>(
    ring: R,
    cols: Seq<Seq<(usize, Val)>>,
    pivots: Map<usize, usize>,
) -> bool {
    forall|k: usize| #[trigger]
        pivots.contains_key(k) ==> {
            let c = pivots[k] as int;
            &&& c < cols.len()
            &&& cols[c].len() > 0
            &&& cols[c].last().0 == k
            &&& !ring.is_zero(cols[c].last().1)
            &&& keys_ascending(cols[c])
        }
}

/// No two pivot keys are mapped to the same column.
pub open spec fn pivots_injective(pivots: Map<usize, usize>) -> bool {
    forall|j: usize, k: usize|
        pivots.contains_key(j) && pivots.contains_key(k) && j != k ==> pivots[j] != pivots[k]
}

/// The key on which a vector ends, plus one; zero for the empty vector.
pub open spec fn end_of<Val>(s: Seq<(usize, Val)>) -> int {
    if s.len() > 0 {
        s.last().0 + 1
    } else {
        0
    }
}

/// The column `clearee` reduced against the pivot columns: as long as the
/// key on which it ends is a pivot key, the multiple of that pivot's column
/// which cancels its last entry is added to it.
pub open spec fn reduced_column<Val: Copy, R: DivisionRing<Val>>(
    ring: R,
    cols: Seq<Seq<(usize, Val)>>,
    pivots: Map<usize, usize>,
    clearee: Seq<(usize, Val)>,
) -> Seq<(usize, Val)>
    decreases end_of(clearee),
    when quotient_cancels(ring) && pivots_fit(ring, cols, pivots) && keys_ascending(clearee)
{
    if clearee.len() > 0 && pivots.contains_key(clearee.last().0) {
        let clearor = cols[pivots[clearee.last().0] as int];
        let scalar = ring.quotient(ring.negation(clearee.last().1), clearor.last().1);
        proof {
            lemma_last_entry_cancels(ring, clearee, clearor, scalar);
        }
        reduced_column(ring, cols, pivots, with_multiple_added(ring, clearee, clearor, scalar))
    } else {
        clearee
    }
}

/// The matrix and the pivot map after the first `count` columns have been
/// reduced, each against the pivot columns before it.  A reduced column that
/// is not empty becomes the pivot column of the key on which it ends.
pub open spec fn right_reduced<Val: Copy, R: DivisionRing<Val>>(
    ring: R,
    matrix: Seq<Seq<(usize, Val)>>,
    count: nat,
) -> (Seq<Seq<(usize, Val)>>, Map<usize, usize>)
    decreases count,
{
    if count == 0 {
        (matrix, Map::empty())
    } else {
        let (cols, pivots) = right_reduced(ring, matrix, (count - 1) as nat);
        let c = count - 1;
        let column = reduced_column(ring, cols, pivots, cols[c]);
        if column.len() > 0 {
            (cols.update(c, column), pivots.insert(column.last().0, c as usize))
        } else {
            (cols.update(c, column), pivots)
        }
    }
}

/// A pivot map that fits its columns maps no two
/// keys to one column.
pub proof fn fitting_pivots_are_injective<Val: Copy, R: DivisionRing<Val>>(
    ring: R,
    cols: Seq<Seq<(usize, Val)>>,
    pivots: Map<usize, usize>,
)
    requires
        pivots_fit(ring, cols, pivots),
    ensures
        pivots_injective(pivots),
{
}

/// Reduce one column against the pivot columns of `matrix`.
fn reduce_column<Val, RingOperator>(
    matrix: &Vec<Vec<(usize, Val)>>,
    pivot_hash: &HashMap<usize, usize>,
    column: usize,
    buffer: &mut Vec<(usize, Val)>,
    ring: RingOperator,
) -> (clearee: Vec<(usize, Val)>) where Val: Copy, RingOperator: DivisionRing<Val> + Copy
    requires
        quotient_cancels(ring),
        pivots_fit(ring, columns(matrix@), pivot_hash@),
        column < matrix@.len(),
        is_canonical(ring, matrix@[column as int]@),
    ensures
        clearee@ == reduced_column(
            ring,
            columns(matrix@),
            pivot_hash@,
            matrix@[column as int]@,
        ),
        is_canonical(ring, clearee@),
        clearee@.len() > 0 ==> !pivot_hash@.contains_key(clearee@.last().0),
{
    broadcast use vstd::std_specs::hash::group_hash_axioms;

    let ghost cols = columns(matrix@);
    let ghost pivots = pivot_hash@;
    let mut clearee = collect(SliceStream::new(&matrix[column]));
    //  REDUCE THE CLEAREE
    loop
        invariant
            quotient_cancels(ring),
            cols == columns(matrix@),
            pivots == pivot_hash@,
            pivots_fit(ring, cols, pivots),
            is_canonical(ring, clearee@),
            reduced_column(ring, cols, pivots, matrix@[column as int]@) == reduced_column(
                ring,
                cols,
                pivots,
                clearee@,
            ),
        ensures
            is_canonical(ring, clearee@),
            clearee@ == reduced_column(ring, cols, pivots, matrix@[column as int]@),
            clearee@.len() > 0 ==> !pivots.contains_key(clearee@.last().0),
        decreases end_of(clearee@),
    {
        if clearee.len() == 0 {
            break ;
        }
        let clearee_entry = clearee[clearee.len() - 1];
        match pivot_hash.get(&clearee_entry.0) {
            Some(clearor_index) => {
                assert(pivots.contains_key(clearee_entry.0) && pivots[clearee_entry.0]
                    == *clearor_index);
                let clearor = &matrix[*clearor_index];
                assert(clearor@ == cols[*clearor_index as int]);
                let clearor_entry = clearor[clearor.len() - 1];
                let scalar = ring.divide(ring.negate(clearee_entry.1), clearor_entry.1);
                proof {
                    lemma_last_entry_cancels(ring, clearee@, clearor@, scalar);
                }
                add_multiple(&mut clearee, clearor, scalar, buffer, ring);
            },
            None => {
                assert(!pivots.contains_key(clearee_entry.0));
                break ;
            },
        }
    }
    clearee
}

/// Compute the right-reduced matrix of input `matrix`, in place, and return
/// the map that takes each pivot key to the index of its column.
///
/// The columns are processed in order.  Each is reduced against the pivot
/// columns found so far: as long as the key on which it ends is a pivot
/// key, the multiple of that pivot's column which cancels its last entry is
/// added to it.  If it does not vanish, it becomes the pivot column of the
/// key on which it ends.
///
/// Important assumptions:
///     * no entry of the input is zero
///     * the entries in each column are sorted, with strictly ascending keys
///     * the ring cancels: `v + p * (-v / p)` is zero for nonzero `p`
pub fn right_reduce<Val, RingOperator>(
    matrix: &mut Vec<Vec<(usize, Val)>>,
    ring: RingOperator,
) -> (pivot_hash: HashMap<usize, usize>) where Val: Copy, RingOperator: DivisionRing<Val> + Copy
    requires
        quotient_cancels(ring),
        forall|c: int|
            0 <= c < old(matrix)@.len() ==> is_canonical(ring, (#[trigger] old(matrix)@[c])@),
    ensures
        (columns(final(matrix)@), pivot_hash@) == right_reduced(
            ring,
            columns(old(matrix)@),
            old(matrix)@.len(),
        ),
        final(matrix)@.len() == old(matrix)@.len(),
        forall|c: int|
            0 <= c < final(matrix)@.len() ==> is_canonical(ring, (#[trigger] final(matrix)@[c])@),
        pivots_fit(ring, columns(final(matrix)@), pivot_hash@),
        pivots_injective(pivot_hash@),
        forall|c: int|
            0 <= c < final(matrix)@.len() && (#[trigger] final(matrix)@[c])@.len() > 0 ==> {
                &&& pivot_hash@.contains_key(final(matrix)@[c]@.last().0)
                &&& pivot_hash@[final(matrix)@[c]@.last().0] == c
            },
{
    broadcast use vstd::std_specs::hash::group_hash_axioms;

    let mut pivot_hash = HashMap::<usize, usize>::new();
    let mut buffer: Vec<(usize, Val)> = Vec::new();
    let ghost start = columns(matrix@);
    let n = matrix.len();
    let mut clearee_count: usize = 0;
    while clearee_count < n
        invariant
            clearee_count <= n,
            matrix@.len() == n,
            start.len() == n,
            quotient_cancels(ring),
            (columns(matrix@), pivot_hash@) == right_reduced(ring, start, clearee_count as nat),
            pivots_fit(ring, columns(matrix@), pivot_hash@),
            forall|k: usize| #[trigger] pivot_hash@.contains_key(k) ==> pivot_hash@[k] < clearee_count,
            forall|c: int| 0 <= c < n ==> is_canonical(ring, (#[trigger] matrix@[c])@),
            forall|c: int|
                0 <= c < clearee_count && (#[trigger] matrix@[c])@.len() > 0 ==> {
                    &&& pivot_hash@.contains_key(matrix@[c]@.last().0)
                    &&& pivot_hash@[matrix@[c]@.last().0] == c
                },
        decreases n - clearee_count,
    {
        let ghost cols = columns(matrix@);
        let ghost pivots = pivot_hash@;
        let mut clearee = reduce_column(matrix, &pivot_hash, clearee_count, &mut buffer, ring);
        let ghost reduced = clearee@;
        assert(cols[clearee_count as int] == matrix@[clearee_count as int]@);
        //  UPDATE MATRIX + HASHMAP
        matrix[clearee_count].clear();  // clear this column's slot in the matrix
        if clearee.len() > 0 {
            let pivot_entry = clearee[clearee.len() - 1];
            pivot_hash.insert(pivot_entry.0, clearee_count);  // update hashmap
            matrix[clearee_count].append(&mut clearee);  // write in the nonzero reduced column
        }
        proof {
            assert(matrix@[clearee_count as int]@ =~= reduced);
            assert(columns(matrix@) =~= cols.update(clearee_count as int, reduced));
            assert forall|k: usize| #[trigger] pivot_hash@.contains_key(k) implies {
                let c = pivot_hash@[k] as int;
                &&& c < clearee_count + 1
                &&& c < columns(matrix@).len()
                &&& columns(matrix@)[c].len() > 0
                &&& columns(matrix@)[c].last().0 == k
                &&& !ring.is_zero(columns(matrix@)[c].last().1)
                &&& keys_ascending(columns(matrix@)[c])
            } by {
                if pivots.contains_key(k) {
                    assert(pivots[k] < clearee_count);
                    assert(columns(matrix@)[pivots[k] as int] == cols[pivots[k] as int]);
                }
            }
            assert forall|c: int|
                0 <= c < clearee_count + 1 && (#[trigger] matrix@[c])@.len() > 0 implies {
                &&& pivot_hash@.contains_key(matrix@[c]@.last().0)
                &&& pivot_hash@[matrix@[c]@.last().0] == c
            } by {
                if c < clearee_count {
                    assert(columns(matrix@)[c] == cols[c]);
                    assert(matrix@[c]@ == cols[c]);
                    assert(pivots.contains_key(cols[c].last().0));
                }
            }
            assert forall|c: int| 0 <= c < n implies is_canonical(ring, (#[trigger] matrix@[c])@) by {
                if c != clearee_count {
                    assert(columns(matrix@)[c] == cols[c]);
                    assert(matrix@[c]@ == cols[c]);
                }
            }
        }
        clearee_count += 1;
    }
    proof {
        fitting_pivots_are_injective(ring, columns(matrix@), pivot_hash@);
    }
    pivot_hash
}

} // verus!
