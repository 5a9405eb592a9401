//! The faces of a simplicial complex, given its facets.

use vstd::prelude::*;
use itertools::Itertools;
use crate::utilities::combinatorics::views_of;

pub use crate::utilities::cell_complexes::simplices_unweighted::simplex::FacetIteratorNoReturnAscending;

verus! {

//  ---------------------------------------------------------------------------
//  FACES FROM FACETS-OF-THE-COMPLEX
//  ---------------------------------------------------------------------------
/// The subsequences of `s` of length `k`, in lexicographic order of the
/// positions they are taken from.
pub open spec fn combinations(s: Seq<usize>, k: nat) -> Seq<Seq<usize>>
    decreases s.len(),
{
    if k == 0 {
        seq![Seq::empty()]
    } else if s.len() < k {
        Seq::empty()
    } else {
        combinations(s.skip(1), (k - 1) as nat).map_values(|c: Seq<usize>| seq![s[0]] + c)
            + combinations(s.skip(1), k)
    }
}

/// A sequence has one subsequence of its own length, and as many
/// subsequences one shorter as it has items.
pub proof fn lemma_combinations_count(s: Seq<usize>)
    ensures
        combinations(s, s.len()).len() == 1,
        s.len() > 0 ==> combinations(s, (s.len() - 1) as nat).len() == s.len(),
    decreases s.len(),
{
    if s.len() > 0 {
        lemma_combinations_count(s.skip(1));
        assert(combinations(s.skip(1), s.len()).len() == 0);
        if s.len() > 1 {
            assert(combinations(s, (s.len() - 1) as nat) == combinations(
                s.skip(1),
                (s.len() - 2) as nat,
            ).map_values(|c: Seq<usize>| seq![s[0]] + c) + combinations(
                s.skip(1),
                (s.len() - 1) as nat,
            ));
        }
    }
}

/// The subsequences of length `k` of each of the facets.
pub open spec fn combinations_of_each(facets: Seq<Seq<usize>>, k: nat) -> Seq<Seq<Seq<usize>>> {
    facets.map_values(|facet: Seq<usize>| combinations(facet, k))
}

/// The merge of several lists of sequences that `itertools::kmerge` yields.
pub uninterp spec fn kmerged(lists: Seq<Seq<Seq<usize>>>) -> Seq<Seq<usize>>;

/// `list` without the sequences that equal their predecessor.
pub open spec fn without_repeats(list: Seq<Seq<usize>>) -> Seq<Seq<usize>>
    decreases list.len(),
{
    if list.len() <= 1 {
        list
    } else if list.last() == list[list.len() - 2] {
        without_repeats(list.drop_last())
    } else {
        without_repeats(list.drop_last()).push(list.last())
    }
}

/// The sequences held by the vectors of each list.
pub open spec fn views_of_each(lists: Seq<Vec<Vec<usize>>>) -> Seq<Seq<Seq<usize>>> {
    lists.map_values(|list: Vec<Vec<usize>>| views_of(list@))
}

/// The subsequences of `s` of length `k`, by `itertools::Itertools::combinations`,
/// which yields the combinations in lexicographic order of the positions
/// of their items.
#[verifier::external_body]
pub(crate) fn combinations_of(s: &Vec<usize>, k: usize) -> (r: Vec<Vec<usize>>)
    ensures
        views_of(r@) == combinations(s@, k as nat),
{
    s.iter().cloned().combinations(k).collect()
}

/// Merge lists of sequences by `itertools::kmerge`, which flattens its
/// lists by merging them in ascending order.
#[verifier::external_body]
fn kmerge_of(lists: Vec<Vec<Vec<usize>>>) -> (r: Vec<Vec<usize>>)
    ensures
        views_of(r@) == kmerged(views_of_each(lists@)),
{
    itertools::kmerge(lists).collect()
}

/// Drop from `list` every sequence that equals its predecessor.
fn drop_repeats(list: Vec<Vec<usize>>) -> (r: Vec<Vec<usize>>)
    ensures
        views_of(r@) == without_repeats(views_of(list@)),
{
    broadcast use vstd::laws_eq::group_laws_eq;

    let mut r: Vec<Vec<usize>> = Vec::new();
    let ghost all = views_of(list@);
    assert(all.take(0) =~= Seq::<Seq<usize>>::empty());
    assert(views_of(r@) =~= Seq::<Seq<usize>>::empty());
    for x in iter: list
        invariant
            iter.seq() == list@,
            all == views_of(list@),
            views_of(r@) == without_repeats(all.take(iter.index() as int)),
            r@.len() > 0 ==> iter.index() > 0 && r@.last()@ == all[iter.index() - 1],
            r@.len() == 0 ==> iter.index() == 0,
    {
        let ghost done = all.take(iter.index() as int);
        let ghost next = all.take(iter.index() + 1);
        let ghost before = views_of(r@);
        proof {
            assert(next.drop_last() =~= done);
            assert(next.last() == x@);
            reveal(vstd::laws_eq::obeys_concrete_eq);
        }
        let repeat = r.len() > 0 && same_sequence(&r[r.len() - 1], &x);
        if !repeat {
            r.push(x);
            assert(views_of(r@) =~= before.push(x@));
        }
    }
    assert(all.take(all.len() as int) =~= all);
    r
}

/// Whether two vectors hold the same sequence.
fn same_sequence(a: &Vec<usize>, b: &Vec<usize>) -> (r: bool)
    ensures
        r == (a@ == b@),
{
    if a.len() != b.len() {
        return false;
    }
    let mut i: usize = 0;
    while i < a.len()
        invariant
            i <= a@.len(),
            a@.len() == b@.len(),
            a@.take(i as int) == b@.take(i as int),
        decreases a@.len() - i,
    {
        if a[i] != b[i] {
            return false;
        }
        assert(a@.take(i + 1) =~= a@.take(i as int).push(a@[i as int]));
        assert(b@.take(i + 1) =~= b@.take(i as int).push(b@[i as int]));
        i += 1;
    }
    assert(a@.take(a@.len() as int) =~= a@);
    assert(b@.take(b@.len() as int) =~= b@);
    true
}

/// The faces of dimension `dim` of the complex with the given facets: the
/// subsequences of length `dim + 1` of the facets, merged, without repeats.
pub open spec fn subsimplices_fixed_dim(facets: Seq<Seq<usize>>, dim: nat) -> Seq<Seq<usize>> {
    without_repeats(kmerged(combinations_of_each(facets, dim + 1)))
}

/// Assuming the complex facets have vertices sorted in ascending order, returns
/// the `dim`-dimensional subsimplices in lexicographic order.
pub fn ordered_subsimplices_fixed_dim_iter(complex_facets: &Vec<Vec<usize>>, dim: usize) -> (r: Vec<
    Vec<usize>,
>)
    requires
        dim < usize::MAX,
    ensures
        views_of(r@) == subsimplices_fixed_dim(views_of(complex_facets@), dim as nat),
{
    let mut lists: Vec<Vec<Vec<usize>>> = Vec::new();
    let mut i: usize = 0;
    let ghost facets = views_of(complex_facets@);
    let ghost k: nat = (dim + 1) as nat;
    assert(views_of_each(lists@) =~= combinations_of_each(facets.take(0), k));
    while i < complex_facets.len()
        invariant
            i <= complex_facets@.len(),
            dim < usize::MAX,
            k == dim + 1,
            facets == views_of(complex_facets@),
            views_of_each(lists@) == combinations_of_each(facets.take(i as int), k),
        decreases complex_facets@.len() - i,
    {
        let ghost before = views_of_each(lists@);
        let combos = combinations_of(&complex_facets[i], dim + 1);
        lists.push(combos);
        assert(views_of_each(lists@) =~= before.push(combinations(facets[i as int], k)));
        assert(combinations_of_each(facets.take(i + 1), k) =~= combinations_of_each(
            facets.take(i as int),
            k,
        ).push(combinations(facets[i as int], k)));
        i += 1;
    }
    assert(facets.take(facets.len() as int) =~= facets);
    drop_repeats(kmerge_of(lists))
}

/// The faces of each dimension from 0 to `max_dim`.
pub open spec fn subsimplices_up_thru_dim(facets: Seq<Seq<usize>>, max_dim: nat) -> Seq<
    Seq<Seq<usize>>,
> {
    Seq::new(max_dim + 1, |dim: int| subsimplices_fixed_dim(facets, dim as nat))
}

/// The faces of the complex of each dimension from 0 to `max_dim`, those of
/// dimension `d` at index `d`.
pub fn ordered_subsimplices_up_thru_dim_vec(complex_facets: &Vec<Vec<usize>>, max_dim: usize) -> (seq:
    Vec<Vec<Vec<usize>>>)
    requires
        max_dim < usize::MAX,
    ensures
        views_of_each(seq@) == subsimplices_up_thru_dim(
            views_of(complex_facets@),
            max_dim as nat,
        ),
{
    let mut seq: Vec<Vec<Vec<usize>>> = Vec::new();
    let mut dim: usize = 0;
    while dim < max_dim + 1
        invariant
            dim <= max_dim + 1,
            max_dim < usize::MAX,
            seq@.len() == dim,
            forall|d: int|
                0 <= d < dim ==> views_of((#[trigger] seq@[d])@) == subsimplices_fixed_dim(
                    views_of(complex_facets@),
                    d as nat,
                ),
        decreases max_dim + 1 - dim,
    {
        let vec = ordered_subsimplices_fixed_dim_iter(complex_facets, dim);
        seq.push(vec);
        dim += 1;
    }
    assert(views_of_each(seq@) =~= subsimplices_up_thru_dim(
        views_of(complex_facets@),
        max_dim as nat,
    ));
    seq
}

/// The faces of each dimension from 0 to `max_dim`, one dimension after the
/// other.
pub open spec fn subsimplices_concatenated(facets: Seq<Seq<usize>>, dims: nat) -> Seq<Seq<usize>>
    decreases dims,
{
    if dims == 0 {
        Seq::empty()
    } else {
        subsimplices_concatenated(facets, (dims - 1) as nat) + subsimplices_fixed_dim(
            facets,
            (dims - 1) as nat,
        )
    }
}

/// The faces of the complex of each dimension from 0 to `max_dim`, in one
/// list: first those of dimension 0, then those of dimension 1, and so on.
pub fn ordered_subsimplices_up_thru_dim_concatenated_vec(
    complex_facets: &Vec<Vec<usize>>,
    max_dim: usize,
) -> (b: Vec<Vec<usize>>)
    requires
        max_dim < usize::MAX,
    ensures
        views_of(b@) == subsimplices_concatenated(
            views_of(complex_facets@),
            (max_dim + 1) as nat,
        ),
{
    let mut a = ordered_subsimplices_up_thru_dim_vec(complex_facets, max_dim);
    let mut b: Vec<Vec<usize>> = Vec::new();
    let ghost facets = views_of(complex_facets@);
    let ghost lists = views_of_each(a@);
    let mut i: usize = 0;
    assert(views_of(b@) =~= subsimplices_concatenated(facets, 0));
    assert(lists.len() == a@.len());
    assert forall|d: int| 0 <= d < a@.len() implies views_of((#[trigger] a@[d])@) == lists[d] by {}
    while i < a.len()
        invariant
            i <= a@.len(),
            a@.len() == max_dim + 1,
            lists == subsimplices_up_thru_dim(facets, max_dim as nat),
            forall|d: int| i <= d < a@.len() ==> views_of((#[trigger] a@[d])@) == lists[d],
            views_of(b@) == subsimplices_concatenated(facets, i as nat),
        decreases a@.len() - i,
    {
        let ghost before = views_of(b@);
        let ghost added = views_of(a@[i as int]@);
        b.append(&mut a[i]);
        assert(views_of(b@) =~= before + added);
        i += 1;
    }
    b
}

} // verus!
