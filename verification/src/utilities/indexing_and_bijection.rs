//! Permutations, and ways to index into vectors.

use vstd::prelude::*;
use vstd::std_specs::cmp::PartialOrdIs;

verus! {

//  ---------------------------------------------------------------------------
//  ORDER
//  ---------------------------------------------------------------------------
/// The order of `T` is a lawful total order, and comparisons of `T` decide
/// it.
pub open spec fn lawful_order<T: Ord>() -> bool {
    vstd::laws_cmp::obeys_cmp::<T>()
}

/// `s` is sorted: no item is greater than a later one.
pub open spec fn is_sorted<T: Ord>(s: Seq<T>) -> bool {
    forall|i: int, j: int| #![trigger s[i], s[j]] 0 <= i < j < s.len() ==> s[i].is_le(&s[j])
}

/// Sort a vector with `<[T]>::sort`, which puts the items in ascending
/// order, keeps every item, and may panic if the order of `T` is not total.
#[verifier::external_body]
pub(crate) fn sort_vec<T: Ord>(v: &mut Vec<T>)
    requires
        lawful_order::<T>(),
    ensures
        final(v)@.to_multiset() == old(v)@.to_multiset(),
        is_sorted(final(v)@),
{
    v.sort()
}

//  ---------------------------------------------------------------------------
//  PERMUTATIONS
//  ---------------------------------------------------------------------------
/// `p` lists each of the numbers `0, .., p.len() - 1` once.
pub open spec fn is_permutation(p: Seq<usize>) -> bool {
    &&& forall|i: int| 0 <= i < p.len() ==> (#[trigger] p[i]) < p.len()
    &&& forall|i: int, j: int| 0 <= i < j < p.len() ==> p[i] != p[j]
}

/// Every item of `g` is an index into a sequence of length `n`.
pub open spec fn indices_below(g: Seq<usize>, n: nat) -> bool {
    forall|i: int| 0 <= i < g.len() ==> (#[trigger] g[i]) < n
}

/// The items of `f` picked out by the indices `g`: the `i`th is `f[g[i]]`.
pub open spec fn composed<T>(f: Seq<T>, g: Seq<usize>) -> Seq<T> {
    Seq::new(g.len(), |i: int| f[g[i] as int])
}

/// The item of `vec` at `i` comes before the item at `j` when the two are
/// ordered by value and, among equal values, by index.
pub open spec fn index_comes_first<T: Ord>(vec: Seq<T>, i: usize, j: usize) -> bool {
    vec[i as int].is_lt(&vec[j as int]) || (vec[i as int].is_le(&vec[j as int]) && i <= j)
}

/// The pairs `(item, index)` of `vec`.
pub open spec fn indexed<'a, T>(vec: Seq<T>) -> Seq<(&'a T, usize)> {
    Seq::new(vec.len(), |i: int| (&vec[i], i as usize))
}

/// Returns a permutation that sorts the elements of the vector: the `i`th
/// entry of the result is the index of the `i`th smallest element.  Equal
/// elements keep their order.
pub fn sort_perm<T: Ord>(vec: &Vec<T>) -> (r: Vec<usize>)
    requires
        lawful_order::<T>(),
    ensures
        r@.len() == vec@.len(),
        is_permutation(r@),
        forall|i: int, j: int|
            0 <= i < j < r@.len() ==> index_comes_first(vec@, #[trigger] r@[i], #[trigger] r@[j]),
{
    broadcast use vstd::seq_lib::group_to_multiset_ensures;

    let n = vec.len();
    let mut sortand: Vec<(&T, usize)> = Vec::new();
    let mut i: usize = 0;
    while i < n
        invariant
            i <= n,
            n == vec@.len(),
            sortand@ == indexed(vec@).take(i as int),
        decreases n - i,
    {
        sortand.push((&vec[i], i));
        assert(sortand@ =~= indexed(vec@).take(i + 1));
        i += 1;
    }
    assert(sortand@ =~= indexed(vec@));
    proof {
        lemma_pairs_have_lawful_order::<T>();
    }
    let ghost pairs = sortand@;
    sort_vec(&mut sortand);
    let ghost sorted = sortand@;
    proof {
        assert(pairs.no_duplicates());
        pairs.lemma_multiset_has_no_duplicates();
        sorted.lemma_multiset_has_no_duplicates_conv();
    }
    let mut r: Vec<usize> = Vec::new();
    let mut k: usize = 0;
    while k < sortand.len()
        invariant
            k <= sortand@.len(),
            sortand@ == sorted,
            r@.len() == k,
            forall|m: int| 0 <= m < k ==> r@[m] == (#[trigger] sorted[m]).1,
        decreases sortand@.len() - k,
    {
        r.push(sortand[k].1);
        k += 1;
    }
    proof {
        assert(sorted.len() == n) by {
            assert(sorted.to_multiset().len() == pairs.to_multiset().len());
        }
        // every sorted pair is one of the pairs `(vec[m], m)`
        assert forall|m: int| 0 <= m < n implies (#[trigger] sorted[m]).1 < n && *sorted[m].0
            == vec@[sorted[m].1 as int] by {
            assert(sorted.to_multiset().contains(sorted[m]));
            assert(pairs.to_multiset().contains(sorted[m]));
            let w = choose|w: int| 0 <= w < pairs.len() && pairs[w] == sorted[m];
            assert(pairs[w] == (&vec@[w], w as usize));
        }
        assert forall|a: int, b: int| 0 <= a < b < r@.len() implies r@[a] != r@[b]
            && index_comes_first(vec@, #[trigger] r@[a], #[trigger] r@[b]) by {
            assert(sorted[a] != sorted[b]);
            assert(sorted[a].is_le(&sorted[b]));
        }
        assert forall|m: int| 0 <= m < r@.len() implies (#[trigger] r@[m]) < r@.len() by {
            assert(r@[m] == sorted[m].1);
        }
    }
    r
}

/// Pairs of an item and an index are in lawful order if the items are.
proof fn lemma_pairs_have_lawful_order<'a, T: Ord>()
    requires
        lawful_order::<T>(),
    ensures
        lawful_order::<(&'a T, usize)>(),
{
    broadcast use vstd::laws_cmp::group_laws_cmp;
    broadcast use vstd::laws_eq::group_laws_eq;

    reveal(vstd::laws_eq::obeys_eq_spec_properties);
    reveal(vstd::laws_cmp::obeys_partial_cmp_spec_properties);
    reveal(vstd::laws_cmp::obeys_cmp_partial_ord);
    reveal(vstd::laws_cmp::obeys_cmp_ord);
    assert(vstd::laws_cmp::obeys_cmp::<&'a T>());
    assert(vstd::laws_cmp::obeys_cmp::<usize>());
}

/// The vector that `inverse_perm` builds from the first `k` items of `vec`:
/// zero everywhere, except that `vec[i]` is mapped to `i` for each `i < k`;
/// where an index occurs twice, the later occurrence counts.
pub open spec fn inverse_of(vec: Seq<usize>, k: nat) -> Seq<usize>
    decreases k,
{
    if k == 0 {
        Seq::new(vec.len(), |j: int| 0usize)
    } else {
        inverse_of(vec, (k - 1) as nat).update(vec[k - 1] as int, (k - 1) as usize)
    }
}

/// Given a vector of length `n+1` representing a permutation on {0, .., n},
/// returns a vector that represents the inverse permutation.
pub fn inverse_perm(vec: &Vec<usize>) -> (inv_perm: Vec<usize>)
    requires
        indices_below(vec@, vec@.len()),
    ensures
        inv_perm@ == inverse_of(vec@, vec@.len()),
        inv_perm@.len() == vec@.len(),
        is_permutation(vec@) ==> forall|i: int|
            0 <= i < vec@.len() ==> inv_perm@[(#[trigger] vec@[i]) as int] == i,
{
    let n = vec.len();
    let mut inv_perm: Vec<usize> = Vec::new();
    let mut j: usize = 0;
    while j < n
        invariant
            j <= n,
            inv_perm@.len() == j,
            forall|m: int| 0 <= m < j ==> inv_perm@[m] == 0,
        decreases n - j,
    {
        inv_perm.push(0);
        j += 1;
    }
    assert(inv_perm@ =~= inverse_of(vec@, 0));
    let mut ind_count: usize = 0;
    while ind_count < n
        invariant
            ind_count <= n,
            n == vec@.len(),
            indices_below(vec@, vec@.len()),
            inv_perm@.len() == n,
            inv_perm@ == inverse_of(vec@, ind_count as nat),
            is_permutation(vec@) ==> forall|i: int|
                0 <= i < ind_count ==> inv_perm@[(#[trigger] vec@[i]) as int] == i,
        decreases n - ind_count,
    {
        let ind = vec[ind_count];
        inv_perm[ind] = ind_count;
        ind_count += 1;
    }
    inv_perm
}

//  ---------------------------------------------------------------------------
//  WORKING WITH VECTORS
//  ---------------------------------------------------------------------------
//  -----------
//  SUPER INDEX
//  -----------
pub trait SuperIndex<T> where T: Clone {
    /// What `sindex` reads: the item at `index`, if there is one.
    spec fn item_at(&self, index: usize) -> Option<T>;

    /// Return `self[index]` if `index < self.len()`; otherwise return `super_value`.
    fn sindex(&self, index: usize, super_value: T) -> (r: T)
        ensures
            match self.item_at(index) {
                Some(x) => cloned(x, r),
                None => r == super_value,
            },
    ;
}

impl<T> SuperIndex<T> for Vec<T> where T: Clone {
    open spec fn item_at(&self, index: usize) -> Option<T> {
        if index < self@.len() {
            Some(self@[index as int])
        } else {
            None
        }
    }

    fn sindex(&self, index: usize, super_value: T) -> (r: T) {
        if self.len() > index {
            self[index].clone()
        } else {
            super_value
        }
    }
}

//  ----------
//  COMPOSE
//  ----------
/// The composition of `f` after `g`: the vector whose `i`th item is a clone
/// of `f[g[i]]`.
pub fn compose_f_after_g<T: Clone>(f: &Vec<T>, g: &Vec<usize>) -> (r: Vec<T>)
    requires
        indices_below(g@, f@.len()),
    ensures
        r@.len() == g@.len(),
        forall|i: int| 0 <= i < g@.len() ==> cloned(composed(f@, g@)[i], #[trigger] r@[i]),
{
    let mut r: Vec<T> = Vec::new();
    let mut i: usize = 0;
    while i < g.len()
        invariant
            i <= g@.len(),
            indices_below(g@, f@.len()),
            r@.len() == i,
            forall|m: int| 0 <= m < i ==> cloned(composed(f@, g@)[m], #[trigger] r@[m]),
        decreases g@.len() - i,
    {
        let x = g[i];
        r.push(f[x].clone());
        i += 1;
    }
    r
}

//  ----------
//  LAST INDEX
//  ----------
pub trait EndIndex<T> where T: Clone {
    /// The number of items.
    spec fn count(&self) -> nat;

    /// Last ordinal for a vector
    fn end_index(&self) -> (r: Option<usize>)
        ensures
            self.count() == 0 ==> r is None,
            self.count() > 0 ==> r == Some((self.count() - 1) as usize),
    ;
}

impl<T> EndIndex<T> for Vec<T> where T: Clone {
    open spec fn count(&self) -> nat {
        self@.len()
    }

    /// Last ordinal for a vector
    fn end_index(&self) -> (r: Option<usize>) {
        if self.is_empty() {
            None
        } else {
            Some(self.len() - 1)
        }
    }
}

//  ---------------------------------------------------------------------------
//  SUPER VECTORS
//  ---------------------------------------------------------------------------
/// Returns a constant value for all indices greater than the length of the
/// internally stored vector.
#[derive(Clone, Debug, PartialEq)]
pub struct SuperVec<T> {
    pub vec: Vec<T>,
    pub val: T,
}

impl<T> SuperVec<T> where T: Clone {
    /// A clone of the item at `index`, or of the constant value if there is
    /// no such item.
    pub fn val(&self, index: usize) -> (r: T)
        ensures
            index < self.vec@.len() ==> cloned(self.vec@[index as int], r),
            index >= self.vec@.len() ==> cloned(self.val, r),
    {
        if index < self.vec.len() {
            self.vec[index].clone()
        } else {
            self.val.clone()
        }
    }
}

} // verus!
