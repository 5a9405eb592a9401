//! Sequences without repetition, and the ordinals of their items.

use vstd::prelude::*;
use vstd::std_specs::cmp::PartialEqSpec;
use vstd::std_specs::hash::obeys_key_model;
use std::collections::HashMap;
use std::hash::Hash;
use crate::utilities::indexing_and_bijection::{is_sorted, lawful_order, sort_vec};

verus! {

//  ---------------------------------------------------------------------------
//  BIMAPS WITH {0, .., N}
//  ---------------------------------------------------------------------------
/// The greatest index at which `s` holds an item equal to `a`, if there is
/// one.
pub open spec fn last_match<T: PartialEq>(s: Seq<T>, a: T) -> Option<usize>
    decreases s.len(),
{
    if s.len() == 0 {
        None
    } else if s.last().eq_spec(&a) {
        Some((s.len() - 1) as usize)
    } else {
        last_match(s.drop_last(), a)
    }
}

/// Represents a surjective map {0,..,N} -> S and another map S -> {0, .., N}; if
/// one of these maps is a bijection, then the other is its inverse.
///
/// The first map takes `i` to `ord_to_val[i]`.  The second takes a value to
/// the greatest index at which `ord_to_val` holds it.
#[derive(Clone, Debug)]
pub struct BiMapSequential<T> {
    pub ord_to_val: Vec<T>,
}

impl<T> BiMapSequential<T> {
    /// Evaluate the function S -> {0, ..., N}
    pub fn ord(&self, a: &T) -> (r: Option<usize>) where T: PartialEq
        requires
            T::obeys_eq_spec(),
        ensures
            r == last_match(self.ord_to_val@, *a),
    {
        let mut i = self.ord_to_val.len();
        assert(self.ord_to_val@.take(i as int) =~= self.ord_to_val@);
        while i > 0
            invariant
                i <= self.ord_to_val@.len(),
                T::obeys_eq_spec(),
                last_match(self.ord_to_val@, *a) == last_match(self.ord_to_val@.take(i as int), *a),
            decreases i,
        {
            i = i - 1;
            assert(self.ord_to_val@.take(i + 1).drop_last() =~= self.ord_to_val@.take(i as int));
            if self.ord_to_val[i] == *a {
                return Some(i);
            }
        }
        None
    }

    /// Evaluate the function {0, ..., N} -> S
    pub fn val(&self, a: usize) -> (r: Option<T>) where T: Clone
        ensures
            a >= self.ord_to_val@.len() ==> r is None,
            a < self.ord_to_val@.len() ==> r is Some && cloned(self.ord_to_val@[a as int], r->0),
    {
        if a < self.ord_to_val.len() {
            Some(self.ord_to_val[a].clone())
        } else {
            None
        }
    }

    /// Create sequential bimap
    pub fn from_vec(vec: Vec<T>) -> (r: BiMapSequential<T>)
        ensures
            r.ord_to_val == vec,
    {
        BiMapSequential { ord_to_val: vec }
    }
}

//  ---------------------------------------------------------------------------
//  PRIMITIVE ORDINALS
//  ---------------------------------------------------------------------------
/// `s` without the items that equal their predecessor.
pub open spec fn deduped<T: PartialEq>(s: Seq<T>) -> Seq<T>
    decreases s.len(),
{
    if s.len() <= 1 {
        s
    } else if s.last().eq_spec(&s[s.len() - 2]) {
        deduped(s.drop_last())
    } else {
        deduped(s.drop_last()).push(s.last())
    }
}

/// A copy of `v` without the items that equal their predecessor.
fn dedup_consecutive<T: PartialEq + Copy>(v: &Vec<T>) -> (r: Vec<T>)
    requires
        T::obeys_eq_spec(),
    ensures
        r@ == deduped(v@),
{
    let mut r: Vec<T> = Vec::new();
    let mut i: usize = 0;
    assert(v@.take(0) =~= Seq::<T>::empty());
    while i < v.len()
        invariant
            i <= v@.len(),
            T::obeys_eq_spec(),
            r@ == deduped(v@.take(i as int)),
        decreases v@.len() - i,
    {
        let ghost next = v@.take(i + 1);
        assert(next.drop_last() =~= v@.take(i as int));
        if i == 0 || !(v[i] == v[i - 1]) {
            r.push(v[i]);
        }
        i += 1;
    }
    assert(v@.take(v@.len() as int) =~= v@);
    r
}

/// Given a vector of elements of a poset, first sort the vector and delete
/// duplicate entries; the resulting vector represents a bijection from
/// {0, .., n} to the set of unique values in the vector.  Store this new vector
/// in a `BiMapSequential`.
pub fn ordinate_unique_vals<FilRaw>(v: &Vec<FilRaw>) -> (r: BiMapSequential<FilRaw>) where
    FilRaw: Ord + Copy,

    requires
        lawful_order::<FilRaw>(),
        FilRaw::obeys_eq_spec(),
    ensures
        exists|sorted: Seq<FilRaw>|
            {
                &&& is_sorted(sorted)
                &&& sorted.to_multiset() == v@.to_multiset()
                &&& r.ord_to_val@ == #[trigger] deduped(sorted)
            },
{
    let mut a: Vec<FilRaw> = Vec::new();
    let mut i: usize = 0;
    while i < v.len()
        invariant
            i <= v@.len(),
            a@ == v@.take(i as int),
        decreases v@.len() - i,
    {
        a.push(v[i]);
        assert(a@ =~= v@.take(i + 1));
        i += 1;
    }
    assert(a@ =~= v@);
    sort_vec(&mut a);  // sort entries
    let b = dedup_consecutive(&a);  // remove duplicates
    assert(b@ == deduped(a@));
    BiMapSequential { ord_to_val: b }
}

/// The map that takes each item of `s` to the greatest index at which it
/// stands.
pub open spec fn index_map<T>(s: Seq<T>) -> Map<T, usize>
    decreases s.len(),
{
    if s.len() == 0 {
        Map::empty()
    } else {
        index_map(s.drop_last()).insert(s.last(), (s.len() - 1) as usize)
    }
}

/// The hash map that takes each item of `vec` to its index; an item that
/// stands at several indices is taken to the greatest.
pub fn reverse_hash_sequential<T: Hash + Eq + Copy>(vec: &Vec<T>) -> (rev_hash: HashMap<T, usize>)
    requires
        obeys_key_model::<T>(),
    ensures
        rev_hash@ == index_map(vec@),
{
    broadcast use vstd::std_specs::hash::group_hash_axioms;

    let mut rev_hash: HashMap<T, usize> = HashMap::new();
    let mut i: usize = 0;
    assert(vec@.take(0) =~= Seq::<T>::empty());
    while i < vec.len()
        invariant
            i <= vec@.len(),
            obeys_key_model::<T>(),
            rev_hash@ == index_map(vec@.take(i as int)),
        decreases vec@.len() - i,
    {
        assert(vec@.take(i + 1).drop_last() =~= vec@.take(i as int));
        rev_hash.insert(vec[i], i);
        i += 1;
    }
    assert(vec@.take(vec@.len() as int) =~= vec@);
    rev_hash
}

} // verus!
