//! Place a sequence of streams into a **heap of iterators** (HIT); the
//! result is a new stream that returns items in sorted order, *provided
//! that the streams put in are sorted.*
//!
//! New streams can be merged into an existing merged stream.
//!
//! # All you need to know
//!
//! Most people who use this module will only need to use the functions
//! [`hit_merge_ascend`], [`hit_bulk_insert`], etc.
//! The other items in the module are primarily just "internal machinery."

use vstd::prelude::*;
use vstd::multiset::Multiset;
use vstd::std_specs::cmp::{PartialOrdIs, PartialOrdSpec};
use crate::utilities::heaps::heap::{
    heapify_by, heapify_tail_by, heapified, is_ascending, is_heap, is_strict_weak_order,
    lemma_heap_root_is_least, lemma_heapified_is_heap, lemma_heapified_maps, lemma_popped_is_heap,
    lemma_sifted_down, lemma_sifted_down_maps, lemma_sifted_down_restores,
    in_subtree, lemma_everything_below_root, lemma_tail_heapified_is_heap,
    lemma_tail_heapified_permutes, node_in_order, popped, sift_down_by, sifted_down,
    tail_heapified,
};
use crate::utilities::iterators::utility::{
    hacked_size_hint_add, hacked_size_hint_add_scalar, hint_plus, hint_sum, within_hint, Stream,
};

verus! {

//  ---------------------------------------------------------------------------
//  "Predicate" trait for comparison
//  ---------------------------------------------------------------------------
/// A trait with a single function, `ordering_predicate`, which compares two
/// elements.
///
/// The relation that the predicate decides is `precedes`.  A predicate takes
/// part in contracts only while it is `decisive`: while it can be asked about
/// any two elements and answers what `precedes` says.
pub trait OrderingPredicate<T> {
    /// The predicate may be asked about any two elements, and has one answer
    /// for each pair.
    spec fn decisive(&self) -> bool;

    /// The relation the predicate decides: `a` comes strictly before `b`.
    spec fn precedes(&self, a: T, b: T) -> bool;

    /// Whether `a` comes strictly before `b`.
    fn ordering_predicate(&self, a: &T, b: &T) -> (r: bool)
        requires
            self.decisive(),
        ensures
            r == self.precedes(*a, *b),
    ;
}

/// The relation that `less_than` decides, as a function of two elements.
pub open spec fn relation_of<T, S: OrderingPredicate<T>>(less_than: S) -> spec_fn(T, T) -> bool {
    |a: T, b: T| less_than.precedes(a, b)
}

//  Less-than
//  ---------
/// Empty struct representing the "less than" relation; used exclusively by
/// `hit_merge_ascend`.
#[derive(Clone, Copy, Debug)]
pub struct HitOrderLt;

impl<T: PartialOrd> OrderingPredicate<T> for HitOrderLt {
    open spec fn decisive(&self) -> bool {
        T::obeys_partial_cmp_spec()
    }

    open spec fn precedes(&self, a: T, b: T) -> bool {
        a.is_lt(&b)
    }

    fn ordering_predicate(&self, a: &T, b: &T) -> (r: bool) {
        a < b
    }
}

//  Greater-than
//  ------------
/// Empty struct representing the "greater than" relation; used exclusively by
/// `hit_merge_descend`.
#[derive(Clone, Copy, Debug)]
pub struct HitOrderGt;

impl<T: PartialOrd> OrderingPredicate<T> for HitOrderGt {
    open spec fn decisive(&self) -> bool {
        T::obeys_partial_cmp_spec()
    }

    open spec fn precedes(&self, a: T, b: T) -> bool {
        a.is_gt(&b)
    }

    fn ordering_predicate(&self, a: &T, b: &T) -> (r: bool) {
        a > b
    }
}

//  Closures
//  --------
impl<T, F: Fn(&T, &T) -> bool> OrderingPredicate<T> for F {
    /// The closure accepts every pair, and never has both answers for one.
    open spec fn decisive(&self) -> bool {
        &&& forall|a: T, b: T| #[trigger] call_requires(*self, (&a, &b))
        &&& forall|a: T, b: T|
            !(#[trigger] call_ensures(*self, (&a, &b), true) && call_ensures(
                *self,
                (&a, &b),
                false,
            ))
    }

    open spec fn precedes(&self, a: T, b: T) -> bool {
        call_ensures(*self, (&a, &b), true)
    }

    fn ordering_predicate(&self, a: &T, b: &T) -> (r: bool) {
        self(a, b)
    }
}

/// A closure that accepts every pair of elements, and has one answer for
/// each, is decisive.
pub proof fn closure_is_decisive<T, F: Fn(&T, &T) -> bool>(f: F)
    requires
        forall|a: T, b: T| #[trigger] call_requires(f, (&a, &b)),
        forall|a: T, b: T|
            !(#[trigger] call_ensures(f, (&a, &b), true) && call_ensures(f, (&a, &b), false)),
    ensures
        f.decisive(),
{
}

//  ---------------------------------------------------------------------------
//  WHAT A MERGE YIELDS
//  ---------------------------------------------------------------------------
//  The state of a merge is described by its *slots*: for each stream in the
//  heap, the items which that stream has yet to contribute, none of them
//  empty.
/// The order on slots: a slot precedes another if its first item does.
pub open spec fn by_first<T>(lt: spec_fn(T, T) -> bool) -> spec_fn(Seq<T>, Seq<T>) -> bool {
    |a: Seq<T>, b: Seq<T>| lt(a[0], b[0])
}

/// No slot is empty.
pub open spec fn slots_nonempty<T>(slots: Seq<Seq<T>>) -> bool {
    forall|k: int| 0 <= k < slots.len() ==> (#[trigger] slots[k]).len() > 0
}

/// Every slot is in ascending order.
pub open spec fn slots_ascending<T>(lt: spec_fn(T, T) -> bool, slots: Seq<Seq<T>>) -> bool {
    forall|k: int|
        0 <= k < slots.len() ==> forall|i: int, j: int|
            0 <= i < j < (#[trigger] slots[k]).len() ==> !lt(slots[k][j], slots[k][i])
}

/// All the items of all the slots.
pub open spec fn all_items<T>(slots: Seq<Seq<T>>) -> Multiset<T>
    decreases slots.len(),
{
    if slots.len() == 0 {
        Multiset::empty()
    } else {
        all_items(slots.drop_last()).add(slots.last().to_multiset())
    }
}

/// The slots after the first item of the first slot has been taken: the
/// first slot loses its first item or, if that empties it, gives way to the
/// last slot; then the new first slot is sifted down.
pub open spec fn after_taking_first<T>(lt: spec_fn(T, T) -> bool, slots: Seq<Seq<T>>) -> Seq<
    Seq<T>,
>
    recommends
        slots.len() > 0,
{
    if slots[0].len() > 1 {
        sifted_down(by_first(lt), slots.update(0, slots[0].skip(1)), 0)
    } else {
        popped(by_first(lt), slots)
    }
}

/// The items that a merge in state `slots` hands out, in order: again and
/// again the first item of the first slot.
pub open spec fn merged<T>(lt: spec_fn(T, T) -> bool, slots: Seq<Seq<T>>) -> Seq<T>
    decreases all_items(slots).len(),
    when slots_nonempty(slots)
{
    if slots.len() == 0 {
        Seq::empty()
    } else {
        proof {
            lemma_after_taking_first(lt, slots);
        }
        seq![slots[0][0]] + merged(lt, after_taking_first(lt, slots))
    }
}

/// The slots made of the streams of `streams` that are not empty.
pub open spec fn nonempty_slots<T>(streams: Seq<Seq<T>>) -> Seq<Seq<T>> {
    streams.filter(|s: Seq<T>| s.len() > 0)
}

/// The slots after the streams `streams` have been inserted in bulk: those
/// that are not empty are appended, and the tail is heapified.
pub open spec fn bulk_inserted<T>(
    lt: spec_fn(T, T) -> bool,
    slots: Seq<Seq<T>>,
    streams: Seq<Seq<T>>,
) -> Seq<Seq<T>> {
    tail_heapified(by_first(lt), slots + nonempty_slots(streams), slots.len() as int)
}

//  ---------------------------------------------------------------------------
//  LEMMAS ON SLOTS
//  ---------------------------------------------------------------------------
/// Removing a slot removes its items.
pub proof fn lemma_all_items_remove<T>(slots: Seq<Seq<T>>, i: int)
    requires
        0 <= i < slots.len(),
    ensures
        all_items(slots.remove(i)).add(slots[i].to_multiset()) == all_items(slots),
    decreases slots.len(),
{
    broadcast use vstd::multiset::group_multiset_axioms;

    if i == slots.len() - 1 {
        assert(slots.remove(i) =~= slots.drop_last());
    } else {
        lemma_all_items_remove(slots.drop_last(), i);
        assert(slots.remove(i).drop_last() =~= slots.drop_last().remove(i));
        assert(slots.remove(i).last() == slots.last());
        assert(all_items(slots.remove(i)).add(slots[i].to_multiset()) =~= all_items(slots));
    }
}

/// The items of all the slots do not depend on the order of the slots.
pub proof fn lemma_all_items_permutation<T>(a: Seq<Seq<T>>, b: Seq<Seq<T>>)
    requires
        a.to_multiset() == b.to_multiset(),
    ensures
        all_items(a) == all_items(b),
    decreases a.len(),
{
    broadcast use vstd::seq_lib::group_to_multiset_ensures;
    broadcast use vstd::multiset::group_multiset_axioms;

    if a.len() == 0 {
        assert(b.to_multiset().len() == 0);
        assert(b.len() == 0);
    } else {
        let x = a.last();
        assert(a.to_multiset().contains(x));
        assert(b.to_multiset().contains(x));
        let i = choose|i: int| 0 <= i < b.len() && b[i] == x;
        assert(a.drop_last() =~= a.remove(a.len() - 1));
        vstd::seq_lib::to_multiset_remove(a, a.len() - 1);
        vstd::seq_lib::to_multiset_remove(b, i);
        lemma_all_items_permutation(a.drop_last(), b.remove(i));
        lemma_all_items_remove(b, i);
    }
}

/// An item is among the items of the slots iff it stands in some slot.
pub proof fn lemma_all_items_contains<T>(slots: Seq<Seq<T>>, x: T)
    ensures
        all_items(slots).contains(x) <==> exists|k: int, i: int|
            0 <= k < slots.len() && 0 <= i < slots[k].len() && #[trigger] slots[k][i] == x,
    decreases slots.len(),
{
    broadcast use vstd::seq_lib::group_to_multiset_ensures;
    broadcast use vstd::multiset::group_multiset_axioms;

    if slots.len() > 0 {
        let front = slots.drop_last();
        lemma_all_items_contains(front, x);
        if all_items(slots).contains(x) {
            if slots.last().to_multiset().contains(x) {
                let i = choose|i: int| 0 <= i < slots.last().len() && slots.last()[i] == x;
                assert(slots[slots.len() - 1][i] == x);
            } else {
                assert(all_items(front).contains(x));
                let (k, i) = choose|k: int, i: int|
                    0 <= k < front.len() && 0 <= i < front[k].len() && #[trigger] front[k][i] == x;
                assert(slots[k][i] == x);
            }
        }
        if exists|k: int, i: int|
            0 <= k < slots.len() && 0 <= i < slots[k].len() && #[trigger] slots[k][i] == x {
            let (k, i) = choose|k: int, i: int|
                0 <= k < slots.len() && 0 <= i < slots[k].len() && #[trigger] slots[k][i] == x;
            if k == slots.len() - 1 {
                assert(slots.last().to_multiset().contains(x));
            } else {
                assert(front[k][i] == x);
            }
        }
    }
}

/// Taking the first item of the first slot removes just that item, and
/// leaves no slot empty.
pub proof fn lemma_after_taking_first<T>(lt: spec_fn(T, T) -> bool, slots: Seq<Seq<T>>)
    requires
        slots.len() > 0,
        slots_nonempty(slots),
    ensures
        all_items(after_taking_first(lt, slots)).insert(slots[0][0]) == all_items(slots),
        all_items(after_taking_first(lt, slots)).len() + 1 == all_items(slots).len(),
        slots_nonempty(after_taking_first(lt, slots)),
        forall|k: int|
            0 <= k < after_taking_first(lt, slots).len() ==> {
                let slot = #[trigger] after_taking_first(lt, slots)[k];
                slot == slots[0].skip(1) || exists|j: int| 0 < j < slots.len() && slots[j] == slot
            },
{
    broadcast use vstd::seq_lib::group_to_multiset_ensures;
    broadcast use vstd::multiset::group_multiset_axioms;

    let first = slots[0];
    let after = after_taking_first(lt, slots);
    let before_sift = if first.len() > 1 {
        slots.update(0, first.skip(1))
    } else {
        slots.update(0, slots.last()).drop_last()
    };
    lemma_sifted_down(by_first(lt), before_sift, 0);
    lemma_all_items_permutation(after, before_sift);
    lemma_all_items_remove(slots, 0);
    assert(first =~= seq![first[0]] + first.skip(1));
    vstd::seq_lib::lemma_multiset_commutative(seq![first[0]], first.skip(1));
    assert(seq![first[0]].to_multiset() =~= Multiset::singleton(first[0]));
    if first.len() > 1 {
        lemma_all_items_remove(before_sift, 0);
        assert(before_sift.remove(0) =~= slots.remove(0));
        assert(all_items(before_sift).insert(first[0]) =~= all_items(slots));
    } else {
        assert(first.skip(1) =~= Seq::<T>::empty());
        if slots.len() == 1 {
            assert(before_sift =~= Seq::<Seq<T>>::empty());
            assert(slots.remove(0) =~= Seq::<Seq<T>>::empty());
        } else {
            // the last slot has moved to the front
            let rest = slots.remove(0);
            assert(before_sift.remove(0) =~= rest.drop_last());
            lemma_all_items_remove(before_sift, 0);
            assert(rest.last() == slots.last());
            assert(all_items(before_sift) =~= all_items(rest));
        }
        assert(all_items(before_sift).insert(first[0]) =~= all_items(slots));
    }
    assert forall|k: int| 0 <= k < after.len() implies {
        let slot = #[trigger] after[k];
        (slot == first.skip(1) || exists|j: int| 0 < j < slots.len() && slots[j] == slot)
            && slot.len() > 0
    } by {
        let slot = after[k];
        assert(after.to_multiset().contains(slot));
        assert(before_sift.to_multiset().contains(slot));
        let j = choose|j: int| 0 <= j < before_sift.len() && before_sift[j] == slot;
        if first.len() > 1 {
            if j > 0 {
                assert(slots[j] == slot);
            }
        } else {
            if j == 0 {
                assert(slots[slots.len() - 1] == slot);
            } else {
                assert(slots[j] == slot);
            }
        }
    }
    assert(all_items(after).insert(first[0]).len() == all_items(after).len() + 1);
}

//  ---------------------------------------------------------------------------
//  LAWS
//  ---------------------------------------------------------------------------
/// `lt` is a strict total order: a strict weak order in which two items that
/// do not precede one another are equal.
pub open spec fn is_strict_total_order<T>(lt: spec_fn(T, T) -> bool) -> bool {
    &&& is_strict_weak_order(lt)
    &&& forall|a: T, b: T| !#[trigger] lt(a, b) && !lt(b, a) ==> a == b
}

/// If the items are in a strict weak order, so are the slots.
pub proof fn lemma_by_first_is_strict_weak_order<T>(lt: spec_fn(T, T) -> bool)
    requires
        is_strict_weak_order(lt),
    ensures
        is_strict_weak_order(by_first(lt)),
{
    let order = by_first(lt);
    assert forall|a: Seq<T>, b: Seq<T>| #[trigger] order(a, b) implies !order(b, a) by {
        assert(lt(a[0], b[0]));
    }
    assert forall|a: Seq<T>, b: Seq<T>, c: Seq<T>|
        #![trigger order(a, b), order(b, c)]
        order(a, b) && order(b, c) implies order(a, c) by {
        assert(lt(a[0], b[0]) && lt(b[0], c[0]));
    }
    assert forall|a: Seq<T>, b: Seq<T>, c: Seq<T>|
        #![trigger order(a, b), order(b, c)]
        !order(a, b) && !order(b, c) implies !order(a, c) by {
        assert(!lt(a[0], b[0]) && !lt(b[0], c[0]));
    }
}

/// A merge loses no item and invents none, whatever the order of its inputs:
/// it hands out exactly the items of its slots.
pub proof fn lemma_merged_permutes<T>(lt: spec_fn(T, T) -> bool, slots: Seq<Seq<T>>)
    requires
        slots_nonempty(slots),
    ensures
        merged(lt, slots).to_multiset() == all_items(slots),
        merged(lt, slots).len() == all_items(slots).len(),
    decreases all_items(slots).len(),
{
    broadcast use vstd::seq_lib::group_to_multiset_ensures;
    broadcast use vstd::multiset::group_multiset_axioms;

    let out = merged(lt, slots);
    if slots.len() > 0 {
        let after = after_taking_first(lt, slots);
        lemma_after_taking_first(lt, slots);
        lemma_merged_permutes(lt, after);
        let rest = merged(lt, after);
        vstd::seq_lib::lemma_multiset_commutative(seq![slots[0][0]], rest);
        assert(seq![slots[0][0]].to_multiset() =~= Multiset::singleton(slots[0][0]));
        assert(out.to_multiset() =~= all_items(slots));
    } else {
        assert(out.to_multiset() =~= all_items(slots));
    }
}

/// Taking the first item of an ordered heap of slots leaves an ordered heap.
pub proof fn lemma_after_taking_first_keeps_heap<T>(lt: spec_fn(T, T) -> bool, slots: Seq<Seq<T>>)
    requires
        is_strict_weak_order(lt),
        slots.len() > 0,
        slots_nonempty(slots),
        is_heap(by_first(lt), slots),
    ensures
        is_heap(by_first(lt), after_taking_first(lt, slots)),
{
    let order = by_first(lt);
    let after = after_taking_first(lt, slots);
    lemma_by_first_is_strict_weak_order(lt);
    if slots[0].len() > 1 {
        let shortened = slots.update(0, slots[0].skip(1));
        assert forall|j: int|
            0 <= j < shortened.len() && in_subtree(0, j) && j != 0 implies #[trigger] node_in_order(
            order,
            shortened,
            j,
        ) by {
            assert(node_in_order(order, slots, j));
        }
        lemma_sifted_down_restores(order, shortened, 0);
        lemma_sifted_down(order, shortened, 0);
        assert forall|j: int| 0 <= j < after.len() implies #[trigger] node_in_order(
            order,
            after,
            j,
        ) by {
            lemma_everything_below_root(j);
        }
    } else {
        lemma_popped_is_heap(order, slots);
    }
}

/// Taking the first item of an ordered heap of ascending slots leaves an
/// ordered heap of ascending slots, all of whose items the taken item
/// precedes or equals.
pub proof fn lemma_after_taking_first_is_heap<T>(lt: spec_fn(T, T) -> bool, slots: Seq<Seq<T>>)
    requires
        is_strict_weak_order(lt),
        slots.len() > 0,
        slots_nonempty(slots),
        slots_ascending(lt, slots),
        is_heap(by_first(lt), slots),
    ensures
        slots_nonempty(after_taking_first(lt, slots)),
        slots_ascending(lt, after_taking_first(lt, slots)),
        is_heap(by_first(lt), after_taking_first(lt, slots)),
        forall|y: T| #[trigger] all_items(slots).contains(y) ==> !lt(y, slots[0][0]),
{
    let order = by_first(lt);
    let after = after_taking_first(lt, slots);
    lemma_after_taking_first(lt, slots);
    lemma_after_taking_first_keeps_heap(lt, slots);
    lemma_by_first_is_strict_weak_order(lt);
    assert forall|k: int| 0 <= k < after.len() implies forall|i: int, j: int|
        0 <= i < j < (#[trigger] after[k]).len() ==> !lt(after[k][j], after[k][i]) by {
        let slot = after[k];
        if slot == slots[0].skip(1) {
            assert forall|i: int, j: int| 0 <= i < j < slot.len() implies !lt(slot[j], slot[i]) by {
                assert(slot[j] == slots[0][j + 1] && slot[i] == slots[0][i + 1]);
            }
        } else {
            let j = choose|j: int| 0 < j < slots.len() && slots[j] == slot;
            assert(slots[j] == slot);
        }
    }
    assert forall|y: T| #[trigger] all_items(slots).contains(y) implies !lt(y, slots[0][0]) by {
        lemma_all_items_contains(slots, y);
        let (k, i) = choose|k: int, i: int|
            0 <= k < slots.len() && 0 <= i < slots[k].len() && #[trigger] slots[k][i] == y;
        lemma_heap_root_is_least(order, slots, k);
        assert(!lt(slots[k][0], slots[0][0]));
        if i > 0 {
            assert(!lt(slots[k][i], slots[k][0]));
        }
    }
}

/// If every slot is in ascending order and the
/// heap is ordered, the merge hands out the items of the slots in ascending
/// order.
pub proof fn lemma_merged_is_sorted<T>(lt: spec_fn(T, T) -> bool, slots: Seq<Seq<T>>)
    requires
        is_strict_weak_order(lt),
        slots_nonempty(slots),
        slots_ascending(lt, slots),
        is_heap(by_first(lt), slots),
    ensures
        is_ascending(lt, merged(lt, slots)),
        merged(lt, slots).to_multiset() == all_items(slots),
    decreases all_items(slots).len(),
{
    broadcast use vstd::seq_lib::group_to_multiset_ensures;
    broadcast use vstd::multiset::group_multiset_axioms;

    let out = merged(lt, slots);
    lemma_merged_permutes(lt, slots);
    if slots.len() > 0 {
        let after = after_taking_first(lt, slots);
        lemma_after_taking_first(lt, slots);
        lemma_after_taking_first_is_heap(lt, slots);
        lemma_merged_is_sorted(lt, after);
        let rest = merged(lt, after);
        assert forall|i: int, j: int| 0 <= i < j < out.len() implies !lt(out[j], out[i]) by {
            if i == 0 {
                assert(rest.to_multiset().contains(rest[j - 1]));
                assert(all_items(slots).contains(out[j]));
            } else {
                assert(out[i] == rest[i - 1] && out[j] == rest[j - 1]);
            }
        }
    }
}

/// The streams that are not empty hold all the items.
pub proof fn lemma_nonempty_slots<T>(streams: Seq<Seq<T>>)
    ensures
        slots_nonempty(nonempty_slots(streams)),
        all_items(nonempty_slots(streams)) == all_items(streams),
        forall|k: int|
            0 <= k < nonempty_slots(streams).len() ==> streams.contains(
                #[trigger] nonempty_slots(streams)[k],
            ),
    decreases streams.len(),
{
    broadcast use vstd::seq_lib::group_to_multiset_ensures;
    broadcast use vstd::multiset::group_multiset_axioms;

    let keep = |s: Seq<T>| s.len() > 0;
    let out = nonempty_slots(streams);
    if streams.len() == 0 {
        assert(streams.filter(keep) =~= streams) by {
            reveal(Seq::filter);
        }
    } else {
        let front = streams.drop_last();
        let kept = nonempty_slots(front);
        lemma_nonempty_slots(front);
        assert(front.push(streams.last()) =~= streams);
        front.lemma_filter_push(streams.last(), keep);
        if keep(streams.last()) {
            assert(out.drop_last() =~= kept);
            assert(out.last() == streams.last());
        } else {
            assert(streams.last().to_multiset() =~= Multiset::empty());
            assert(all_items(streams) =~= all_items(front));
        }
        assert forall|k: int| 0 <= k < out.len() implies (#[trigger] out[k]).len() > 0
            && streams.contains(out[k]) by {
            if k < kept.len() {
                assert(out[k] == kept[k]);
                assert(front.contains(kept[k]));
                let j = choose|j: int| 0 <= j < front.len() && front[j] == kept[k];
                assert(streams[j] == out[k]);
            } else {
                assert(streams[streams.len() - 1] == out[k]);
            }
        }
    }
}

/// The merge of ascending streams is ascending,
/// and holds exactly the items of the streams.
pub proof fn merge_preserves_order<T>(lt: spec_fn(T, T) -> bool, streams: Seq<Seq<T>>)
    requires
        is_strict_weak_order(lt),
        slots_ascending(lt, streams),
    ensures
        is_ascending(lt, merged(lt, heapified(by_first(lt), nonempty_slots(streams)))),
        merged(lt, heapified(by_first(lt), nonempty_slots(streams))).to_multiset() == all_items(
            streams,
        ),
{
    let slots = nonempty_slots(streams);
    lemma_nonempty_slots(streams);
    lemma_by_first_is_strict_weak_order(lt);
    lemma_heapified_is_heap(by_first(lt), slots);
    lemma_rearranged_slots(lt, slots, heapified(by_first(lt), slots));
    lemma_merged_is_sorted(lt, heapified(by_first(lt), slots));
}

/// The case of two streams: the merge of ascending `a` and
/// `b` is ascending and, as a multiset, the union of `a` and `b`.
pub proof fn merge_of_two_preserves_order<T>(lt: spec_fn(T, T) -> bool, a: Seq<T>, b: Seq<T>)
    requires
        is_strict_weak_order(lt),
        is_ascending(lt, a),
        is_ascending(lt, b),
    ensures
        is_ascending(lt, merged(lt, heapified(by_first(lt), nonempty_slots(seq![a, b])))),
        merged(lt, heapified(by_first(lt), nonempty_slots(seq![a, b]))).to_multiset()
            == a.to_multiset().add(b.to_multiset()),
{
    broadcast use vstd::multiset::group_multiset_axioms;

    let streams = seq![a, b];
    merge_preserves_order(lt, streams);
    assert(streams.drop_last() =~= seq![a]);
    assert(seq![a].drop_last() =~= Seq::<Seq<T>>::empty());
    reveal_with_fuel(all_items, 3);
    assert(all_items(streams) =~= a.to_multiset().add(b.to_multiset()));
}

/// Two ascending sequences with the same items are the same sequence, if the
/// order is total.
pub proof fn lemma_ascending_is_unique<T>(lt: spec_fn(T, T) -> bool, x: Seq<T>, y: Seq<T>)
    requires
        is_strict_total_order(lt),
        is_ascending(lt, x),
        is_ascending(lt, y),
        x.to_multiset() == y.to_multiset(),
    ensures
        x == y,
{
    let leq = |a: T, b: T| !lt(b, a);
    assert(vstd::relations::total_ordering(leq)) by {
        assert forall|a: T| #[trigger] leq(a, a) by {
            if lt(a, a) {
                assert(!lt(a, a));
            }
        }
        assert forall|a: T, b: T| #[trigger] leq(a, b) && #[trigger] leq(b, a) implies a == b by {
            assert(!lt(b, a) && !lt(a, b));
        }
        assert forall|a: T, b: T, c: T| #[trigger] leq(a, b) && #[trigger] leq(b, c) implies leq(
            a,
            c,
        ) by {
            assert(!lt(c, b) && !lt(b, a));
        }
        assert forall|a: T, b: T| #[trigger] leq(a, b) || #[trigger] leq(b, a) by {
            if lt(b, a) {
                assert(!lt(a, b));
            }
        }
    }
    assert(vstd::relations::sorted_by(x, leq));
    assert(vstd::relations::sorted_by(y, leq));
    vstd::seq_lib::lemma_sorted_unique(x, y, leq);
}

/// The items of two runs of slots are those of the one and those of the
/// other.
pub proof fn lemma_all_items_add<T>(a: Seq<Seq<T>>, b: Seq<Seq<T>>)
    ensures
        all_items(a + b) == all_items(a).add(all_items(b)),
    decreases b.len(),
{
    broadcast use vstd::multiset::group_multiset_axioms;

    if b.len() == 0 {
        assert(a + b =~= a);
        assert(all_items(a + b) =~= all_items(a).add(all_items(b)));
    } else {
        lemma_all_items_add(a, b.drop_last());
        assert((a + b).drop_last() =~= a + b.drop_last());
        assert((a + b).last() == b.last());
        assert(all_items(a + b) =~= all_items(a).add(all_items(b)));
    }
}

/// Inserting ascending streams in bulk into an ordered heap of ascending
/// slots leaves an ordered heap of ascending slots, which holds the old
/// items and the new.
pub proof fn lemma_bulk_inserted_is_heap<T>(
    lt: spec_fn(T, T) -> bool,
    slots: Seq<Seq<T>>,
    streams: Seq<Seq<T>>,
)
    requires
        is_strict_weak_order(lt),
        slots_nonempty(slots),
        slots_ascending(lt, slots),
        is_heap(by_first(lt), slots),
        slots_ascending(lt, streams),
    ensures
        slots_nonempty(bulk_inserted(lt, slots, streams)),
        slots_ascending(lt, bulk_inserted(lt, slots, streams)),
        is_heap(by_first(lt), bulk_inserted(lt, slots, streams)),
        all_items(bulk_inserted(lt, slots, streams)) == all_items(slots).add(all_items(streams)),
{
    let added = nonempty_slots(streams);
    let appended = slots + added;
    lemma_nonempty_slots(streams);
    lemma_by_first_is_strict_weak_order(lt);
    assert(appended.take(slots.len() as int) =~= slots);
    lemma_tail_heapified_is_heap(by_first(lt), appended, slots.len() as int);
    lemma_all_items_add(slots, added);
    assert(slots_nonempty(appended));
    assert forall|k: int| 0 <= k < appended.len() implies forall|i: int, j: int|
        0 <= i < j < (#[trigger] appended[k]).len() ==> !lt(appended[k][j], appended[k][i]) by {
        if k >= slots.len() {
            let slot = added[k - slots.len()];
            assert(streams.contains(slot));
            let j = choose|j: int| 0 <= j < streams.len() && streams[j] == slot;
            assert(streams[j] == appended[k]);
        } else {
            assert(appended[k] == slots[k]);
        }
    }
    lemma_rearranged_slots(lt, appended, bulk_inserted(lt, slots, streams));
}

/// Inserting streams in bulk adds their items to those of the slots, and
/// leaves no slot empty, whatever the order of the items.
pub proof fn lemma_bulk_inserted_items<T>(
    lt: spec_fn(T, T) -> bool,
    slots: Seq<Seq<T>>,
    streams: Seq<Seq<T>>,
)
    requires
        slots_nonempty(slots),
    ensures
        slots_nonempty(bulk_inserted(lt, slots, streams)),
        all_items(bulk_inserted(lt, slots, streams)) == all_items(slots).add(all_items(streams)),
{
    let added = nonempty_slots(streams);
    let appended = slots + added;
    lemma_nonempty_slots(streams);
    lemma_all_items_add(slots, added);
    lemma_tail_heapified_permutes(by_first(lt), appended, slots.len() as int);
    assert(slots_nonempty(appended));
    lemma_rearranged_slots(lt, appended, bulk_inserted(lt, slots, streams));
}

/// Inserting in batches keeps the items: inserting streams in two
/// batches yields a merged stream with the same items as inserting all of
/// them in one batch, whatever the order of the items.
pub proof fn bulk_insert_in_batches_keeps_items<T>(
    lt: spec_fn(T, T) -> bool,
    slots: Seq<Seq<T>>,
    first: Seq<Seq<T>>,
    second: Seq<Seq<T>>,
)
    requires
        slots_nonempty(slots),
    ensures
        merged(lt, bulk_inserted(lt, bulk_inserted(lt, slots, first), second)).to_multiset()
            == merged(lt, bulk_inserted(lt, slots, first + second)).to_multiset(),
{
    broadcast use vstd::multiset::group_multiset_axioms;

    let one = bulk_inserted(lt, slots, first);
    let two = bulk_inserted(lt, one, second);
    let all = bulk_inserted(lt, slots, first + second);
    lemma_bulk_inserted_items(lt, slots, first);
    lemma_bulk_inserted_items(lt, one, second);
    lemma_bulk_inserted_items(lt, slots, first + second);
    lemma_all_items_add(first, second);
    assert(all_items(two) =~= all_items(all));
    lemma_merged_permutes(lt, two);
    lemma_merged_permutes(lt, all);
}

/// Inserting in batches keeps the order: inserting ascending streams in two batches
/// yields the same merged stream, item for item, as inserting all of them
/// in one batch, provided the order is total.
pub proof fn bulk_insert_in_batches_is_bulk_insert<T>(
    lt: spec_fn(T, T) -> bool,
    slots: Seq<Seq<T>>,
    first: Seq<Seq<T>>,
    second: Seq<Seq<T>>,
)
    requires
        is_strict_total_order(lt),
        slots_nonempty(slots),
        slots_ascending(lt, slots),
        is_heap(by_first(lt), slots),
        slots_ascending(lt, first),
        slots_ascending(lt, second),
    ensures
        merged(lt, bulk_inserted(lt, bulk_inserted(lt, slots, first), second)) == merged(
            lt,
            bulk_inserted(lt, slots, first + second),
        ),
{
    broadcast use vstd::multiset::group_multiset_axioms;

    let one = bulk_inserted(lt, slots, first);
    let two = bulk_inserted(lt, one, second);
    let all = bulk_inserted(lt, slots, first + second);
    lemma_bulk_inserted_is_heap(lt, slots, first);
    lemma_bulk_inserted_is_heap(lt, one, second);
    assert(slots_ascending(lt, first + second)) by {
        assert forall|k: int| 0 <= k < (first + second).len() implies forall|i: int, j: int|
            0 <= i < j < (#[trigger] (first + second)[k]).len() ==> !lt(
                (first + second)[k][j],
                (first + second)[k][i],
            ) by {
            if k < first.len() {
                assert((first + second)[k] == first[k]);
            } else {
                assert((first + second)[k] == second[k - first.len()]);
            }
        }
    }
    lemma_bulk_inserted_is_heap(lt, slots, first + second);
    lemma_all_items_add(first, second);
    assert(all_items(two) =~= all_items(all));
    lemma_merged_is_sorted(lt, two);
    lemma_merged_is_sorted(lt, all);
    lemma_ascending_is_unique(lt, merged(lt, two), merged(lt, all));
}

/// Rearranged slots hold the same items; they are nonempty and ascending if
/// they were so before.
pub proof fn lemma_rearranged_slots<T>(lt: spec_fn(T, T) -> bool, a: Seq<Seq<T>>, b: Seq<Seq<T>>)
    requires
        a.to_multiset() == b.to_multiset(),
    ensures
        all_items(a) == all_items(b),
        slots_nonempty(a) ==> slots_nonempty(b),
        slots_ascending(lt, a) ==> slots_ascending(lt, b),
{
    broadcast use vstd::seq_lib::group_to_multiset_ensures;

    lemma_all_items_permutation(a, b);
    assert forall|k: int| 0 <= k < b.len() implies exists|j: int|
        0 <= j < a.len() && a[j] == #[trigger] b[k] by {
        assert(b.to_multiset().contains(b[k]));
        assert(a.to_multiset().contains(b[k]));
    }
    if slots_nonempty(a) {
        assert forall|k: int| 0 <= k < b.len() implies (#[trigger] b[k]).len() > 0 by {
            let j = choose|j: int| 0 <= j < a.len() && a[j] == b[k];
            assert(a[j].len() > 0);
        }
    }
    if slots_ascending(lt, a) {
        assert forall|k: int| 0 <= k < b.len() implies forall|i: int, j: int|
            0 <= i < j < (#[trigger] b[k]).len() ==> !lt(b[k][j], b[k][i]) by {
            let j = choose|j: int| 0 <= j < a.len() && a[j] == b[k];
            assert(a[j] == b[k]);
        }
    }
}

//  ---------------------------------------------------------------------------
//  HEAD/TAIL
//  ---------------------------------------------------------------------------
/// Stream wrapper having two fields: `head` (an item) and `tail` (a stream).
///
/// If a stream represents a sequence of elements, then `head` corresponds
/// to the first element, and `tail` corresponds to the sequence of all
/// remaining elements.
#[derive(Debug, Clone)]
pub struct HeadTail<I> where I: Stream {
    pub head: I::Item,
    pub tail: I,
}

impl<I> HeadTail<I> where I: Stream {
    /// The items of the wrapped sequence: the head, then what the tail yields.
    pub open spec fn items(&self) -> Seq<I::Item> {
        seq![self.head] + self.tail.remaining()
    }

    /// Constructs a `HeadTail` from a stream. Returns `None` if the stream is
    /// empty.
    pub fn new(it: I) -> (r: Option<HeadTail<I>>)
        requires
            it.valid(),
        ensures
            match r {
                Some(ht) => ht.tail.valid() && ht.items() == it.remaining(),
                None => it.remaining().len() == 0,
            },
    {
        let mut it = it;
        let ghost all = it.remaining();
        let head = it.next();
        match head {
            Some(h) => {
                assert(seq![h] + it.remaining() =~= all);
                Some(HeadTail { head: h, tail: it })
            },
            None => None,
        }
    }

    /// Get the next element and update `head`, returning the old head in `Some`.
    ///
    /// Returns `None` when the tail is exhausted (only `head` then remains).
    pub fn next(&mut self) -> (r: Option<I::Item>)
        requires
            old(self).tail.valid(),
        ensures
            final(self).tail.valid(),
            old(self).tail.remaining().len() > 0 ==> {
                &&& r == Some(old(self).head)
                &&& final(self).items() == old(self).tail.remaining()
            },
            old(self).tail.remaining().len() == 0 ==> {
                &&& r is None
                &&& final(self).head == old(self).head
                &&& final(self).tail.remaining() == old(self).tail.remaining()
            },
    {
        if let Some(next) = self.tail.next() {
            let mut next = next;
            std::mem::swap(&mut self.head, &mut next);
            assert(seq![self.head] + self.tail.remaining() =~= old(self).tail.remaining());
            Some(next)
        } else {
            None
        }
    }

    /// What `size_hint` reports: the hint of the tail, increased by one for
    /// the head.
    pub open spec fn hint(&self) -> (usize, Option<usize>) {
        hint_plus(self.tail.hint(), 1)
    }

    /// Hints at the size of the sequence, same as the `Stream` method.
    pub fn size_hint(&self) -> (r: (usize, Option<usize>))
        requires
            self.tail.valid(),
        ensures
            r == self.hint(),
            within_hint(self.items().len(), r),
    {
        hacked_size_hint_add_scalar(self.tail.size_hint(), 1)
    }
}

/// The hints of the streams of a heap, added up from the first to the last;
/// zero items for an empty heap.
pub open spec fn summed_hints<I: Stream>(heap: Seq<HeadTail<I>>) -> (usize, Option<usize>)
    decreases heap.len(),
{
    if heap.len() == 0 {
        (0, Some(0))
    } else {
        hint_sum(summed_hints(heap.drop_last()), heap.last().hint())
    }
}

/// The function that takes a `HeadTail` to its items.
pub open spec fn items_of<I: Stream>() -> spec_fn(HeadTail<I>) -> Seq<I::Item> {
    |ht: HeadTail<I>| ht.items()
}

/// Compares two `HeadTail`s by their heads.
pub struct ByHead<'a, F>(pub &'a F);

impl<'a, I, F> OrderingPredicate<HeadTail<I>> for ByHead<'a, F> where
    I: Stream,
    F: OrderingPredicate<I::Item>,
 {
    open spec fn decisive(&self) -> bool {
        self.0.decisive()
    }

    open spec fn precedes(&self, a: HeadTail<I>, b: HeadTail<I>) -> bool {
        self.0.precedes(a.head, b.head)
    }

    fn ordering_predicate(&self, a: &HeadTail<I>, b: &HeadTail<I>) -> (r: bool) {
        self.0.ordering_predicate(&a.head, &b.head)
    }
}

//  ---------------------------------------------------------------------------
//  HitMerge object
//  ---------------------------------------------------------------------------
/// A stream that merges an arbitrary number of base streams according to an
/// ordering function.
///
/// See [`hit_merge_by`] for more information.
#[must_use]
pub struct HitMerge<I, F> where I: Stream {
    pub heap: Vec<HeadTail<I>>,
    pub less_than: F,
}

impl<I, F> HitMerge<I, F> where I: Stream, F: OrderingPredicate<I::Item> {
    /// For each stream in the heap, the items it has yet to contribute.
    pub open spec fn slots(&self) -> Seq<Seq<I::Item>> {
        self.heap@.map_values(items_of::<I>())
    }

    /// The heap is ordered by the heads of its streams.
    pub open spec fn heap_ordered(&self) -> bool {
        is_heap(by_first(relation_of(self.less_than)), self.slots())
    }
}

/// The order on `HeadTail`s is the order on slots.
pub proof fn lemma_by_head_is_by_first<I: Stream, F: OrderingPredicate<I::Item>>(less_than: &F)
    ensures
        forall|x: HeadTail<I>, y: HeadTail<I>| #[trigger]
            relation_of(ByHead(less_than))(x, y) == by_first(relation_of(*less_than))(
                items_of::<I>()(x),
                items_of::<I>()(y),
            ),
{
}

impl<I, F> Stream for HitMerge<I, F> where I: Stream, F: OrderingPredicate<I::Item> {
    type Item = I::Item;

    open spec fn valid(&self) -> bool {
        &&& self.less_than.decisive()
        &&& forall|k: int| 0 <= k < self.heap@.len() ==> (#[trigger] self.heap@[k]).tail.valid()
    }

    open spec fn remaining(&self) -> Seq<I::Item> {
        merged(relation_of(self.less_than), self.slots())
    }

    /// The sum of the hints of the streams in the heap.
    open spec fn hint(&self) -> (usize, Option<usize>) {
        summed_hints(self.heap@)
    }

    /// Hands out the head of the first stream in the heap.  That stream then
    /// advances, or leaves the heap if it is exhausted, and one sift restores
    /// the heap.
    fn next(&mut self) -> (r: Option<I::Item>)
        ensures
            final(self).less_than == old(self).less_than,
            old(self).heap@.len() > 0 ==> r == Some(old(self).heap@[0].head) && final(self).slots()
                == after_taking_first(relation_of(old(self).less_than), old(self).slots()),
            old(self).heap@.len() == 0 ==> final(self).heap@.len() == 0,
            is_strict_weak_order(relation_of(old(self).less_than)) && old(self).heap_ordered()
                ==> final(self).heap_ordered(),
    {
        if self.heap.is_empty() {
            assert(self.slots() =~= Seq::<Seq<I::Item>>::empty());
            return None;
        }
        let ghost before = self.slots();
        let ghost lt = relation_of(self.less_than);
        let result = if let Some(next) = self.heap[0].next() {
            assert(self.slots() =~= before.update(0, before[0].skip(1))) by {
                assert(before[0].skip(1) =~= old(self).heap@[0].tail.remaining());
            }
            next
        } else {
            assert(before[0] =~= seq![old(self).heap@[0].head]);
            let last = self.heap.swap_remove(0);
            assert(self.slots() =~= before.update(0, before.last()).drop_last());
            last.head
        };
        let ghost moved = self.heap@;
        sift_down_by(&mut self.heap, 0, &ByHead(&self.less_than));
        proof {
            lemma_by_head_is_by_first::<I, F>(&self.less_than);
            lemma_sifted_down_maps(
                relation_of(ByHead(&self.less_than)),
                by_first(lt),
                items_of::<I>(),
                moved,
                0,
            );
            assert(self.slots() == after_taking_first(lt, before));
            assert(slots_nonempty(before));
            let rest = merged(lt, self.slots());
            assert((seq![result] + rest).skip(1) =~= rest);
            // sifting rearranges the streams, all of them valid
            lemma_sifted_down(relation_of(ByHead(&self.less_than)), moved, 0);
            if is_strict_weak_order(lt) && old(self).heap_ordered() {
                lemma_after_taking_first_keeps_heap(lt, before);
            }
            assert forall|k: int| 0 <= k < self.heap@.len() implies (
            #[trigger] self.heap@[k]).tail.valid() by {
                broadcast use vstd::seq_lib::group_to_multiset_ensures;

                assert(self.heap@.to_multiset().contains(self.heap@[k]));
                assert(moved.to_multiset().contains(self.heap@[k]));
            }
        }
        Some(result)
    }

    /// The sum of the hints of the streams in the heap.
    fn size_hint(&self) -> (r: (usize, Option<usize>)) {
        let mut total: (usize, Option<usize>) = (0, Some(0));
        let mut k: usize = 0;
        proof {
            assert(self.slots().take(0) =~= Seq::<Seq<I::Item>>::empty());
        }
        assert(self.heap@.take(0) =~= Seq::<HeadTail<I>>::empty());
        while k < self.heap.len()
            invariant
                k <= self.heap@.len(),
                self.valid(),
                total == summed_hints(self.heap@.take(k as int)),
                within_hint(all_items(self.slots().take(k as int)).len(), total),
            decreases self.heap@.len() - k,
        {
            let hint = self.heap[k].size_hint();
            proof {
                assert(self.heap@.take(k + 1).drop_last() =~= self.heap@.take(k as int));
                assert(self.heap@.take(k + 1).last() == self.heap@[k as int]);
                broadcast use vstd::seq_lib::group_to_multiset_ensures;
                broadcast use vstd::multiset::group_multiset_axioms;

                let done = self.slots().take(k as int);
                let next = self.slots().take(k + 1);
                assert(next.drop_last() =~= done);
                assert(next.last() == self.heap@[k as int].items());
                assert(all_items(next).len() == all_items(done).len() + next.last().len());
            }
            total = hacked_size_hint_add(total, hint);
            k += 1;
        }
        proof {
            assert(self.heap@.take(k as int) =~= self.heap@);
            assert(self.slots().take(k as int) =~= self.slots());
            lemma_merged_permutes(relation_of(self.less_than), self.slots());
        }
        total
    }
}

//  ---------------------------------------------------------------------------
//  HitMerge makers
//  ---------------------------------------------------------------------------
/// What each of the streams has yet to yield.
pub open spec fn remainders<I: Stream>(streams: Seq<I>) -> Seq<Seq<I::Item>> {
    streams.map_values(|s: I| s.remaining())
}

/// Every one of the streams is valid.
pub open spec fn all_valid<I: Stream>(streams: Seq<I>) -> bool {
    forall|k: int| 0 <= k < streams.len() ==> (#[trigger] streams[k]).valid()
}

/// Append to `heap` a `HeadTail` for each of the streams that is not empty.
fn push_heads<I: Stream>(heap: &mut Vec<HeadTail<I>>, iterable: Vec<I>)
    requires
        all_valid(iterable@),
        forall|k: int| 0 <= k < old(heap)@.len() ==> (#[trigger] old(heap)@[k]).tail.valid(),
    ensures
        forall|k: int| 0 <= k < final(heap)@.len() ==> (#[trigger] final(heap)@[k]).tail.valid(),
        final(heap)@.take(old(heap)@.len() as int) == old(heap)@,
        final(heap)@.map_values(items_of::<I>()) == old(heap)@.map_values(items_of::<I>())
            + nonempty_slots(remainders(iterable@)),
{
    let ghost start = heap@;
    let ghost keep = |s: Seq<I::Item>| s.len() > 0;
    proof {
        assert(remainders(iterable@.take(0)) =~= Seq::<Seq<I::Item>>::empty());
        assert(remainders(iterable@.take(0)).filter(keep) =~= Seq::<Seq<I::Item>>::empty()) by {
            reveal(Seq::filter);
        }
        assert(heap@.map_values(items_of::<I>()) =~= start.map_values(items_of::<I>())
            + nonempty_slots(remainders(iterable@.take(0))));
        assert(heap@.take(start.len() as int) =~= start);
    }
    for it in iter: iterable
        invariant
            iter.seq() == iterable@,
            all_valid(iterable@),
            keep == |s: Seq<I::Item>| s.len() > 0,
            forall|k: int| 0 <= k < heap@.len() ==> (#[trigger] heap@[k]).tail.valid(),
            heap@.len() >= start.len(),
            heap@.take(start.len() as int) == start,
            heap@.map_values(items_of::<I>()) == start.map_values(items_of::<I>())
                + nonempty_slots(remainders(iterable@.take(iter.index() as int))),
    {
        let ghost done = iterable@.take(iter.index() as int);
        let ghost before = heap@;
        proof {
            assert(it == iterable@[iter.index() as int]);
            assert(iterable@.take(iter.index() + 1) =~= done.push(it));
            assert(remainders(done.push(it)) =~= remainders(done).push(it.remaining()));
            remainders(done).lemma_filter_push(it.remaining(), keep);
        }
        match HeadTail::new(it) {
            Some(ht) => {
                heap.push(ht);
                proof {
                    assert(heap@.map_values(items_of::<I>()) =~= before.map_values(
                        items_of::<I>(),
                    ).push(ht.items()));
                    assert(heap@.take(start.len() as int) =~= before.take(start.len() as int));
                    assert(heap@.map_values(items_of::<I>()) =~= start.map_values(items_of::<I>())
                        + nonempty_slots(remainders(done.push(it))));
                }
            },
            None => {},
        }
    }
    proof {
        assert(iterable@.take(iterable@.len() as int) =~= iterable@);
    }
}

/// Merge a sequence of streams into a single stream; result is sorted by
/// `less_than` if each stream in the given sequence is sorted by
/// `less_than`.
///
/// This is very similar to `hit_merge_by` but the type constraint on
/// the second parameter is different: `hit_merge_by` takes a closure and is
/// essentially just a wrapper around this function.
pub fn hit_merge_by_predicate<I, F>(iterable: Vec<I>, less_than: F) -> (r: HitMerge<I, F>) where
    I: Stream,
    F: OrderingPredicate<I::Item>,

    requires
        less_than.decisive(),
        all_valid(iterable@),
    ensures
        r.valid(),
        r.less_than == less_than,
        r.slots() == heapified(
            by_first(relation_of(less_than)),
            nonempty_slots(remainders(iterable@)),
        ),
        is_strict_weak_order(relation_of(less_than)) ==> r.heap_ordered(),
{
    let mut heap: Vec<HeadTail<I>> = Vec::new();
    push_heads(&mut heap, iterable);
    let ghost pushed = heap@;
    heapify_by(&mut heap, &ByHead(&less_than));
    proof {
        let by_head = relation_of(ByHead(&less_than));
        lemma_by_head_is_by_first::<I, F>(&less_than);
        lemma_heapified_maps(by_head, by_first(relation_of(less_than)), items_of::<I>(), pushed, 0);
        assert(pushed.map_values(items_of::<I>()) =~= nonempty_slots(remainders(iterable@)));
        lemma_tail_heapified_permutes(by_head, pushed, 0);
        lemma_rearranged_tails_valid(pushed, heap@);
        if is_strict_weak_order(relation_of(less_than)) {
            lemma_by_first_is_strict_weak_order(relation_of(less_than));
            lemma_heapified_is_heap(
                by_first(relation_of(less_than)),
                nonempty_slots(remainders(iterable@)),
            );
        }
    }
    HitMerge { heap, less_than }
}

/// A rearrangement of `HeadTail`s with valid tails has valid tails.
proof fn lemma_rearranged_tails_valid<I: Stream>(a: Seq<HeadTail<I>>, b: Seq<HeadTail<I>>)
    requires
        forall|k: int| 0 <= k < a.len() ==> (#[trigger] a[k]).tail.valid(),
        a.to_multiset() == b.to_multiset(),
    ensures
        forall|k: int| 0 <= k < b.len() ==> (#[trigger] b[k]).tail.valid(),
{
    broadcast use vstd::seq_lib::group_to_multiset_ensures;

    assert forall|k: int| 0 <= k < b.len() implies (#[trigger] b[k]).tail.valid() by {
        assert(b.to_multiset().contains(b[k]));
        assert(a.to_multiset().contains(b[k]));
    }
}

/// Merge a sequence of streams into a single stream; result is sorted by
/// `less_than` if each stream in the given sequence is sorted by
/// `less_than`.
pub fn hit_merge_by<I, F>(iter: Vec<I>, less_than: F) -> (r: HitMerge<I, F>) where
    I: Stream,
    F: Fn(&I::Item, &I::Item) -> bool,

    requires
        less_than.decisive(),
        all_valid(iter@),
    ensures
        r.valid(),
        r.less_than == less_than,
        r.slots() == heapified(by_first(relation_of(less_than)), nonempty_slots(remainders(iter@))),
        is_strict_weak_order(relation_of(less_than)) ==> r.heap_ordered(),
{
    hit_merge_by_predicate(iter, less_than)
}

/// Merge a sequence of streams into a single stream; result is sorted in
/// ascending order if each stream in the given sequence is sorted in
/// ascending order.
pub fn hit_merge_ascend<I>(iterable: Vec<I>) -> (r: HitMerge<I, HitOrderLt>) where
    I: Stream,
    I::Item: PartialOrd,

    requires
        I::Item::obeys_partial_cmp_spec(),
        all_valid(iterable@),
    ensures
        r.valid(),
        r.slots() == heapified(
            by_first(relation_of(HitOrderLt)),
            nonempty_slots(remainders(iterable@)),
        ),
        is_strict_weak_order(relation_of::<I::Item, HitOrderLt>(HitOrderLt)) ==> r.heap_ordered(),
{
    hit_merge_by_predicate(iterable, HitOrderLt)
}

/// Merge a sequence of streams into a single stream; result is sorted in
/// descending order if each stream in the given sequence is sorted in
/// descending order.
pub fn hit_merge_descend<I>(iterable: Vec<I>) -> (r: HitMerge<I, HitOrderGt>) where
    I: Stream,
    I::Item: PartialOrd,

    requires
        I::Item::obeys_partial_cmp_spec(),
        all_valid(iterable@),
    ensures
        r.valid(),
        r.slots() == heapified(
            by_first(relation_of(HitOrderGt)),
            nonempty_slots(remainders(iterable@)),
        ),
        is_strict_weak_order(relation_of::<I::Item, HitOrderGt>(HitOrderGt)) ==> r.heap_ordered(),
{
    hit_merge_by_predicate(iterable, HitOrderGt)
}

//  ---------------------------------------------------------------------------
//  MODIFY HEAP POST-HOC
//  ---------------------------------------------------------------------------
/// Append a new sequence of streams to the merge heap.
///
/// Only the part of the heap above the new streams is rearranged.
pub fn hit_bulk_insert<I, F>(merged: &mut HitMerge<I, F>, iterable: Vec<I>) where
    I: Stream,
    F: OrderingPredicate<I::Item>,

    requires
        old(merged).valid(),
        all_valid(iterable@),
    ensures
        final(merged).valid(),
        final(merged).less_than == old(merged).less_than,
        final(merged).slots() == bulk_inserted(
            relation_of(old(merged).less_than),
            old(merged).slots(),
            remainders(iterable@),
        ),
        is_strict_weak_order(relation_of(old(merged).less_than)) && old(merged).heap_ordered()
            ==> final(merged).heap_ordered(),
{
    // this is where we'll start the bulk heapify
    let tail_base = merged.heap.len();
    // push the new streams onto the heap
    push_heads(&mut merged.heap, iterable);
    let ghost pushed = merged.heap@;
    // heapify
    heapify_tail_by(&mut merged.heap, &ByHead(&merged.less_than), &tail_base);
    proof {
        let by_head = relation_of(ByHead(&merged.less_than));
        let lt = relation_of(merged.less_than);
        lemma_by_head_is_by_first::<I, F>(&merged.less_than);
        lemma_heapified_maps(by_head, by_first(lt), items_of::<I>(), pushed, tail_base as int);
        lemma_tail_heapified_permutes(by_head, pushed, tail_base as int);
        lemma_rearranged_tails_valid(pushed, merged.heap@);
        if is_strict_weak_order(lt) && old(merged).heap_ordered() {
            let appended = pushed.map_values(items_of::<I>());
            lemma_by_first_is_strict_weak_order(lt);
            assert(appended.take(tail_base as int) =~= old(merged).slots());
            lemma_tail_heapified_is_heap(by_first(lt), appended, tail_base as int);
        }
    }
}

} // verus!
