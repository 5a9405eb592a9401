//! Min-heaps with user-defined comparison functions.
//!
//! In this context a **heap** means a binary heap realized as a 0-indexed vector.
//!
//! * the user defines their own comparison function `less_than(x, y)`
//! * the heaps are 0-indexed

use vstd::prelude::*;
use vstd::multiset::Multiset;
use rand::Rng;
use crate::utilities::iterators::hit_merge::{relation_of, OrderingPredicate};
use crate::utilities::iterators::utility::Stream;

verus! {

//  -----------------------------------------------------------------------------
//  UTILITY FUNCTIONS
//  -----------------------------------------------------------------------------
/// The first node of row `row` of the binary tree: `2^row - 1`.
pub open spec fn row_start(row: nat) -> int
    decreases row,
{
    if row == 0 {
        0
    } else {
        2 * row_start((row - 1) as nat) + 1
    }
}

/// The index of the first node in a binary tree that shares the same row as
/// the input node.
///
/// ```text
/// The binary tree:
///                     0
///             1               2
///         3       4       5       6
///       7  8    9  10   11 12   13 14
/// ```
pub fn min_node_same_row(m: &usize) -> (k: usize)
    ensures
        exists|row: nat| k == #[trigger] row_start(row) && k <= *m <= 2 * k,
{
    let n = *m;
    let mut k: usize = 0;
    let mut exp: usize = 1;
    let ghost mut row: nat = 0;
    while n - k >= exp
        invariant
            n == *m,
            k <= n,
            k == row_start(row),
            exp == k + 1,
        decreases n - k,
    {
        k += exp;
        proof {
            row = row + 1;
        }
        if k == n {
            assert(k == row_start(row) && k <= n <= 2 * k);
            return k;
        }
        exp = k + 1;
    }
    assert(k == row_start(row) && k <= n <= 2 * k);
    k
}

/// The parent of node `n`; node 0 counts as its own parent.
pub open spec fn parent_of(n: int) -> int {
    if n <= 0 {
        0
    } else {
        (n - 1) / 2
    }
}

/// The parent node in a 0-indexed heap; returns 0 if the input is 0.
///
/// This is used for bulk updates.
pub fn parent_or_0(m: &usize) -> (p: usize)
    ensures
        p == parent_of(*m as int),
{
    let n = *m;
    if n == 0 {
        0
    } else {
        (n - 1) / 2
    }
}

/// The parent node in a 0-indexed heap.  Returns `None` if input is 0.
pub fn parent(m: &usize) -> (p: Option<usize>)
    ensures
        *m == 0 ==> p is None,
        *m > 0 ==> p == Some(((*m - 1) / 2) as usize),
{
    let n = *m;
    if n == 0 {
        None
    } else {
        Some((n - 1) / 2)
    }
}

/// Index of the first child node in a 0-indexed binary heap.
pub fn child_a(m: &usize) -> (c: usize)
    requires
        2 * *m + 1 <= usize::MAX,
    ensures
        c == 2 * *m + 1,
{
    2 * *m + 1
}

/// Index of the second child node in a 0-indexed binary heap.
pub fn child_b(m: &usize) -> (c: usize)
    requires
        2 * *m + 2 <= usize::MAX,
    ensures
        c == 2 * *m + 2,
{
    2 * *m + 2
}

//  -----------------------------------------------------------------------------
//  WHAT THE HEAP OPERATIONS COMPUTE
//  -----------------------------------------------------------------------------
/// `s` with the items at `i` and `j` exchanged.
pub open spec fn swapped<T>(s: Seq<T>, i: int, j: int) -> Seq<T>
    recommends
        0 <= i < s.len(),
        0 <= j < s.len(),
{
    s.update(i, s[j]).update(j, s[i])
}

/// The child of `pos` that sifting compares against: the right child if it
/// exists and precedes the left child, else the left child.
pub open spec fn smaller_child<T>(
    lt: spec_fn(T, T) -> bool,
    heap: Seq<T>,
    pos: int,
) -> int
    recommends
        0 <= pos,
        2 * pos + 1 < heap.len(),
{
    if 2 * pos + 2 < heap.len() && lt(heap[2 * pos + 2], heap[2 * pos + 1]) {
        2 * pos + 2
    } else {
        2 * pos + 1
    }
}

/// `heap` after the item at `pos` has been sifted down: as long as its
/// smaller child precedes it, the two change places.
pub open spec fn sifted_down<T>(lt: spec_fn(T, T) -> bool, heap: Seq<T>, pos: int) -> Seq<
    T,
>
    decreases heap.len() - pos,
{
    if 0 <= pos && 2 * pos + 1 < heap.len() {
        let child = smaller_child(lt, heap, pos);
        if lt(heap[child], heap[pos]) {
            sifted_down(lt, swapped(heap, pos, child), child)
        } else {
            heap
        }
    } else {
        heap
    }
}

/// `heap` after the items at `hi - 1`, `hi - 2`, ..., `lo` have been sifted
/// down, in this order.
pub open spec fn sifted_range<T>(
    lt: spec_fn(T, T) -> bool,
    heap: Seq<T>,
    lo: int,
    hi: int,
) -> Seq<T>
    decreases hi - lo,
{
    if lo < hi {
        sifted_range(lt, sifted_down(lt, heap, hi - 1), lo, hi - 1)
    } else {
        heap
    }
}

/// `data` made into a heap: every node that has a child is sifted down, the
/// last such node first.
pub open spec fn heapified<T>(lt: spec_fn(T, T) -> bool, data: Seq<T>) -> Seq<T> {
    sifted_range(lt, data, 0, data.len() as int / 2)
}

/// The rounds of a tail heapification.  Each round moves `left` and `right`
/// up to their parents and sifts down the nodes from `right` back to `left`;
/// the rounds end when `right` has reached the root.
pub open spec fn tail_rounds<T>(
    lt: spec_fn(T, T) -> bool,
    data: Seq<T>,
    left: int,
    right: int,
) -> Seq<T>
    decreases right,
{
    if right > 0 {
        let l = parent_of(left);
        let r = parent_of(right);
        tail_rounds(lt, sifted_range(lt, data, l, r + 1), l, r)
    } else {
        data
    }
}

/// `data` after a tail heapification that starts at `tail_base`.
pub open spec fn tail_heapified<T>(
    lt: spec_fn(T, T) -> bool,
    data: Seq<T>,
    tail_base: int,
) -> Seq<T> {
    if tail_base >= data.len() || data.len() < 2 {
        data
    } else {
        let right = data.len() - 1;
        let left = if tail_base >= parent_of(right) {
            tail_base
        } else {
            parent_of(right)
        };
        tail_rounds(lt, data, left, right)
    }
}

/// `heap` without its first item: the last item takes the place of the
/// first, and is sifted down.
pub open spec fn popped<T>(lt: spec_fn(T, T) -> bool, heap: Seq<T>) -> Seq<T>
    recommends
        heap.len() > 0,
{
    sifted_down(lt, heap.update(0, heap.last()).drop_last(), 0)
}

//  -----------------------------------------------------------------------------
//  HEAP ORDER
//  -----------------------------------------------------------------------------
/// The relation decided by `less_than` is a strict weak order: it is
/// asymmetric and transitive, and so is "neither precedes the other".
pub open spec fn is_strict_weak_order<T>(lt: spec_fn(T, T) -> bool) -> bool {
    &&& forall|a: T, b: T| #[trigger] lt(a, b) ==> !lt(b, a)
    &&& forall|a: T, b: T, c: T|
        #![trigger lt(a, b), lt(b, c)]
        lt(a, b) && lt(b, c) ==> lt(a, c)
    &&& forall|a: T, b: T, c: T|
        #![trigger lt(a, b), lt(b, c)]
        !lt(a, b) && !lt(b, c) ==> !lt(a, c)
}

/// Neither child of node `j` precedes it.
pub open spec fn node_in_order<T>(lt: spec_fn(T, T) -> bool, heap: Seq<T>, j: int) -> bool {
    &&& 2 * j + 1 < heap.len() ==> !lt(heap[2 * j + 1], heap[j])
    &&& 2 * j + 2 < heap.len() ==> !lt(heap[2 * j + 2], heap[j])
}

/// `heap` is a min-heap with respect to `less_than`: no node precedes its
/// parent.
pub open spec fn is_heap<T>(lt: spec_fn(T, T) -> bool, heap: Seq<T>) -> bool {
    forall|j: int| 0 <= j < heap.len() ==> #[trigger] node_in_order(lt, heap, j)
}

/// Node `k` is `root` or one of its descendants.
pub open spec fn in_subtree(root: int, k: int) -> bool
    decreases k,
{
    if k <= root {
        k == root
    } else {
        k > 0 && in_subtree(root, (k - 1) / 2)
    }
}

/// The descendants of a child of `pos` are the descendants of `pos` other
/// than `pos` itself, and the two children share no descendant.
pub proof fn lemma_subtree_of_child(pos: int, k: int)
    requires
        0 <= pos,
        0 <= k,
    ensures
        in_subtree(2 * pos + 1, k) ==> in_subtree(pos, k) && k != pos && !in_subtree(2 * pos + 2, k),
        in_subtree(2 * pos + 2, k) ==> in_subtree(pos, k) && k != pos,
        in_subtree(pos, k) && k != pos ==> in_subtree(2 * pos + 1, k) || in_subtree(2 * pos + 2, k),
        in_subtree(pos, k) ==> in_subtree(pos, 2 * k + 1) && in_subtree(pos, 2 * k + 2),
    decreases k,
{
    if k > pos {
        lemma_subtree_of_child(pos, (k - 1) / 2);
    }
    assert((2 * k + 1 - 1) / 2 == k);
    assert((2 * k + 2 - 1) / 2 == k);
}

/// Sifting down rearranges the items below `pos` and leaves the rest of the
/// heap alone; the item that ends up at `pos` was at `pos` or at one of its
/// children.
pub proof fn lemma_sifted_down<T>(lt: spec_fn(T, T) -> bool, heap: Seq<T>, pos: int)
    ensures
        sifted_down(lt, heap, pos).len() == heap.len(),
        sifted_down(lt, heap, pos).to_multiset() == heap.to_multiset(),
        forall|k: int|
            0 <= k < heap.len() && !in_subtree(pos, k) ==> #[trigger] sifted_down(
                lt,
                heap,
                pos,
            )[k] == heap[k],
        0 <= pos < heap.len() ==> {
            let top = sifted_down(lt, heap, pos)[pos];
            ||| top == heap[pos]
            ||| 2 * pos + 1 < heap.len() && top == heap[2 * pos + 1]
            ||| 2 * pos + 2 < heap.len() && top == heap[2 * pos + 2]
        },
    decreases heap.len() - pos,
{
    if 0 <= pos && 2 * pos + 1 < heap.len() {
        let child = smaller_child(lt, heap, pos);
        if lt(heap[child], heap[pos]) {
            let next = swapped(heap, pos, child);
            lemma_sifted_down(lt, next, child);
            lemma_swapped_is_permutation(heap, pos, child);
            let result = sifted_down(lt, next, child);
            assert forall|k: int| 0 <= k < heap.len() && !in_subtree(pos, k) implies result[k]
                == heap[k] by {
                lemma_subtree_of_child(pos, k);
            }
            lemma_subtree_of_child(pos, pos);
        }
    }
}

/// Exchanging two items keeps the multiset of items.
pub proof fn lemma_swapped_is_permutation<T>(s: Seq<T>, i: int, j: int)
    requires
        0 <= i < s.len(),
        0 <= j < s.len(),
    ensures
        swapped(s, i, j).to_multiset() == s.to_multiset(),
        swapped(s, i, j).len() == s.len(),
{
    broadcast use vstd::seq_lib::group_to_multiset_ensures;
    broadcast use vstd::multiset::group_multiset_axioms;

    vstd::seq_lib::to_multiset_update(s, i, s[j]);
    vstd::seq_lib::to_multiset_update(s.update(i, s[j]), j, s[i]);
    assert(s.to_multiset().contains(s[i]));
    assert(s.to_multiset().contains(s[j]));
    assert(swapped(s, i, j).to_multiset() =~= s.to_multiset());
}

/// Sifting a range of nodes keeps the multiset of items.
pub proof fn lemma_sifted_range<T>(
    lt: spec_fn(T, T) -> bool,
    heap: Seq<T>,
    lo: int,
    hi: int,
)
    ensures
        sifted_range(lt, heap, lo, hi).len() == heap.len(),
        sifted_range(lt, heap, lo, hi).to_multiset() == heap.to_multiset(),
    decreases hi - lo,
{
    if lo < hi {
        lemma_sifted_down(lt, heap, hi - 1);
        lemma_sifted_range(lt, sifted_down(lt, heap, hi - 1), lo, hi - 1);
    }
}

/// If every node strictly below `pos` is in order, then after sifting down
/// from `pos` every node at or below `pos` is in order.
pub proof fn lemma_sifted_down_restores<T>(
    lt: spec_fn(T, T) -> bool,
    heap: Seq<T>,
    pos: int,
)
    requires
        0 <= pos,
        is_strict_weak_order(lt),
        forall|j: int|
            0 <= j < heap.len() && in_subtree(pos, j) && j != pos ==> #[trigger] node_in_order(
                lt,
                heap,
                j,
            ),
    ensures
        forall|j: int|
            0 <= j < heap.len() && in_subtree(pos, j) ==> #[trigger] node_in_order(
                lt,
                sifted_down(lt, heap, pos),
                j,
            ),
    decreases heap.len() - pos,
{
    let result = sifted_down(lt, heap, pos);
    if 2 * pos + 1 < heap.len() {
        let child = smaller_child(lt, heap, pos);
        let other = if child == 2 * pos + 1 {
            2 * pos + 2
        } else {
            2 * pos + 1
        };
        if lt(heap[child], heap[pos]) {
            let next = swapped(heap, pos, child);
            assert forall|j: int|
                0 <= j < next.len() && in_subtree(child, j) && j != child implies #[trigger] node_in_order(
                lt,
                next,
                j,
            ) by {
                lemma_subtree_of_child(pos, j);
                assert(node_in_order(lt, heap, j));
            }
            lemma_sifted_down_restores(lt, next, child);
            lemma_sifted_down(lt, next, child);
            lemma_subtree_of_child(pos, pos);
            lemma_subtree_of_child(pos, child);
            lemma_subtree_of_child(pos, other);
            assert(node_in_order(lt, heap, child)) by {
                assert(in_subtree(child, child));
            }
            assert forall|j: int| 0 <= j < heap.len() && in_subtree(pos, j) implies #[trigger] node_in_order(
                lt,
                result,
                j,
            ) by {
                lemma_subtree_of_child(pos, j);
                if j == pos {
                    assert(result[pos] == heap[child]);
                    if other < heap.len() {
                        assert(result[other] == heap[other]);
                    }
                } else if in_subtree(child, j) {
                } else {
                    // below the other child, where nothing has changed
                    assert(in_subtree(other, j));
                    lemma_subtree_of_child(other, j);
                    lemma_subtree_of_child(pos, 2 * j + 1);
                    lemma_subtree_of_child(pos, 2 * j + 2);
                    assert(node_in_order(lt, heap, j));
                }
            }
        } else {
            assert forall|j: int| 0 <= j < heap.len() && in_subtree(pos, j) implies #[trigger] node_in_order(
                lt,
                result,
                j,
            ) by {
                if j != pos {
                    assert(node_in_order(lt, heap, j));
                }
            }
        }
    }
}

/// If every node from `hi` on is in order, then after sifting the range
/// `lo..hi` every node from `lo` on is in order.  A node before `lo` that was
/// in order remains so, unless it has a child in the range.
pub proof fn lemma_sifted_range_restores<T>(
    lt: spec_fn(T, T) -> bool,
    heap: Seq<T>,
    lo: int,
    hi: int,
)
    requires
        0 <= lo,
        is_strict_weak_order(lt),
        forall|j: int| hi <= j < heap.len() ==> #[trigger] node_in_order(lt, heap, j),
    ensures
        forall|j: int|
            lo <= j < heap.len() ==> #[trigger] node_in_order(
                lt,
                sifted_range(lt, heap, lo, hi),
                j,
            ),
        forall|j: int|
            0 <= j < lo && node_in_order(lt, heap, j) && !(lo <= 2 * j + 1 < hi) && !(lo <= 2
                * j + 2 < hi) ==> #[trigger] node_in_order(
                lt,
                sifted_range(lt, heap, lo, hi),
                j,
            ),
    decreases hi - lo,
{
    if lo < hi {
        let i = hi - 1;
        let next = sifted_down(lt, heap, i);
        assert forall|j: int|
            0 <= j < heap.len() && in_subtree(i, j) && j != i implies #[trigger] node_in_order(
            lt,
            heap,
            j,
        ) by {}
        lemma_sifted_down_restores(lt, heap, i);
        lemma_sifted_down(lt, heap, i);
        assert forall|j: int| 0 <= j < heap.len() && (j >= i || (node_in_order(lt, heap, j)
            && 2 * j + 1 != i && 2 * j + 2 != i)) implies #[trigger] node_in_order(
            lt,
            next,
            j,
        ) by {
            lemma_subtree_of_child(i, j);
            if !in_subtree(i, j) {
                // neither the node nor its children have moved
                assert(node_in_order(lt, heap, j));
                if 2 * j + 1 < heap.len() {
                    assert(!in_subtree(i, 2 * j + 1)) by {
                        assert((2 * j + 1 - 1) / 2 == j);
                    }
                }
                if 2 * j + 2 < heap.len() {
                    assert(!in_subtree(i, 2 * j + 2)) by {
                        assert((2 * j + 2 - 1) / 2 == j);
                    }
                }
            }
        }
        lemma_sifted_range_restores(lt, next, lo, i);
        let result = sifted_range(lt, heap, lo, hi);
        assert(result == sifted_range(lt, next, lo, i));
        assert forall|j: int| lo <= j < heap.len() implies #[trigger] node_in_order(
            lt,
            result,
            j,
        ) by {}
        assert forall|j: int|
            0 <= j < lo && node_in_order(lt, heap, j) && !(lo <= 2 * j + 1 < hi) && !(lo <= 2
                * j + 2 < hi) implies #[trigger] node_in_order(lt, result, j) by {
            assert(node_in_order(lt, next, j));
        }
    }
}

/// Heapifying yields a heap that holds the same items.
pub proof fn lemma_heapified_is_heap<T>(lt: spec_fn(T, T) -> bool, data: Seq<T>)
    requires
        is_strict_weak_order(lt),
    ensures
        is_heap(lt, heapified(lt, data)),
        heapified(lt, data).to_multiset() == data.to_multiset(),
        heapified(lt, data).len() == data.len(),
{
    lemma_sifted_range(lt, data, 0, data.len() as int / 2);
    lemma_sifted_range_restores(lt, data, 0, data.len() as int / 2);
}

/// Popping the first item of a heap leaves a heap that holds the other
/// items.
pub proof fn lemma_popped_is_heap<T>(lt: spec_fn(T, T) -> bool, heap: Seq<T>)
    requires
        is_strict_weak_order(lt),
        is_heap(lt, heap),
        heap.len() > 0,
    ensures
        is_heap(lt, popped(lt, heap)),
        popped(lt, heap).len() == heap.len() - 1,
        popped(lt, heap).to_multiset() == heap.to_multiset().remove(heap[0]),
{
    broadcast use vstd::seq_lib::group_to_multiset_ensures;
    broadcast use vstd::multiset::group_multiset_axioms;

    let moved = heap.update(0, heap.last()).drop_last();
    lemma_sifted_down(lt, moved, 0);
    assert forall|j: int|
        0 <= j < moved.len() && in_subtree(0, j) && j != 0 implies #[trigger] node_in_order(
        lt,
        moved,
        j,
    ) by {
        assert(node_in_order(lt, heap, j));
    }
    lemma_sifted_down_restores(lt, moved, 0);
    assert forall|j: int| 0 <= j < moved.len() implies #[trigger] node_in_order(
        lt,
        popped(lt, heap),
        j,
    ) by {
        lemma_everything_below_root(j);
    }
    if heap.len() == 1 {
        assert(moved =~= Seq::<T>::empty());
        assert(heap =~= seq![heap[0]]);
        assert(heap.to_multiset().remove(heap[0]) =~= moved.to_multiset());
    } else {
        vstd::seq_lib::to_multiset_update(heap, 0, heap.last());
        let replaced = heap.update(0, heap.last());
        assert(replaced.drop_last() =~= replaced.remove(replaced.len() - 1));
        vstd::seq_lib::to_multiset_remove(replaced, replaced.len() - 1);
        assert(replaced.last() == heap.last());
        assert(heap.to_multiset().contains(heap.last()));
        assert(moved.to_multiset() =~= heap.to_multiset().remove(heap[0]));
    }
}

/// The nodes that may be out of order between two rounds of a tail
/// heapification whose last round covered `left..=right`: the parents of the
/// nodes of that round and, if the rounds so far have covered every node
/// from `left` on, the nodes before `left`.
pub open spec fn out_of_order_only_above<T>(
    lt: spec_fn(T, T) -> bool,
    data: Seq<T>,
    left: int,
    right: int,
) -> bool {
    forall|j: int|
        0 <= j < data.len() && !#[trigger] node_in_order(lt, data, j) ==> {
            ||| left <= 2 * j + 1 <= right
            ||| left <= 2 * j + 2 <= right
            ||| left == parent_of(right) && j < left
        }
}

/// The rounds of a tail heapification end with a heap.
pub proof fn lemma_tail_rounds_is_heap<T>(
    lt: spec_fn(T, T) -> bool,
    data: Seq<T>,
    left: int,
    right: int,
)
    requires
        is_strict_weak_order(lt),
        0 <= left <= right,
        out_of_order_only_above(lt, data, left, right),
    ensures
        is_heap(lt, tail_rounds(lt, data, left, right)),
        tail_rounds(lt, data, left, right).len() == data.len(),
        tail_rounds(lt, data, left, right).to_multiset() == data.to_multiset(),
    decreases right,
{
    if right > 0 {
        let l = parent_of(left);
        let r = parent_of(right);
        let mid = sifted_range(lt, data, l, r + 1);
        lemma_sifted_range(lt, data, l, r + 1);
        assert forall|j: int| r + 1 <= j < data.len() implies #[trigger] node_in_order(
            lt,
            data,
            j,
        ) by {}
        lemma_sifted_range_restores(lt, data, l, r + 1);
        assert forall|j: int|
            0 <= j < mid.len() && !#[trigger] node_in_order(lt, mid, j) implies {
            ||| l <= 2 * j + 1 <= r
            ||| l <= 2 * j + 2 <= r
            ||| l == parent_of(r) && j < l
        } by {
            if !(l <= 2 * j + 1 <= r) && !(l <= 2 * j + 2 <= r) {
                assert(!node_in_order(lt, data, j));
            }
        }
        lemma_tail_rounds_is_heap(lt, mid, l, r);
    } else {
        assert forall|j: int| 0 <= j < data.len() implies #[trigger] node_in_order(
            lt,
            data,
            j,
        ) by {}
    }
}

/// If the items before `tail_base` form a heap, a tail heapification from
/// `tail_base` yields a heap that holds the same items.
pub proof fn lemma_tail_heapified_is_heap<T>(
    lt: spec_fn(T, T) -> bool,
    data: Seq<T>,
    tail_base: int,
)
    requires
        is_strict_weak_order(lt),
        0 <= tail_base <= data.len(),
        is_heap(lt, data.take(tail_base)),
    ensures
        is_heap(lt, tail_heapified(lt, data, tail_base)),
        tail_heapified(lt, data, tail_base).len() == data.len(),
        tail_heapified(lt, data, tail_base).to_multiset() == data.to_multiset(),
{
    let prefix = data.take(tail_base);
    if tail_base >= data.len() {
        assert(prefix =~= data);
    } else if data.len() < 2 {
        assert forall|j: int| 0 <= j < data.len() implies #[trigger] node_in_order(
            lt,
            data,
            j,
        ) by {}
    } else {
        let right = data.len() - 1;
        let left = if tail_base >= parent_of(right) {
            tail_base
        } else {
            parent_of(right)
        };
        assert forall|j: int|
            0 <= j < data.len() && !#[trigger] node_in_order(lt, data, j) implies {
            ||| left <= 2 * j + 1 <= right
            ||| left <= 2 * j + 2 <= right
            ||| left == parent_of(right) && j < left
        } by {
            if 2 * j + 1 < tail_base && (2 * j + 2 < tail_base || 2 * j + 2 >= data.len()) {
                // the node and its children lie in the prefix
                assert(node_in_order(lt, prefix, j));
            }
        }
        lemma_tail_rounds_is_heap(lt, data, left, right);
    }
}

/// Sifting commutes with a change of representation `f` that respects the
/// order: sifting the images of the items yields the images of the sifted
/// items.
pub proof fn lemma_sifted_down_maps<A, B>(
    lt_a: spec_fn(A, A) -> bool,
    lt_b: spec_fn(B, B) -> bool,
    f: spec_fn(A) -> B,
    heap: Seq<A>,
    pos: int,
)
    requires
        forall|x: A, y: A| #[trigger] lt_a(x, y) == lt_b(f(x), f(y)),
    ensures
        sifted_down(lt_a, heap, pos).map_values(f) == sifted_down(lt_b, heap.map_values(f), pos),
    decreases heap.len() - pos,
{
    let image = heap.map_values(f);
    if 0 <= pos && 2 * pos + 1 < heap.len() {
        let child = smaller_child(lt_a, heap, pos);
        assert(child == smaller_child(lt_b, image, pos));
        if lt_a(heap[child], heap[pos]) {
            lemma_sifted_down_maps(lt_a, lt_b, f, swapped(heap, pos, child), child);
            assert(swapped(heap, pos, child).map_values(f) =~= swapped(image, pos, child));
        }
    }
}

/// Sifting a range commutes with a change of representation that respects
/// the order.
pub proof fn lemma_sifted_range_maps<A, B>(
    lt_a: spec_fn(A, A) -> bool,
    lt_b: spec_fn(B, B) -> bool,
    f: spec_fn(A) -> B,
    heap: Seq<A>,
    lo: int,
    hi: int,
)
    requires
        forall|x: A, y: A| #[trigger] lt_a(x, y) == lt_b(f(x), f(y)),
    ensures
        sifted_range(lt_a, heap, lo, hi).map_values(f) == sifted_range(
            lt_b,
            heap.map_values(f),
            lo,
            hi,
        ),
    decreases hi - lo,
{
    if lo < hi {
        lemma_sifted_down_maps(lt_a, lt_b, f, heap, hi - 1);
        lemma_sifted_range_maps(lt_a, lt_b, f, sifted_down(lt_a, heap, hi - 1), lo, hi - 1);
    }
}

/// The rounds of a tail heapification commute with a change of
/// representation that respects the order.
pub proof fn lemma_tail_rounds_maps<A, B>(
    lt_a: spec_fn(A, A) -> bool,
    lt_b: spec_fn(B, B) -> bool,
    f: spec_fn(A) -> B,
    data: Seq<A>,
    left: int,
    right: int,
)
    requires
        forall|x: A, y: A| #[trigger] lt_a(x, y) == lt_b(f(x), f(y)),
    ensures
        tail_rounds(lt_a, data, left, right).map_values(f) == tail_rounds(
            lt_b,
            data.map_values(f),
            left,
            right,
        ),
    decreases right,
{
    if right > 0 {
        let l = parent_of(left);
        let r = parent_of(right);
        lemma_sifted_range_maps(lt_a, lt_b, f, data, l, r + 1);
        lemma_tail_rounds_maps(lt_a, lt_b, f, sifted_range(lt_a, data, l, r + 1), l, r);
    }
}

/// Heapifying, and heapifying a tail, commute with a change of
/// representation that respects the order.
pub proof fn lemma_heapified_maps<A, B>(
    lt_a: spec_fn(A, A) -> bool,
    lt_b: spec_fn(B, B) -> bool,
    f: spec_fn(A) -> B,
    data: Seq<A>,
    tail_base: int,
)
    requires
        forall|x: A, y: A| #[trigger] lt_a(x, y) == lt_b(f(x), f(y)),
    ensures
        heapified(lt_a, data).map_values(f) == heapified(lt_b, data.map_values(f)),
        tail_heapified(lt_a, data, tail_base).map_values(f) == tail_heapified(
            lt_b,
            data.map_values(f),
            tail_base,
        ),
{
    lemma_sifted_range_maps(lt_a, lt_b, f, data, 0, data.len() as int / 2);
    if !(tail_base >= data.len() || data.len() < 2) {
        let right = data.len() - 1;
        let left = if tail_base >= parent_of(right) {
            tail_base
        } else {
            parent_of(right)
        };
        lemma_tail_rounds_maps(lt_a, lt_b, f, data, left, right);
    }
}

/// Heapifying, and heapifying a tail, rearrange the items and do no more.
pub proof fn lemma_tail_heapified_permutes<T>(lt: spec_fn(T, T) -> bool, data: Seq<T>, tail_base: int)
    ensures
        heapified(lt, data).to_multiset() == data.to_multiset(),
        heapified(lt, data).len() == data.len(),
        tail_heapified(lt, data, tail_base).to_multiset() == data.to_multiset(),
        tail_heapified(lt, data, tail_base).len() == data.len(),
{
    lemma_sifted_range(lt, data, 0, data.len() as int / 2);
    if !(tail_base >= data.len() || data.len() < 2) {
        let right = data.len() - 1;
        let left = if tail_base >= parent_of(right) {
            tail_base
        } else {
            parent_of(right)
        };
        lemma_tail_rounds_permutes(lt, data, left, right);
    }
}

/// The rounds of a tail heapification rearrange the items and do no more.
pub proof fn lemma_tail_rounds_permutes<T>(
    lt: spec_fn(T, T) -> bool,
    data: Seq<T>,
    left: int,
    right: int,
)
    ensures
        tail_rounds(lt, data, left, right).to_multiset() == data.to_multiset(),
        tail_rounds(lt, data, left, right).len() == data.len(),
    decreases right,
{
    if right > 0 {
        let l = parent_of(left);
        let r = parent_of(right);
        lemma_sifted_range(lt, data, l, r + 1);
        lemma_tail_rounds_permutes(lt, sifted_range(lt, data, l, r + 1), l, r);
    }
}

/// Every node is the root or one of its descendants.
pub proof fn lemma_everything_below_root(k: int)
    requires
        0 <= k,
    ensures
        in_subtree(0, k),
    decreases k,
{
    if k > 0 {
        lemma_everything_below_root((k - 1) / 2);
    }
}

//  -----------------------------------------------------------------------------
//  SIFT
//  -----------------------------------------------------------------------------
/// Exchange the items at `i` and `j`, by `<[T]>::swap`, which exchanges two
/// items of a slice and panics if either index is out of bounds.
#[verifier::external_body]
fn swap_items<T>(v: &mut Vec<T>, i: usize, j: usize)
    requires
        i < old(v)@.len(),
        j < old(v)@.len(),
    ensures
        final(v)@ == swapped(old(v)@, i as int, j as int),
{
    v.swap(i, j)
}

/// Sift down element at `index` (`heap` is a min-heap wrt the ordering).
///
/// Does nothing if `index` has no child in `heap`.
pub fn sift_down_by<T, S: OrderingPredicate<T>>(heap: &mut Vec<T>, index: usize, less_than: &S)
    requires
        less_than.decisive(),
    ensures
        final(heap)@ == sifted_down(relation_of(*less_than), old(heap)@, index as int),
        final(heap)@.to_multiset() == old(heap)@.to_multiset(),
{
    proof {
        lemma_sifted_down(relation_of(*less_than), heap@, index as int);
    }
    let mut pos = index;
    let ghost start = heap@;
    while pos < heap.len() / 2
        invariant
            less_than.decisive(),
            sifted_down(relation_of(*less_than), start, index as int) == sifted_down(
                relation_of(*less_than),
                heap@,
                pos as int,
            ),
        ensures
            heap@ == sifted_down(relation_of(*less_than), start, index as int),
        decreases heap.len() - pos,
    {
        let mut child = 2 * pos + 1;
        let right = child + 1;
        // pick the smaller of the two children
        if right < heap.len() && less_than.ordering_predicate(&heap[right], &heap[child]) {
            child = right;
        }
        // sift down is done if we are already in order
        if !less_than.ordering_predicate(&heap[child], &heap[pos]) {
            break ;
        }
        swap_items(heap, pos, child);
        pos = child;
    }
}

/// Sift down element at `index` (`heap` is a min-heap wrt the ordering).
pub fn sift_down<T, S>(heap: &mut Vec<T>, index: usize, less_than: S) where
    S: Fn(&T, &T) -> bool,

    requires
        less_than.decisive(),
    ensures
        final(heap)@ == sifted_down(relation_of(less_than), old(heap)@, index as int),
        final(heap)@.to_multiset() == old(heap)@.to_multiset(),
{
    sift_down_by(heap, index, &less_than)
}

//  -----------------------------------------------------------------------------
//  HEAPIFY (ALL / TAIL)
//  -----------------------------------------------------------------------------
/// Sift down the items at `hi - 1`, `hi - 2`, ..., `lo`, in this order.
fn sift_range_by<T, S: OrderingPredicate<T>>(data: &mut Vec<T>, lo: usize, hi: usize, less_than: &S)
    requires
        less_than.decisive(),
    ensures
        final(data)@ == sifted_range(relation_of(*less_than), old(data)@, lo as int, hi as int),
{
    let mut i = hi;
    let ghost start = data@;
    while i > lo
        invariant
            less_than.decisive(),
            sifted_range(relation_of(*less_than), start, lo as int, hi as int) == sifted_range(
                relation_of(*less_than),
                data@,
                lo as int,
                i as int,
            ),
        decreases i,
    {
        i = i - 1;
        sift_down_by(data, i, less_than);
    }
}

/// Heapify (min-heap) with respect to `less_than`.
pub fn heapify_by<T, S: OrderingPredicate<T>>(data: &mut Vec<T>, less_than: &S)
    requires
        less_than.decisive(),
    ensures
        final(data)@ == heapified(relation_of(*less_than), old(data)@),
        final(data)@.to_multiset() == old(data)@.to_multiset(),
        is_strict_weak_order(relation_of(*less_than)) ==> is_heap(
            relation_of(*less_than),
            final(data)@,
        ),
{
    proof {
        lemma_tail_heapified_permutes(relation_of(*less_than), data@, 0);
        if is_strict_weak_order(relation_of(*less_than)) {
            lemma_heapified_is_heap(relation_of(*less_than), data@);
        }
    }
    if data.is_empty() {
        return ;  // there is nothing to do
    }
    let half = data.len() / 2;
    sift_range_by(data, 0, half, less_than);
}

/// Heapify (min-heap) with respect to `less_than`.
pub fn heapify<T, S>(data: &mut Vec<T>, less_than: S) where S: Fn(&T, &T) -> bool
    requires
        less_than.decisive(),
    ensures
        final(data)@ == heapified(relation_of(less_than), old(data)@),
        final(data)@.to_multiset() == old(data)@.to_multiset(),
        is_strict_weak_order(relation_of(less_than)) ==> is_heap(
            relation_of(less_than),
            final(data)@,
        ),
{
    heapify_by(data, &less_than)
}

/// Heapify (min-heap) with respect to `less_than`, assuming that
/// `data[0..tail_base]` (excluding `tail_base`) is already a heap.
///
/// Only the ancestors of the tail are sifted, one row of the tree after
/// the other, from the bottom up.
pub fn heapify_tail_by<T, S: OrderingPredicate<T>>(
    data: &mut Vec<T>,
    less_than: &S,
    tail_base: &usize,
)
    requires
        less_than.decisive(),
    ensures
        final(data)@ == tail_heapified(relation_of(*less_than), old(data)@, *tail_base as int),
        final(data)@.to_multiset() == old(data)@.to_multiset(),
        is_strict_weak_order(relation_of(*less_than)) && *tail_base <= old(data)@.len() && is_heap(
            relation_of(*less_than),
            old(data)@.take(*tail_base as int),
        ) ==> is_heap(relation_of(*less_than), final(data)@),
{
    proof {
        let lt = relation_of(*less_than);
        lemma_tail_heapified_permutes(lt, data@, *tail_base as int);
        if is_strict_weak_order(lt) && *tail_base <= data@.len() && is_heap(
            lt,
            data@.take(*tail_base as int),
        ) {
            lemma_tail_heapified_is_heap(lt, data@, *tail_base as int);
        }
    }
    if *tail_base >= data.len() {
        // in this case the vector is already heapified; nothing to do
        return ;
    }
    if data.len() < 2 {
        // in this case the vector is already heapified; nothing to do
        return ;
    }
    let mut right = data.len() - 1;
    let last_parent = parent_or_0(&right);
    let mut left = if *tail_base >= last_parent {
        *tail_base
    } else {
        last_parent
    };
    let ghost start = data@;
    while right != 0
        invariant
            less_than.decisive(),
            left <= right < data@.len(),
            tail_heapified(relation_of(*less_than), start, *tail_base as int) == tail_rounds(
                relation_of(*less_than),
                data@,
                left as int,
                right as int,
            ),
        decreases right,
    {
        left = parent_or_0(&left);  // leftmost parent
        right = parent_or_0(&right);  // rightmost parent
        proof {
            lemma_sifted_range(relation_of(*less_than), data@, left as int, right + 1);
        }
        sift_range_by(data, left, right + 1, less_than);
    }
}

/// Heapify (min-heap) with respect to `less_than`, assuming that
/// `data[0..tail_base]` (excluding `tail_base`) is already a heap.
pub fn heapify_tail<T, S>(data: &mut Vec<T>, less_than: S, tail_base: &usize) where
    S: Fn(&T, &T) -> bool,

    requires
        less_than.decisive(),
    ensures
        final(data)@ == tail_heapified(relation_of(less_than), old(data)@, *tail_base as int),
        final(data)@.to_multiset() == old(data)@.to_multiset(),
        is_strict_weak_order(relation_of(less_than)) && *tail_base <= old(data)@.len() && is_heap(
            relation_of(less_than),
            old(data)@.take(*tail_base as int),
        ) ==> is_heap(relation_of(less_than), final(data)@),
{
    heapify_tail_by(data, &less_than, tail_base)
}

//  ---------------------------------------------------------------------------
//  INSERT
//  ---------------------------------------------------------------------------
/// Add new elements to a heapified vector, and heapify.
///
/// Heapification is performed not with [`heapify`] but with [`heapify_tail`].
pub fn bulk_insert<T, F>(heap: &mut Vec<T>, less_than: F, iter: Vec<T>) where
    F: Fn(&T, &T) -> bool,

    requires
        less_than.decisive(),
    ensures
        final(heap)@ == tail_heapified(
            relation_of(less_than),
            old(heap)@ + iter@,
            old(heap)@.len() as int,
        ),
        final(heap)@.to_multiset() == old(heap)@.to_multiset().add(iter@.to_multiset()),
        is_strict_weak_order(relation_of(less_than)) && is_heap(relation_of(less_than), old(heap)@)
            ==> is_heap(relation_of(less_than), final(heap)@),
{
    let base = heap.len();
    let mut iter = iter;
    proof {
        vstd::seq_lib::lemma_multiset_commutative(heap@, iter@);
        assert((heap@ + iter@).take(base as int) =~= heap@);
    }
    heap.append(&mut iter);
    heapify_tail_by(heap, &less_than, &base);
}

//  ---------------------------------------------------------------------------
//  POP
//  ---------------------------------------------------------------------------
/// Pop the top (meaning smallest) element from the heap; replace this with
/// the last element and sift down, producing a new heap with 1 less element.
pub fn pop_by<T, F: OrderingPredicate<T>>(heap: &mut Vec<T>, less_than: &F) -> (r: Option<T>)
    requires
        less_than.decisive(),
    ensures
        old(heap)@.len() == 0 ==> r is None && final(heap)@ == old(heap)@,
        old(heap)@.len() > 0 ==> r == Some(old(heap)@[0]) && final(heap)@ == popped(
            relation_of(*less_than),
            old(heap)@,
        ),
        is_strict_weak_order(relation_of(*less_than)) && is_heap(
            relation_of(*less_than),
            old(heap)@,
        ) ==> is_heap(relation_of(*less_than), final(heap)@),
{
    if heap.len() == 0 {
        return None;
    }
    proof {
        if is_strict_weak_order(relation_of(*less_than)) && is_heap(
            relation_of(*less_than),
            heap@,
        ) {
            lemma_popped_is_heap(relation_of(*less_than), heap@);
        }
    }
    let val = heap.swap_remove(0);
    if heap.len() > 0 {
        sift_down_by(heap, 0, less_than);
    }
    return Some(val)
}

/// Pop the top (meaning smallest) element from the heap; replace this with
/// the last element and sift down, producing a new heap with 1 less element.
pub fn pop<T, F>(heap: &mut Vec<T>, less_than: F) -> (r: Option<T>) where F: Fn(&T, &T) -> bool
    requires
        less_than.decisive(),
    ensures
        old(heap)@.len() == 0 ==> r is None && final(heap)@ == old(heap)@,
        old(heap)@.len() > 0 ==> r == Some(old(heap)@[0]) && final(heap)@ == popped(
            relation_of(less_than),
            old(heap)@,
        ),
        is_strict_weak_order(relation_of(less_than)) && is_heap(
            relation_of(less_than),
            old(heap)@,
        ) ==> is_heap(relation_of(less_than), final(heap)@),
{
    pop_by(heap, &less_than)
}

//  ---------------------------------------------------------------------------
//  HEAP ITERATOR
//  ---------------------------------------------------------------------------
/// The items of `heap` in the order in which popping hands them out.
pub open spec fn popped_in_order<T>(lt: spec_fn(T, T) -> bool, heap: Seq<T>) -> Seq<T>
    decreases heap.len(),
{
    if heap.len() == 0 {
        Seq::empty()
    } else {
        proof {
            lemma_sifted_down(lt, heap.update(0, heap.last()).drop_last(), 0);
        }
        seq![heap[0]] + popped_in_order(lt, popped(lt, heap))
    }
}

/// A struct to iteratively pop elements off a heap.
///
/// Assuming `heap` is a min-heap with respect to `less_than`, this stream
/// will return elements in (ascending, wrt `less_than`) sorted order.
#[derive(Debug, Clone)]
pub struct HeapIterator<T, F> {
    pub heap: Vec<T>,
    pub less_than: F,
}

impl<T, F: OrderingPredicate<T>> Stream for HeapIterator<T, F> {
    type Item = T;

    open spec fn valid(&self) -> bool {
        self.less_than.decisive()
    }

    open spec fn remaining(&self) -> Seq<T> {
        popped_in_order(relation_of(self.less_than), self.heap@)
    }

    /// The number of items in the heap, as lower and as upper bound.
    open spec fn hint(&self) -> (usize, Option<usize>) {
        (self.heap@.len() as usize, Some(self.heap@.len() as usize))
    }

    fn next(&mut self) -> (r: Option<T>) {
        let r = pop_by(&mut self.heap, &self.less_than);
        proof {
            let before = old(self).heap@;
            if before.len() > 0 {
                let rest = popped_in_order(relation_of(self.less_than), popped(relation_of(self.less_than), before));
                assert((seq![before[0]] + rest).skip(1) =~= rest);
            }
        }
        r
    }

    fn size_hint(&self) -> (r: (usize, Option<usize>))
        ensures
            r == (self.heap@.len() as usize, Some(self.heap@.len() as usize)),
    {
        proof {
            lemma_popped_in_order_len(relation_of(self.less_than), self.heap@);
        }
        (self.heap.len(), Some(self.heap.len()))
    }
}

/// Popping a heap until it is empty hands out as many items as it holds.
pub proof fn lemma_popped_in_order_len<T>(lt: spec_fn(T, T) -> bool, heap: Seq<T>)
    ensures
        popped_in_order(lt, heap).len() == heap.len(),
    decreases heap.len(),
{
    if heap.len() > 0 {
        lemma_sifted_down(lt, heap.update(0, heap.last()).drop_last(), 0);
        lemma_popped_in_order_len(lt, popped(lt, heap));
    }
}

/// `s` is in ascending order: no item precedes an earlier one.
pub open spec fn is_ascending<T>(lt: spec_fn(T, T) -> bool, s: Seq<T>) -> bool {
    forall|i: int, j: int| 0 <= i < j < s.len() ==> !lt(s[j], s[i])
}

/// The first item of a heap precedes-or-equals every item of the heap.
pub proof fn lemma_heap_root_is_least<T>(
    lt: spec_fn(T, T) -> bool,
    heap: Seq<T>,
    k: int,
)
    requires
        is_strict_weak_order(lt),
        is_heap(lt, heap),
        0 <= k < heap.len(),
    ensures
        !lt(heap[k], heap[0]),
    decreases k,
{
    if k > 0 {
        let p = (k - 1) / 2;
        lemma_heap_root_is_least(lt, heap, p);
        assert(node_in_order(lt, heap, p));
        assert(k == 2 * p + 1 || k == 2 * p + 2);
    }
}

/// Popping a heap until it is empty hands out its items in ascending order.
pub proof fn lemma_popped_in_order_is_sorted<T>(lt: spec_fn(T, T) -> bool, heap: Seq<T>)
    requires
        is_strict_weak_order(lt),
        is_heap(lt, heap),
    ensures
        is_ascending(lt, popped_in_order(lt, heap)),
        popped_in_order(lt, heap).to_multiset() == heap.to_multiset(),
        popped_in_order(lt, heap).len() == heap.len(),
    decreases heap.len(),
{
    broadcast use vstd::seq_lib::group_to_multiset_ensures;
    broadcast use vstd::multiset::group_multiset_axioms;

    let out = popped_in_order(lt, heap);
    if heap.len() > 0 {
        let rest_heap = popped(lt, heap);
        lemma_popped_is_heap(lt, heap);
        lemma_popped_in_order_is_sorted(lt, rest_heap);
        let rest = popped_in_order(lt, rest_heap);
        assert(out == seq![heap[0]] + rest);
        vstd::seq_lib::lemma_multiset_commutative(seq![heap[0]], rest);
        assert(seq![heap[0]].to_multiset() =~= Multiset::singleton(heap[0]));
        assert(heap.to_multiset().contains(heap[0]));
        assert(out.to_multiset() =~= heap.to_multiset());
        assert forall|i: int, j: int| 0 <= i < j < out.len() implies !lt(
            out[j],
            out[i],
        ) by {
            if i == 0 {
                // every later item is still in the heap, whose root came first
                assert(rest.to_multiset().contains(rest[j - 1]));
                assert(heap.to_multiset().contains(out[j]));
                let k = choose|k: int| 0 <= k < heap.len() && heap[k] == out[j];
                lemma_heap_root_is_least(lt, heap, k);
            } else {
                assert(out[i] == rest[i - 1] && out[j] == rest[j - 1]);
            }
        }
    } else {
        assert(out.to_multiset() =~= heap.to_multiset());
    }
}

//  -----------------------------------------------------------------------------
//  RANDOM VECTORS, AND A TEST FOR HEAPS
//  -----------------------------------------------------------------------------
/// A number below `k`, drawn by `rand::Rng::gen_range` from the range `0..k`
/// with the generator of `rand::thread_rng`.  `gen_range` panics on an empty
/// range, and returns a number that lies in the range.
#[verifier::external_body]
fn draw_below(k: usize) -> (r: usize)
    requires
        k > 0,
    ensures
        r < k,
{
    rand::thread_rng().gen_range(0..k)
}

/// Generate a vector of length `n` entries drawn from the uniform distribution
/// on 0, ..., k-1.
pub fn randgen_n_of_k(n: usize, k: usize) -> (v: Vec<usize>)
    requires
        n > 0 ==> k > 0,
    ensures
        v@.len() == n,
        forall|i: int| 0 <= i < n ==> v@[i] < k,
{
    let mut v: Vec<usize> = Vec::new();
    let mut i: usize = 0;
    while i < n
        invariant
            i <= n,
            n > 0 ==> k > 0,
            v@.len() == i,
            forall|j: int| 0 <= j < i ==> v@[j] < k,
        decreases n - i,
    {
        let x = draw_below(k);
        v.push(x);
        i += 1;
    }
    v
}

/// True iff the input vector is already heapified with respect to `less_than`.
pub fn is_heapified<T, F>(vec: Vec<T>, less_than: F) -> (heapified: bool) where
    F: Fn(&T, &T) -> bool,

    requires
        less_than.decisive(),
    ensures
        heapified == is_heap(relation_of(less_than), vec@),
{
    let mut pos = vec.len();
    while pos > 1
        invariant
            less_than.decisive(),
            pos <= vec@.len(),
            forall|c: int|
                pos <= c < vec@.len() && c > 0 ==> !less_than.precedes(
                    #[trigger] vec@[c],
                    vec@[(c - 1) / 2],
                ),
        decreases pos,
    {
        pos = pos - 1;
        let par = (pos - 1) / 2;
        if less_than.ordering_predicate(&vec[pos], &vec[par]) {
            proof {
                // node `par` has a child that precedes it
                assert(pos == 2 * par + 1 || pos == 2 * par + 2);
                assert(!node_in_order(relation_of(less_than), vec@, par as int));
            }
            return false;
        }
    }
    proof {
        assert forall|j: int| 0 <= j < vec@.len() implies #[trigger] node_in_order(
            relation_of(less_than),
            vec@,
            j,
        ) by {
            if 2 * j + 1 < vec@.len() {
                assert(!less_than.precedes(vec@[2 * j + 1], vec@[(2 * j + 1 - 1) / 2]));
            }
            if 2 * j + 2 < vec@.len() {
                assert(!less_than.precedes(vec@[2 * j + 2], vec@[(2 * j + 2 - 1) / 2]));
            }
        }
    }
    true
}

} // verus!
