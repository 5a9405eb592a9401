use solar::utilities::iterators::hit_merge::{
    hit_bulk_insert, hit_merge_ascend, hit_merge_by, hit_merge_by_predicate, hit_merge_descend,
    HeadTail, HitMerge, HitOrderGt, HitOrderLt, OrderingPredicate,
};
use solar::utilities::iterators::utility::{
    collect, extend, hacked_size_hint_add, hacked_size_hint_add_scalar, OnceStream, PeekUnqualified,
    Peekable, RevSliceStream, SliceStream, Stream, VecStream,
};

fn streams<T: Copy>(lists: Vec<Vec<T>>) -> Vec<VecStream<T>> {
    lists.into_iter().map(VecStream::new).collect()
}

#[test]
fn merge_by_a_closure() {
    // Result may not respect the order function if the input sequences do not.
    let unordered_sequences = streams(vec![vec![2i32, 0, -4]]);
    let x: Vec<_> = collect(hit_merge_by(unordered_sequences, |a: &i32, b: &i32| a.abs() < b.abs()));
    assert_eq!(x, vec![2, 0, -4]);

    // Result *will* respect the order function if the input sequences do.
    let ordered_sequences = streams(vec![vec![1i32, -2], vec![0, -3]]);
    let y: Vec<_> = collect(hit_merge_by(ordered_sequences, |a: &i32, b: &i32| a.abs() < b.abs()));
    assert_eq!(y, vec![0, 1, -2, -3])
}

#[test]
fn merge_ascending() {
    // Result may not respect order if the input sequences do not.
    let data_unordered = streams(vec![vec![2usize, 0, 4]]);
    let x: Vec<usize> = collect(hit_merge_ascend(data_unordered));
    assert_eq!(x, vec![2, 0, 4]);

    let data_ordered = streams(vec![vec![1usize, 2], vec![0, 3]]);
    let y: Vec<usize> = collect(hit_merge_ascend(data_ordered));
    assert_eq!(y, vec![0, 1, 2, 3])
}

#[test]
fn merge_descending() {
    let data_unordered = streams(vec![vec![2usize, 0, 4]]);
    let merged_unordered: Vec<usize> = collect(hit_merge_descend(data_unordered));
    assert_eq!(merged_unordered, vec![2, 0, 4]);

    let data_ordered = streams(vec![vec![6usize, 4], vec![5, 3]]);
    let merged_ordered: Vec<usize> = collect(hit_merge_descend(data_ordered));
    assert_eq!(merged_ordered, vec![6, 5, 4, 3])
}

#[test]
fn bulk_insert_into_a_running_merge() {
    // Create a HIT iterator, and pop off some elements
    let ordered_sequences = streams(vec![vec![1usize, 2], vec![0, 3]]);
    let mut hit = hit_merge_ascend(ordered_sequences);
    assert_eq!(Some(0), hit.next());
    assert_eq!(Some(1), hit.next());

    // Insert new iterators into the heap.
    hit_bulk_insert(&mut hit, streams(vec![vec![4, 5], vec![6]]));
    let vec: Vec<usize> = collect(hit);
    assert_eq!(vec, vec![2, 3, 4, 5, 6])
}

#[test]
fn merge_of_two_ascending_streams_is_ascending_and_keeps_every_item() {
    let a = vec![1u32, 1, 4, 7, 7, 9];
    let b = vec![0u32, 1, 5, 7, 10, 11, 12];
    let out = collect(hit_merge_ascend(streams(vec![a.clone(), b.clone()])));
    assert_eq!(out, vec![0, 1, 1, 1, 4, 5, 7, 7, 7, 9, 10, 11, 12]);
    assert!(out.windows(2).all(|w| w[0] <= w[1]));
    let mut union = a;
    union.extend(b);
    union.sort();
    assert_eq!(out, union);
}

#[test]
fn merge_of_unsorted_streams_loses_nothing() {
    let lists = vec![vec![5u8, 1, 9], vec![], vec![3, 3, 0], vec![2]];
    let mut out = collect(hit_merge_ascend(streams(lists.clone())));
    assert_eq!(out.len(), 7);
    out.sort();
    let mut all: Vec<u8> = lists.into_iter().flatten().collect();
    all.sort();
    assert_eq!(out, all);
}

#[test]
fn merge_of_nothing_is_empty() {
    let mut hit = hit_merge_ascend(streams(Vec::<Vec<u8>>::new()));
    assert_eq!(hit.size_hint(), (0, Some(0)));
    assert_eq!(hit.next(), None);
    let mut hit = hit_merge_ascend(streams(vec![Vec::<u8>::new(), vec![]]));
    assert_eq!(hit.heap.len(), 0);
    assert_eq!(hit.next(), None);
    assert_eq!(hit.next(), None);
}

#[test]
fn exhausted_streams_leave_the_heap_when_their_head_is_taken() {
    let mut hit = hit_merge_ascend(streams(vec![vec![1u8], vec![2, 3]]));
    assert_eq!(hit.heap.len(), 2);
    assert_eq!(hit.size_hint(), (3, Some(3)));
    assert_eq!(hit.next(), Some(1));
    assert_eq!(hit.heap.len(), 1);
    assert_eq!(hit.next(), Some(2));
    assert_eq!(hit.heap.len(), 1);
    assert_eq!(hit.size_hint(), (1, Some(1)));
    assert_eq!(hit.next(), Some(3));
    assert_eq!(hit.heap.len(), 0);
    assert_eq!(hit.next(), None);
}

#[test]
fn bulk_insert_in_two_batches_equals_bulk_insert_in_one() {
    let start = vec![vec![3u16, 8, 20], vec![1, 9]];
    let first = vec![vec![2u16, 2, 30], vec![], vec![7]];
    let second = vec![vec![0u16, 40], vec![5, 6, 6], vec![4]];

    let mut two = hit_merge_ascend(streams(start.clone()));
    hit_bulk_insert(&mut two, streams(first.clone()));
    hit_bulk_insert(&mut two, streams(second.clone()));

    let mut one = hit_merge_ascend(streams(start));
    let mut all = first;
    all.extend(second);
    hit_bulk_insert(&mut one, streams(all));

    let two: Vec<u16> = collect(two);
    let one: Vec<u16> = collect(one);
    assert_eq!(two, one);
    assert_eq!(one, vec![0, 1, 2, 2, 3, 4, 5, 6, 6, 7, 8, 9, 20, 30, 40]);
}

#[test]
fn bulk_insert_of_nothing_changes_nothing() {
    let mut hit = hit_merge_ascend(streams(vec![vec![1u8, 2], vec![0, 3]]));
    hit_bulk_insert(&mut hit, Vec::new());
    hit_bulk_insert(&mut hit, streams(vec![vec![], vec![]]));
    assert_eq!(collect(hit), vec![0, 1, 2, 3]);
}

#[test]
fn merge_by_predicate_objects() {
    let up: HitMerge<VecStream<i8>, HitOrderLt> =
        hit_merge_by_predicate(streams(vec![vec![1i8, 5], vec![2]]), HitOrderLt);
    assert_eq!(collect(up), vec![1, 2, 5]);
    let down = hit_merge_by_predicate(streams(vec![vec![5i8, 1], vec![2]]), HitOrderGt);
    assert_eq!(collect(down), vec![5, 2, 1]);
    assert!(HitOrderLt.ordering_predicate(&1, &2));
    assert!(!HitOrderLt.ordering_predicate(&2, &2));
    assert!(HitOrderGt.ordering_predicate(&3, &2));
    assert!(!HitOrderGt.ordering_predicate(&2, &3));
    let by_closure = |a: &u8, b: &u8| a % 10 < b % 10;
    assert!(by_closure.ordering_predicate(&20, &11));
}

#[test]
fn head_tail_walks_its_stream() {
    assert!(HeadTail::new(VecStream::<u8>::new(vec![])).is_none());
    let mut ht = HeadTail::new(VecStream::new(vec![1u8, 2, 3])).unwrap();
    assert_eq!(ht.head, 1);
    assert_eq!(ht.size_hint(), (3, Some(3)));
    assert_eq!(ht.next(), Some(1));
    assert_eq!(ht.head, 2);
    assert_eq!(ht.next(), Some(2));
    assert_eq!(ht.head, 3);
    assert_eq!(ht.size_hint(), (1, Some(1)));
    // only the head remains
    assert_eq!(ht.next(), None);
    assert_eq!(ht.head, 3);
}

#[test]
fn size_hints_add_without_overflow() {
    assert_eq!(hacked_size_hint_add_scalar((1, Some(5)), 2), (3, Some(7)));
    assert_eq!(hacked_size_hint_add_scalar((1, None), 2), (3, None));
    assert_eq!(hacked_size_hint_add_scalar((usize::MAX, Some(usize::MAX)), 1), (usize::MAX, None));
    assert_eq!(hacked_size_hint_add_scalar((0, Some(usize::MAX - 1)), 1), (1, Some(usize::MAX)));
    assert_eq!(hacked_size_hint_add((1, Some(5)), (2, Some(7))), (3, Some(12)));
    assert_eq!(hacked_size_hint_add((1, Some(5)), (2, None)), (3, None));
    assert_eq!(hacked_size_hint_add((1, None), (2, Some(7))), (3, None));
    assert_eq!(
        hacked_size_hint_add((usize::MAX, Some(usize::MAX)), (1, Some(1))),
        (usize::MAX, None)
    );
}

#[test]
fn basic_streams() {
    let data = vec![1u8, 2, 3];
    assert_eq!(collect(SliceStream::new(&data)), vec![1, 2, 3]);
    assert_eq!(collect(RevSliceStream::new(&data)), vec![3, 2, 1]);
    assert_eq!(collect(OnceStream::new('a')), vec!['a']);
    let mut buffer = vec![9u8];
    extend(&mut buffer, VecStream::new(data.clone()));
    assert_eq!(buffer, vec![9, 1, 2, 3]);
    let mut rev = RevSliceStream::new(&data);
    assert_eq!(rev.size_hint(), (3, Some(3)));
    assert_eq!(rev.next(), Some(3));
    assert_eq!(rev.size_hint(), (2, Some(2)));
    let empty: Vec<u8> = vec![];
    assert_eq!(SliceStream::new(&empty).next(), None);
    assert_eq!(RevSliceStream::new(&empty).next(), None);
}

#[test]
fn peeking_does_not_consume() {
    let mut p = Peekable::new(VecStream::new(vec![1u8, 2]));
    assert_eq!(p.size_hint(), (2, Some(2)));
    assert_eq!(p.peek_unqualified(), Some(&1));
    assert_eq!(p.peek_unqualified(), Some(&1));
    assert_eq!(p.size_hint(), (2, Some(2)));
    assert_eq!(p.next(), Some(1));
    assert_eq!(p.next(), Some(2));
    assert_eq!(p.peek_unqualified(), None);
    assert_eq!(p.next(), None);
}
