use solar::utilities::heaps::heap::{
    bulk_insert, child_a, child_b, heapify, heapify_tail, is_heapified, min_node_same_row, parent,
    parent_or_0, pop, randgen_n_of_k, sift_down, HeapIterator,
};
use solar::utilities::iterators::utility::{collect, Stream};

#[test]
fn test_heap_functions() {
    let n = 10;
    for _ in 0..n {
        let vec = randgen_n_of_k(n, n / 2);

        let precedes = |p: &usize, q: &usize| p < q;

        for a in 0..n {
            for b in a..n {
                // excise two parts of a vector
                let veca: Vec<usize> = (0..a).map(|x| vec[x].clone()).collect();
                let vecb: Vec<usize> = (a..b).map(|x| vec[x].clone()).collect();

                // heapify the fist part
                // ----------------------

                let mut heap_a = veca.clone();
                heapify(&mut heap_a, precedes);
                assert!(is_heapified(heap_a.clone(), precedes));

                // append the second, and heapify
                // -------------------------------

                let mut heap_b = heap_a.clone();
                heap_b.extend(vecb.clone());
                heapify_tail(&mut heap_b, precedes, &a);
                assert!(is_heapified(heap_b.clone(), precedes));

                // alternatively, bulk-insert the tail
                // -----------------------------------

                let mut heap_c = heap_a.clone();
                bulk_insert(&mut heap_c, precedes, vecb.clone());
                assert!(is_heapified(heap_c.clone(), precedes));

                // check that popping out elements returns a sorted vector
                // -------------------------------------------------------

                let sorted_a: Vec<usize> = collect(HeapIterator {
                    heap: heap_a.clone(),
                    less_than: |p: &usize, q: &usize| &p < &q,
                });
                let sorted_b: Vec<usize> = collect(HeapIterator {
                    heap: heap_b.clone(),
                    less_than: |p: &usize, q: &usize| &p < &q,
                });
                let sorted_c: Vec<usize> = collect(HeapIterator {
                    heap: heap_c.clone(),
                    less_than: |p: &usize, q: &usize| &p < &q,
                });

                let mut sorted_true_a: Vec<usize> = (0..a).map(|x| vec[x].clone()).collect();
                let mut sorted_true_b: Vec<usize> = (0..b).map(|x| vec[x].clone()).collect();
                sorted_true_a.sort();
                sorted_true_b.sort();

                assert_eq!(sorted_a, sorted_true_a.clone());
                assert_eq!(sorted_b, sorted_true_b.clone());
                assert_eq!(sorted_c, sorted_true_b.clone());
            }
        }
    }
}

// The binary tree:
//                     0
//             1               2
//         3       4       5       6
//       7  8    9  10   11 12   13 14

#[test]
fn first_node_of_the_row() {
    assert_eq!(1, min_node_same_row(&2));
    assert_eq!(3, min_node_same_row(&4));
    assert_eq!(7, min_node_same_row(&11));
    assert_eq!(0, min_node_same_row(&0));
    assert_eq!(1, min_node_same_row(&1));
    assert_eq!(7, min_node_same_row(&14));
    assert_eq!(15, min_node_same_row(&15));
    assert_eq!(usize::MAX, min_node_same_row(&usize::MAX));
    assert_eq!(usize::MAX / 2, min_node_same_row(&(usize::MAX - 1)));
}

#[test]
fn parents_and_children() {
    assert_eq!(1, parent_or_0(&4));
    assert_eq!(0, parent_or_0(&0));
    assert_eq!(0, parent_or_0(&1));
    assert_eq!(0, parent_or_0(&2));
    assert_eq!(6, parent_or_0(&14));
    assert_eq!(Some(1), parent(&4));
    assert_eq!(None, parent(&0));
    assert_eq!(Some(0), parent(&2));
    assert_eq!(11, child_a(&5));
    assert_eq!(13, child_a(&6));
    assert_eq!(1, child_a(&0));
    assert_eq!(4, child_b(&1));
    assert_eq!(8, child_b(&3));
    assert_eq!(2, child_b(&0));
}

#[test]
fn pop_takes_the_least() {
    let mut vec = vec![0, 3, 5, 4];
    let top = pop(&mut vec, |p: &i32, q: &i32| p < q).unwrap();
    assert_eq!(0, top);
    assert_eq!(vec, vec![3, 4, 5]);
}

#[test]
fn pop_on_small_heaps() {
    let mut empty: Vec<u8> = vec![];
    assert_eq!(pop(&mut empty, |p: &u8, q: &u8| p < q), None);
    assert_eq!(empty, vec![]);
    let mut one = vec![9u8];
    assert_eq!(pop(&mut one, |p: &u8, q: &u8| p < q), Some(9));
    assert_eq!(one, vec![]);
    let mut two = vec![1u8, 2];
    assert_eq!(pop(&mut two, |p: &u8, q: &u8| p < q), Some(1));
    assert_eq!(two, vec![2]);
}

#[test]
fn sift_down_exchanges_with_the_smaller_child() {
    let lt = |p: &i32, q: &i32| p < q;
    // 9 sinks below 1, then below 3
    let mut heap = vec![9, 1, 2, 3, 4, 5, 6];
    sift_down(&mut heap, 0, lt);
    assert_eq!(heap, vec![1, 3, 2, 9, 4, 5, 6]);
    // the right child is preferred only if it is strictly smaller
    let mut heap = vec![9, 2, 2];
    sift_down(&mut heap, 0, lt);
    assert_eq!(heap, vec![2, 9, 2]);
    let mut heap = vec![9, 3, 2];
    sift_down(&mut heap, 0, lt);
    assert_eq!(heap, vec![2, 3, 9]);
    // nothing happens where there is no child, or the order holds
    let mut heap = vec![1, 2, 3];
    sift_down(&mut heap, 1, lt);
    assert_eq!(heap, vec![1, 2, 3]);
    sift_down(&mut heap, 0, lt);
    assert_eq!(heap, vec![1, 2, 3]);
    sift_down(&mut heap, 3, lt);
    sift_down(&mut heap, 17, lt);
    assert_eq!(heap, vec![1, 2, 3]);
    let mut empty: Vec<i32> = vec![];
    sift_down(&mut empty, 0, lt);
    assert_eq!(empty, vec![]);
}

#[test]
fn heapify_exact() {
    let lt = |p: &i32, q: &i32| p < q;
    let mut data = vec![5, 4, 3, 2, 1];
    heapify(&mut data, lt);
    assert_eq!(data, vec![1, 2, 3, 5, 4]);
    assert!(is_heapified(data.clone(), lt));
    let mut none: Vec<i32> = vec![];
    heapify(&mut none, lt);
    assert_eq!(none, vec![]);
}

#[test]
fn heapify_tail_exact() {
    let lt = |p: &i32, q: &i32| p < q;
    let mut data = vec![1, 3, 5, 0];
    heapify_tail(&mut data, lt, &3);
    assert_eq!(data, vec![0, 1, 5, 3]);
    // a tail base at or beyond the end leaves the data alone
    let mut data = vec![3, 2, 1];
    heapify_tail(&mut data, lt, &3);
    assert_eq!(data, vec![3, 2, 1]);
    heapify_tail(&mut data, lt, &9);
    assert_eq!(data, vec![3, 2, 1]);
    // a tail base of zero heapifies everything
    heapify_tail(&mut data, lt, &0);
    assert_eq!(data, vec![1, 2, 3]);
    let mut one = vec![7];
    heapify_tail(&mut one, lt, &0);
    assert_eq!(one, vec![7]);
}

#[test]
fn bulk_insert_exact() {
    let lt = |p: &i32, q: &i32| p < q;
    let mut heap = vec![1, 3, 5];
    bulk_insert(&mut heap, lt, vec![0, 2]);
    assert_eq!(heap, vec![0, 1, 5, 3, 2]);
    assert!(is_heapified(heap.clone(), lt));
    bulk_insert(&mut heap, lt, vec![]);
    assert_eq!(heap, vec![0, 1, 5, 3, 2]);
}

#[test]
fn is_heapified_tells_heaps_from_other_vectors() {
    let lt = |p: &i32, q: &i32| p < q;
    assert!(is_heapified(Vec::<i32>::new(), lt));
    assert!(is_heapified(vec![4], lt));
    assert!(is_heapified(vec![1, 1, 1], lt));
    assert!(is_heapified(vec![1, 2, 3, 4], lt));
    assert!(!is_heapified(vec![2, 1], lt));
    assert!(!is_heapified(vec![1, 2, 3, 1], lt));
    // with the opposite order
    assert!(is_heapified(vec![3, 2, 1], |p: &i32, q: &i32| p > q));
}

#[test]
fn heap_iterator_is_a_stream() {
    let mut it = HeapIterator { heap: vec![1, 3, 2], less_than: |p: &i32, q: &i32| p < q };
    assert_eq!(it.size_hint(), (3, Some(3)));
    assert_eq!(it.next(), Some(1));
    assert_eq!(it.next(), Some(2));
    assert_eq!(it.size_hint(), (1, Some(1)));
    assert_eq!(it.next(), Some(3));
    assert_eq!(it.next(), None);
    assert_eq!(it.next(), None);
}

#[test]
fn random_vectors_lie_in_range() {
    for k in 1..6 {
        let v = randgen_n_of_k(50, k);
        assert_eq!(v.len(), 50);
        assert!(v.iter().all(|x| *x < k));
    }
    assert_eq!(randgen_n_of_k(0, 0), vec![]);
    assert_eq!(randgen_n_of_k(4, 1), vec![0, 0, 0, 0]);
    // with a large range, fifty draws are not all equal
    let v = randgen_n_of_k(50, 1_000_000);
    assert!(v.iter().any(|x| *x != v[0]));
}
