use solar::utilities::indexing_and_bijection::{
    compose_f_after_g, inverse_perm, sort_perm, EndIndex, SuperIndex, SuperVec,
};
use solar::utilities::sequences_and_ordinals::{
    ordinate_unique_vals, reverse_hash_sequential, BiMapSequential,
};
use solar::utilities::statistics::histogram;
use std::iter::FromIterator;

#[test]
fn test_sort_perm() {
    // initialize vector
    let v = vec![1, 2, 3, 4, 2, 1, 2, 2, 1, 4, 3];

    // obtain permutations
    let new_to_old = sort_perm(&v);
    let old_to_new = inverse_perm(&new_to_old);

    // determine grond truth
    let mut v_sorted = v.clone();
    v_sorted.sort();

    let ascend = Vec::from_iter(0..v.len());

    println!("{:?}", compose_f_after_g(&v, &new_to_old));
    println!("{:?}", compose_f_after_g(&old_to_new, &new_to_old));
    println!("{:?}", compose_f_after_g(&new_to_old, &old_to_new));

    assert_eq!(&compose_f_after_g(&v, &new_to_old), &v_sorted);

    assert_eq!(&compose_f_after_g(&old_to_new, &new_to_old), &ascend);

    assert_eq!(&compose_f_after_g(&new_to_old, &old_to_new), &ascend);
}

#[test]
fn sort_perm_keeps_the_order_of_equal_items() {
    let v = vec![1, 2, 3, 4, 2, 1, 2, 2, 1, 4, 3];
    assert_eq!(sort_perm(&v), vec![0, 5, 8, 1, 4, 6, 7, 2, 10, 3, 9]);
    assert_eq!(sort_perm(&vec!['b', 'a']), vec![1, 0]);
    assert_eq!(sort_perm(&Vec::<u8>::new()), Vec::<usize>::new());
    assert_eq!(sort_perm(&vec![7]), vec![0]);
}

#[test]
fn inverse_perm_inverts() {
    assert_eq!(inverse_perm(&vec![2, 0, 1]), vec![1, 2, 0]);
    assert_eq!(inverse_perm(&vec![]), Vec::<usize>::new());
    // where an index occurs twice, the later occurrence counts; others map to zero
    assert_eq!(inverse_perm(&vec![1, 1, 1]), vec![0, 2, 0]);
}

#[test]
fn composition_picks_items() {
    assert_eq!(compose_f_after_g(&vec!['a', 'b', 'c'], &vec![2, 2, 0]), vec!['c', 'c', 'a']);
    assert_eq!(compose_f_after_g(&vec!['a'], &vec![]), Vec::<char>::new());
    let lists = vec![vec![1], vec![2, 3]];
    assert_eq!(compose_f_after_g(&lists, &vec![1, 0]), vec![vec![2, 3], vec![1]]);
}

#[test]
fn super_index_and_end_index() {
    let v = vec![0, 1, 2];
    assert_eq!(1, v.sindex(1, 0));
    assert_eq!(0, v.sindex(5, 0));
    assert_eq!(7, v.sindex(3, 7));
    assert_eq!(v.end_index(), Some(2));
    assert_eq!(Vec::<u8>::new().end_index(), None);
    let sv = SuperVec { vec: vec!['x', 'y'], val: 'z' };
    assert_eq!(sv.val(0), 'x');
    assert_eq!(sv.val(1), 'y');
    assert_eq!(sv.val(2), 'z');
    assert_eq!(sv.val(usize::MAX), 'z');
}

#[test]
fn histogram_counts() {
    assert_eq!(histogram(vec![1, 3, 1, 0, 1]), vec![1, 3, 0, 1]);
    assert_eq!(histogram(vec![]), Vec::<usize>::new());
    assert_eq!(histogram(vec![0]), vec![1]);
    assert_eq!(histogram(vec![2, 2]), vec![0, 0, 2]);
}

#[test]
fn bimap_maps_both_ways() {
    let bimap = BiMapSequential::from_vec(vec!['a', 'b', 'c']);
    assert_eq!(bimap.ord(&'a'), Some(0));
    assert_eq!(bimap.ord(&'c'), Some(2));
    assert_eq!(bimap.ord(&'d'), None);
    assert_eq!(bimap.val(1), Some('b'));
    assert_eq!(bimap.val(3), None);
    assert_eq!(bimap.ord_to_val, vec!['a', 'b', 'c']);
    // a value that occurs twice has the ordinal of its last occurrence
    let twice = BiMapSequential::from_vec(vec![5, 6, 5]);
    assert_eq!(twice.ord(&5), Some(2));
    let none = BiMapSequential::<u8>::from_vec(vec![]);
    assert_eq!(none.ord(&0), None);
    assert_eq!(none.val(0), None);
}

#[test]
fn unique_values_in_order() {
    let bimap = ordinate_unique_vals(&vec![3, 1, 3, 2, 1, 1]);
    assert_eq!(bimap.ord_to_val, vec![1, 2, 3]);
    assert_eq!(bimap.ord(&2), Some(1));
    assert_eq!(bimap.val(2), Some(3));
    assert_eq!(ordinate_unique_vals(&Vec::<i8>::new()).ord_to_val, Vec::<i8>::new());
    assert_eq!(ordinate_unique_vals(&vec![2, 1]).ord_to_val, vec![1, 2]);
}

#[test]
fn reverse_hash_takes_items_to_indices() {
    let hash = reverse_hash_sequential(&vec!['x', 'y', 'x']);
    assert_eq!(hash.len(), 2);
    assert_eq!(hash.get(&'x'), Some(&2));
    assert_eq!(hash.get(&'y'), Some(&1));
    assert!(reverse_hash_sequential(&Vec::<u8>::new()).is_empty());
}
