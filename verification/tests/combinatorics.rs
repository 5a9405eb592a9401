use itertools::Itertools;
use rand::Rng;
use solar::utilities::combinatorics::fixed_sum_sequences;
use std::iter::FromIterator;

#[test]
fn test_fixed_sum_sequences() {
    let max_seq_length = 4;
    let max_capacity_param_ceiling = 4;

    let mut rng = rand::thread_rng();
    for seq_len in 0..max_seq_length {
        for max_capacity in 0..max_capacity_param_ceiling {
            let caps = Vec::from_iter((0..seq_len).map(|_x| rng.gen_range(0..max_capacity + 1))); // random sequence of capacitites
            for target_sum in 0..caps.iter().sum() {
                let mut a = Vec::from_iter(
                    caps.iter()
                        .map(|x| 0..x + 1)
                        .multi_cartesian_product()
                        .filter(|x| x.iter().sum::<usize>() == target_sum),
                );
                let mut b = fixed_sum_sequences(&caps, target_sum);

                a.sort();
                b.sort();

                assert_eq!(a, b);
            }
        }
    }
}

#[test]
fn fixed_sum_sequences_in_order() {
    assert_eq!(
        fixed_sum_sequences(&vec![2, 1, 2], 3),
        vec![vec![2, 1, 0], vec![2, 0, 1], vec![1, 1, 1], vec![1, 0, 2], vec![0, 1, 2]]
    );
    assert_eq!(fixed_sum_sequences(&vec![], 0), vec![Vec::<usize>::new()]);
    assert_eq!(fixed_sum_sequences(&vec![], 1), Vec::<Vec<usize>>::new());
    assert_eq!(fixed_sum_sequences(&vec![1, 1], 3), Vec::<Vec<usize>>::new());
    assert_eq!(fixed_sum_sequences(&vec![3], 2), vec![vec![2]]);
    assert_eq!(fixed_sum_sequences(&vec![0, 0], 0), vec![vec![0, 0]]);
    assert_eq!(fixed_sum_sequences(&vec![usize::MAX], usize::MAX), vec![vec![usize::MAX]]);
}
