use solar::matrix_factorization::vec_of_vec::{clear_cols, clear_if_in, right_reduce};
use solar::rings::field_prime::GF2;
use solar::rings::ring::{DivisionRing, Ring, Semiring};
use std::collections::HashMap;

/// The division ring of floating point numbers.
#[derive(Clone, Copy, Debug)]
struct Floats;

impl Semiring<f64> for Floats {
    fn is_zero(&self, x: f64) -> bool {
        x == 0.0
    }
    fn is_unit(&self, x: f64) -> bool {
        x == 1.0
    }
    fn zero_elt() -> f64 {
        0.0
    }
    fn one_elt() -> f64 {
        1.0
    }
    fn sum(&self, x: f64, y: f64) -> f64 {
        x + y
    }
    fn product(&self, x: f64, y: f64) -> f64 {
        x * y
    }
    fn is_0(&self, x: f64) -> bool {
        x == 0.0
    }
    fn is_1(&self, x: f64) -> bool {
        x == 1.0
    }
    fn zero() -> f64 {
        0.0
    }
    fn one() -> f64 {
        1.0
    }
    fn add(&self, x: f64, y: f64) -> f64 {
        x + y
    }
    fn multiply(&self, x: f64, y: f64) -> f64 {
        x * y
    }
}

impl Ring<f64> for Floats {
    fn difference(&self, x: f64, y: f64) -> f64 {
        x - y
    }
    fn negation(&self, x: f64) -> f64 {
        -x
    }
    fn subtract(&self, x: f64, y: f64) -> f64 {
        x - y
    }
    fn negate(&self, x: f64) -> f64 {
        -x
    }
}

impl DivisionRing<f64> for Floats {
    fn quotient(&self, x: f64, y: f64) -> f64 {
        x / y
    }
    fn inverse(&self, x: f64) -> f64 {
        1.0 / x
    }
    fn divide(&self, x: f64, y: f64) -> f64 {
        x / y
    }
    fn invert(&self, x: f64) -> f64 {
        1.0 / x
    }
}

fn sorted_pairs(hash: HashMap<usize, usize>) -> Vec<(usize, usize)> {
    let mut pivot_pairs: Vec<(usize, usize)> = hash.into_iter().collect();
    pivot_pairs.sort();
    pivot_pairs
}

#[test]
fn test() {
    // Input matrix
    let mut matrix = vec![
        vec![(2, 1.), (3, -1.)],
        vec![(2, -1.), (3, 2.)],
        vec![(1, 1.), (2, 1.)],
        vec![(0, 1.), (1, 1.)],
        vec![(0, 1.)],
    ];

    // Correctly reduced matrix
    let reduced_correct = vec![
        vec![(2, 1.), (3, -1.)],
        vec![(2, 1.)],
        vec![(1, 1.)],
        vec![(0, 1.)],
        vec![],
    ];

    // Compute the actual matrix and (sorted sequence of) pivot pairs
    let hash = right_reduce(&mut matrix, Floats);
    let pivot_pairs = sorted_pairs(hash);

    // Check
    assert_eq!(pivot_pairs, vec![(0, 3), (1, 2), (2, 1), (3, 0)]);
    assert_eq!(reduced_correct, matrix);
}

#[test]
fn test_clear_cols() {
    let matrix = vec![
        vec![(0, 1.), (1, 1.), (2, 1.)],
        vec![(1, 1.), (2, 1.)],
        vec![(0, 1.), (1, 1.)],
        vec![(0, 1.), (2, 1.)],
        vec![(0, 1.), (1, 0.), (2, 1.)],
        vec![(0, 1.), (1, 1.), (2, 1.)],
        vec![(0, 1.), (1, 2.), (2, 1.)],
        vec![],
        vec![(0, 1.), (1, 1.), (2, 1.)],
    ];

    let mut clearee_matrix = matrix.clone();

    let clearor = vec![(0, 1.), (1, 1.)];

    let pivot_entry = clearor.last().unwrap().clone();

    let col_ind_2clear = (1..7).collect();

    clear_cols(&clearor, &mut clearee_matrix, col_ind_2clear, &pivot_entry, Floats);

    let target_matrix = vec![
        vec![(0, 1.), (1, 1.), (2, 1.)],
        vec![(0, -1.), (2, 1.)],
        vec![],
        vec![(0, 1.), (2, 1.)],
        vec![(0, 1.), (1, 0.), (2, 1.)],
        vec![(2, 1.)],
        vec![(0, -1.), (2, 1.)],
        vec![],
        vec![(0, 1.), (1, 1.), (2, 1.)],
    ];
    assert_eq!(clearee_matrix, target_matrix);
}

#[test]
fn reduction_of_five_columns() {
    let mut matrix = vec![
        vec![(2, 1.), (3, -1.)],
        vec![(2, 1.), (3, 1.)],
        vec![(1, 1.), (2, 1.)],
        vec![(0, 1.), (1, 1.)],
        vec![(0, 1.)],
    ];
    let reduced_correct = vec![
        vec![(2, 1.), (3, -1.)],
        vec![(2, 2.)],
        vec![(1, 1.)],
        vec![(0, 1.)],
        vec![],
    ];
    let hash = right_reduce(&mut matrix, Floats);
    assert_eq!(hash.get(&3), Some(&0));
    assert_eq!(hash.get(&2), Some(&1));
    assert_eq!(hash.get(&1), Some(&2));
    assert_eq!(hash.get(&0), Some(&3));
    assert_eq!(sorted_pairs(hash), vec![(0, 3), (1, 2), (2, 1), (3, 0)]);
    assert_eq!(reduced_correct, matrix);
}

#[test]
fn pivot_map_takes_each_key_to_the_column_that_ends_on_it() {
    let mut matrix = vec![
        vec![(0, 1.), (4, 2.)],
        vec![(1, 1.), (4, 2.)],
        vec![(0, 3.), (1, -3.)],
        vec![],
        vec![(2, 1.), (4, 1.)],
        vec![(2, 5.)],
    ];
    let hash = right_reduce(&mut matrix, Floats);
    // no two keys are mapped to one column
    let mut columns: Vec<usize> = hash.values().cloned().collect();
    columns.sort();
    columns.dedup();
    assert_eq!(columns.len(), hash.len());
    // the keys are the last keys of the columns that did not vanish
    for (key, column) in hash.iter() {
        assert_eq!(matrix[*column].last().unwrap().0, *key);
    }
    for (index, column) in matrix.iter().enumerate() {
        if let Some(last) = column.last() {
            assert_eq!(hash.get(&last.0), Some(&index));
        }
    }
    assert_eq!(
        matrix,
        vec![
            vec![(0, 1.), (4, 2.)],
            vec![(0, -1.), (1, 1.)],
            vec![],
            vec![],
            vec![(0, -0.5), (2, 1.)],
            vec![(0, 2.5)],
        ]
    );
    assert_eq!(sorted_pairs(hash), vec![(0, 5), (1, 1), (2, 4), (4, 0)]);
}

#[test]
fn reduction_of_nothing() {
    let mut none: Vec<Vec<(usize, f64)>> = vec![];
    assert!(right_reduce(&mut none, Floats).is_empty());
    assert_eq!(none, Vec::<Vec<(usize, f64)>>::new());
    let mut empty_columns: Vec<Vec<(usize, f64)>> = vec![vec![], vec![]];
    assert!(right_reduce(&mut empty_columns, Floats).is_empty());
    assert_eq!(empty_columns, vec![vec![], vec![]]);
}

#[test]
fn reduction_over_gf2_finds_the_rank_mod_2() {
    // the boundary matrix of a filled triangle: three vertices, three edges, one face
    let mut matrix = vec![
        vec![],
        vec![],
        vec![],
        vec![(0, true), (1, true)],
        vec![(0, true), (2, true)],
        vec![(1, true), (2, true)],
        vec![(3, true), (4, true), (5, true)],
    ];
    let hash = right_reduce(&mut matrix, GF2::new());
    assert_eq!(
        matrix,
        vec![
            vec![],
            vec![],
            vec![],
            vec![(0, true), (1, true)],
            vec![(0, true), (2, true)],
            vec![],
            vec![(3, true), (4, true), (5, true)],
        ]
    );
    assert_eq!(sorted_pairs(hash), vec![(1, 3), (2, 4), (5, 6)]);

    // the same columns with integer coefficients, reduced over the floats,
    // have the same pivots: here no coefficient other than 1 and -1 occurs
    let mut integral = vec![
        vec![],
        vec![],
        vec![],
        vec![(0, 1.), (1, 1.)],
        vec![(0, 1.), (2, 1.)],
        vec![(1, 1.), (2, -1.)],
        vec![(3, 1.), (4, 1.), (5, 1.)],
    ];
    let pivots = right_reduce(&mut integral, Floats);
    assert_eq!(sorted_pairs(pivots), vec![(1, 3), (2, 4), (5, 6)]);
}

#[test]
fn clearing_examples() {
    let clearor = vec![(0, 1.), (1, 1.)];
    let mut clearee = vec![(1, 1.), (2, 1.)];
    let mut buffer = Vec::new();
    let pivot_entry = (1, 1.);
    let ring = Floats;

    clear_if_in(&clearor, &mut clearee, &mut buffer, &pivot_entry, ring.clone());

    assert_eq!(&clearee, &vec![(0, -1.), (2, 1.)]);

    let clearor = vec![(0, 1.), (1, 1.), (2, 0.)];
    let mut clearee = vec![(0, 0.), (1, 0.), (2, 1.)];

    clear_if_in(&clearor, &mut clearee, &mut buffer, &pivot_entry, ring.clone());

    assert_eq!(&clearee, &vec![(0, 0.), (1, 0.), (2, 1.)]);

    let clearor = vec![(0, 1.), (1, 1.)];
    let mut clearee = vec![(2, 1.)];

    clear_if_in(&clearor, &mut clearee, &mut buffer, &pivot_entry, ring);

    assert_eq!(&clearee, &vec![(2, 1.)]);
}

#[test]
fn clearing_an_absent_entry_changes_nothing() {
    let clearor = vec![(0, 2.), (3, 4.)];
    let pivot_entry = (3, 4.);
    let before = vec![(0, 1.), (1, 0.), (2, -0.), (4, f64::MIN_POSITIVE)];
    let mut clearee = before.clone();
    let mut buffer = vec![(9, 9.)];
    clear_if_in(&clearor, &mut clearee, &mut buffer, &pivot_entry, Floats);
    assert_eq!(clearee.len(), before.len());
    for (now, then) in clearee.iter().zip(before.iter()) {
        assert_eq!(now.0, then.0);
        assert_eq!(now.1.to_bits(), then.1.to_bits());
    }
    assert_eq!(buffer, vec![(9, 9.)]);
    // an empty clearee has no entry to clear
    let mut empty: Vec<(usize, f64)> = vec![];
    clear_if_in(&clearor, &mut empty, &mut buffer, &pivot_entry, Floats);
    assert_eq!(empty, vec![]);
    // a zero pivot does no harm where there is nothing to clear
    clear_if_in(&clearor, &mut clearee, &mut buffer, &(3, 0.), Floats);
    assert_eq!(clearee, before);
}

#[test]
fn clearing_scales_by_minus_entry_over_pivot() {
    // clearee + (-6 / 4) * clearor
    let clearor = vec![(0, 2.), (1, 8.), (3, 4.)];
    let mut clearee = vec![(0, 3.), (2, 1.), (3, 6.)];
    let mut buffer = vec![(5, 5.)];
    clear_if_in(&clearor, &mut clearee, &mut buffer, &(3, 4.), Floats);
    assert_eq!(clearee, vec![(1, -12.), (2, 1.)]);
    assert_eq!(buffer, vec![]);
}

#[test]
fn clearing_over_gf2() {
    let clearor = vec![(0, true), (2, true)];
    let mut clearee = vec![(1, true), (2, true)];
    let mut buffer = Vec::new();
    clear_if_in(&clearor, &mut clearee, &mut buffer, &(2, true), GF2::new());
    assert_eq!(clearee, vec![(0, true), (1, true)]);
}

#[test]
fn clearing_columns_in_any_order_and_more_than_once() {
    let clearor = vec![(0, 1.), (1, 1.)];
    let mut matrix = vec![vec![(1, 2.)], vec![(1, 1.), (2, 1.)], vec![(0, 1.)]];
    clear_cols(&clearor, &mut matrix, vec![2, 1, 0, 1], &(1, 1.), Floats);
    assert_eq!(matrix, vec![vec![(0, -2.)], vec![(0, -1.), (2, 1.)], vec![(0, 1.)]]);
    let before = matrix.clone();
    clear_cols(&clearor, &mut matrix, vec![], &(1, 1.), Floats);
    assert_eq!(matrix, before);
}
