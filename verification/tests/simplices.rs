use solar::rings::ring::{DivisionRing, Ring, Semiring};
use solar::utilities::cell_complexes::simplices_unweighted::boundary_matrices::boundary_matrix_from_complex_facets;
use solar::utilities::cell_complexes::simplices_unweighted::facets::{
    ordered_subsimplices_fixed_dim_iter, ordered_subsimplices_up_thru_dim_concatenated_vec,
    ordered_subsimplices_up_thru_dim_vec,
};
use solar::utilities::cell_complexes::simplices_unweighted::simplex::{
    simplex_perm_o2n_from_vertex_perm_o2n, FacetIteratorNoReturnAscending, Simplex,
};
use solar::utilities::indexing_and_bijection::{compose_f_after_g, inverse_perm};
use solar::utilities::ring::MinusOneToPower;
use solar::utilities::sequences_and_ordinals::BiMapSequential;
use std::iter::FromIterator;

/// The division ring of floating point numbers.
#[derive(Clone, Copy, Debug)]
struct Floats;

impl Semiring<f64> for Floats {
    fn is_zero(&self, x: f64) -> bool {
        x == 0.0
    }
    fn is_unit(&self, x: f64) -> bool {
        x == 1.0
    }
    fn zero_elt() -> f64 {
        0.0
    }
    fn one_elt() -> f64 {
        1.0
    }
    fn sum(&self, x: f64, y: f64) -> f64 {
        x + y
    }
    fn product(&self, x: f64, y: f64) -> f64 {
        x * y
    }
    fn is_0(&self, x: f64) -> bool {
        x == 0.0
    }
    fn is_1(&self, x: f64) -> bool {
        x == 1.0
    }
    fn zero() -> f64 {
        0.0
    }
    fn one() -> f64 {
        1.0
    }
    fn add(&self, x: f64, y: f64) -> f64 {
        x + y
    }
    fn multiply(&self, x: f64, y: f64) -> f64 {
        x * y
    }
}

impl Ring<f64> for Floats {
    fn difference(&self, x: f64, y: f64) -> f64 {
        x - y
    }
    fn negation(&self, x: f64) -> f64 {
        -x
    }
    fn subtract(&self, x: f64, y: f64) -> f64 {
        x - y
    }
    fn negate(&self, x: f64) -> f64 {
        -x
    }
}

impl DivisionRing<f64> for Floats {
    fn quotient(&self, x: f64, y: f64) -> f64 {
        x / y
    }
    fn inverse(&self, x: f64) -> f64 {
        1.0 / x
    }
    fn divide(&self, x: f64, y: f64) -> f64 {
        x / y
    }
    fn invert(&self, x: f64) -> f64 {
        1.0 / x
    }
}

#[test]
fn test_bimap_to_boundary() {
    let ring = Floats;
    let complex_facets = vec![vec![0, 1, 2]];

    let bimap_sequential = BiMapSequential::from_vec(
        ordered_subsimplices_up_thru_dim_concatenated_vec(&complex_facets, 2),
    );

    let boundary = boundary_matrix_from_complex_facets(&bimap_sequential, ring);

    assert_eq!(
        &boundary,
        &vec![
            vec![],
            vec![],
            vec![],
            vec![(0, -1.0), (1, 1.0)],
            vec![(0, -1.0), (2, 1.0)],
            vec![(1, -1.0), (2, 1.0)],
            vec![(3, 1.0), (4, -1.0), (5, 1.0)]
        ]
    )
}

#[test]
fn test_ordered_subsimplices_up_thru_dim() {
    let complex_facets = vec![vec![0, 1, 2]];

    assert_eq!(
        ordered_subsimplices_up_thru_dim_vec(&complex_facets, 2),
        vec![
            vec![vec![0], vec![1], vec![2]],
            vec![vec![0, 1], vec![0, 2], vec![1, 2]],
            vec![vec![0, 1, 2]]
        ]
    );

    assert_eq!(
        ordered_subsimplices_up_thru_dim_concatenated_vec(&complex_facets, 2),
        vec![vec![0], vec![1], vec![2], vec![0, 1], vec![0, 2], vec![1, 2], vec![0, 1, 2]]
    );
}

#[test]
fn test_ascending_facet_iterator_no_return() {
    // Create the iterator
    let mut facet_iterator_noreturn =
        FacetIteratorNoReturnAscending::new(Simplex { vertices: vec![0, 1, 2] }, None);

    // Test it
    let mut answers = vec![
        FacetIteratorNoReturnAscending {
            simplex: Simplex { vertices: vec![0, 1, 2] },
            facet: Simplex { vertices: vec![0, 1] },
            deleted_vertex_index: Some(2),
        },
        FacetIteratorNoReturnAscending {
            simplex: Simplex { vertices: vec![0, 1, 2] },
            facet: Simplex { vertices: vec![0, 2] },
            deleted_vertex_index: Some(1),
        },
        FacetIteratorNoReturnAscending {
            simplex: Simplex { vertices: vec![0, 1, 2] },
            facet: Simplex { vertices: vec![1, 2] },
            deleted_vertex_index: Some(0),
        },
        FacetIteratorNoReturnAscending {
            simplex: Simplex { vertices: vec![0, 1, 2] },
            facet: Simplex { vertices: vec![] },
            deleted_vertex_index: None,
        },
        FacetIteratorNoReturnAscending {
            simplex: Simplex { vertices: vec![0, 1, 2] },
            facet: Simplex { vertices: vec![0, 1] },
            deleted_vertex_index: Some(2),
        },
    ];

    for i in 0..5 {
        facet_iterator_noreturn.next();
        assert_eq!(&facet_iterator_noreturn, &answers[i])
    }

    // Re-initialize with a new simplex

    facet_iterator_noreturn.reinitialize_with_simplex(Simplex { vertices: vec![0, 3] });

    // Test again

    answers = vec![
        FacetIteratorNoReturnAscending {
            simplex: Simplex { vertices: vec![0, 3] },
            facet: Simplex { vertices: vec![0] },
            deleted_vertex_index: Some(1),
        },
        FacetIteratorNoReturnAscending {
            simplex: Simplex { vertices: vec![0, 3] },
            facet: Simplex { vertices: vec![3] },
            deleted_vertex_index: Some(0),
        },
        FacetIteratorNoReturnAscending {
            simplex: Simplex { vertices: vec![0, 3] },
            facet: Simplex { vertices: vec![] },
            deleted_vertex_index: None,
        },
        FacetIteratorNoReturnAscending {
            simplex: Simplex { vertices: vec![0, 3] },
            facet: Simplex { vertices: vec![0] },
            deleted_vertex_index: Some(1),
        },
    ];

    for i in 0..4 {
        facet_iterator_noreturn.next();
        assert_eq!(&facet_iterator_noreturn, &answers[i])
    }
}

#[test]
fn test_simplex_perm_o2n_from_vertex_perm_o2n() {
    // sequence_old:          [[0], [1], [2], [3], [0, 1], [0, 2], [0, 3], [1, 2]]
    // sequence_old_permuted: [[0], [1], [3], [2], [0, 1], [0, 3], [0, 2], [1, 2]]
    // new_sequence:          [[0], [1], [2], [3], [0, 1], [0, 2], [0, 3], [1, 3]]
    // permutation: simplex old -> new
    //                        [ 0,   1,   3,   2,   4,      6,      5,      7]

    let complex_facets = vec![vec![0, 1, 2], vec![0, 3]];
    let simplex_sequence_old =
        ordered_subsimplices_up_thru_dim_concatenated_vec(&complex_facets, 1);
    let perm_v_o2n = vec![0, 1, 3, 2];

    let mut simplex_sequence_new = Vec::from_iter(
        simplex_sequence_old
            .iter()
            .cloned()
            .map(|x| Simplex { vertices: compose_f_after_g(&perm_v_o2n, &x) }),
    );

    // We must remember to sort the new vertices
    for simplex in simplex_sequence_new.iter_mut() {
        simplex.vertices.sort()
    }

    // perm: simplex OLD -> NEW
    let perm_s_o2n = simplex_perm_o2n_from_vertex_perm_o2n(&simplex_sequence_old, &perm_v_o2n);
    // perm: simplex NEW -> OLD
    let perm_s_n2o = inverse_perm(&perm_s_o2n);

    let simplex_sequence_permuted = compose_f_after_g(&simplex_sequence_old, &perm_s_n2o);

    let mut simplex_sequence_permuted_vertex_translated = simplex_sequence_permuted.clone();
    for i in 0..simplex_sequence_permuted_vertex_translated.len() {
        simplex_sequence_permuted_vertex_translated[i] =
            compose_f_after_g(&perm_v_o2n, &simplex_sequence_permuted[i])
    }
    for i in 0..simplex_sequence_permuted_vertex_translated.len() {
        simplex_sequence_permuted_vertex_translated[i].sort()
    }

    println!("sequence_old:          {:?}", &simplex_sequence_old);
    println!("sequence_old_permuted: {:?}", &simplex_sequence_permuted);
    println!("new_sequence:          {:?}", &simplex_sequence_permuted_vertex_translated);
    println!("permutation: simplex old -> new {:?}", &perm_s_o2n);
}

#[test]
fn simplex_permutation_exact() {
    let simplex_sequence_old = vec![
        vec![0],
        vec![1],
        vec![2],
        vec![3],
        vec![0, 1],
        vec![0, 2],
        vec![0, 3],
        vec![1, 2],
    ];
    let perm = simplex_perm_o2n_from_vertex_perm_o2n(&simplex_sequence_old, &vec![0, 1, 3, 2]);
    assert_eq!(perm, vec![0, 1, 3, 2, 4, 6, 5, 7]);
    let none = simplex_perm_o2n_from_vertex_perm_o2n(&vec![], &vec![]);
    assert_eq!(none, Vec::<usize>::new());
    // shorter simplices come first, whatever their vertices
    let mixed = vec![vec![0, 1], vec![2], vec![1, 2]];
    assert_eq!(simplex_perm_o2n_from_vertex_perm_o2n(&mixed, &vec![2, 1, 0]), vec![1, 2, 0]);
}

#[test]
fn faces_of_two_facets_are_merged_without_repeats() {
    let complex_facets = vec![vec![0, 1, 2], vec![1, 2, 3]];
    assert_eq!(
        ordered_subsimplices_fixed_dim_iter(&complex_facets, 0),
        vec![vec![0], vec![1], vec![2], vec![3]]
    );
    assert_eq!(
        ordered_subsimplices_fixed_dim_iter(&complex_facets, 1),
        vec![vec![0, 1], vec![0, 2], vec![1, 2], vec![1, 3], vec![2, 3]]
    );
    assert_eq!(
        ordered_subsimplices_fixed_dim_iter(&complex_facets, 2),
        vec![vec![0, 1, 2], vec![1, 2, 3]]
    );
    assert_eq!(ordered_subsimplices_fixed_dim_iter(&complex_facets, 3), Vec::<Vec<usize>>::new());
    assert_eq!(ordered_subsimplices_fixed_dim_iter(&vec![], 0), Vec::<Vec<usize>>::new());
    assert_eq!(
        ordered_subsimplices_up_thru_dim_concatenated_vec(&vec![vec![4, 7]], 0),
        vec![vec![4], vec![7]]
    );
}

#[test]
fn simplex_sizes() {
    let s = Simplex { vertices: vec![3, 5, 8] };
    assert_eq!(s.num_vertices(), 3);
    assert_eq!(s.dim(), 2);
    assert_eq!(Simplex { vertices: vec!['a'] }.dim(), 0);
    assert_eq!(Simplex::<u8> { vertices: vec![] }.num_vertices(), 0);
}

#[test]
fn facet_iterator_reports_its_steps() {
    let mut it = FacetIteratorNoReturnAscending::new(Simplex { vertices: vec![1, 4] }, None);
    assert_eq!(it.deleted_vertex_index, None);
    assert_eq!(it.next(), Some(()));
    assert_eq!(it.facet.vertices, vec![1]);
    assert_eq!(it.next(), Some(()));
    assert_eq!(it.facet.vertices, vec![4]);
    assert_eq!(it.next(), None);
    assert_eq!(it.facet.vertices, vec![]);
    // a buffer that is handed in becomes the facet
    let buffer = Simplex { vertices: vec![9, 9, 9] };
    let it = FacetIteratorNoReturnAscending::new(Simplex { vertices: vec![1] }, Some(buffer));
    assert_eq!(it.facet.vertices, vec![9, 9, 9]);
    // a vertex has one facet, the empty one
    let mut it = FacetIteratorNoReturnAscending::new(Simplex { vertices: vec![6] }, None);
    assert_eq!(it.next(), Some(()));
    assert_eq!(it.deleted_vertex_index, Some(0));
    assert_eq!(it.facet.vertices, vec![]);
    assert_eq!(it.next(), None);
}

#[test]
fn signs_alternate() {
    let ring = Floats;
    assert_eq!(ring.minus_one_to_power(0), 1.0);
    assert_eq!(ring.minus_one_to_power(1), -1.0);
    assert_eq!(ring.minus_one_to_power(2), 1.0);
    assert_eq!(ring.minus_one_to_power(usize::MAX), -1.0);
    assert!(solar::rings::field_prime::GF2::new().minus_one_to_power(3));
}

#[test]
fn boundary_of_an_edge_and_of_nothing() {
    let bimap = BiMapSequential::from_vec(vec![vec![0], vec![5], vec![0, 5]]);
    let boundary = boundary_matrix_from_complex_facets(&bimap, Floats);
    assert_eq!(boundary, vec![vec![], vec![], vec![(0, -1.0), (1, 1.0)]]);
    let none = BiMapSequential::<Vec<usize>>::from_vec(vec![]);
    assert_eq!(
        boundary_matrix_from_complex_facets(&none, Floats),
        Vec::<Vec<(usize, f64)>>::new()
    );
}
