use solar::matrices::implementors::scalar_matrices::{ScalarMatrixOracle, ScalarMatrixOracleUsize};
use solar::matrices::implementors::vec_of_csvec::VecCsv;
use solar::matrices::implementors::vec_of_vec::VecOfVec;
use solar::matrices::matrix_oracle::{
    MajorDimension, OracleMajor, OracleMajorAscend, OracleMajorDescend, OracleMinor,
    OracleMinorAscend, OracleMinorDescend, WhichMajor,
};
use solar::utilities::iterators::utility::{collect, Stream};
use std::marker::PhantomData;

#[test]
fn test_vec_of_vec_construction() {
    let matrix = VecOfVec {
        major_dimension: MajorDimension::Row,
        vec_of_vec: vec![vec![(1, 1.)], vec![], vec![(2, 2.)]],
        phantom: PhantomData,
    };
    assert_eq!(matrix.vec_of_vec.len(), 3);
}

#[test]
fn vec_of_vec_new_keeps_its_vectors() {
    let matrix = VecOfVec::new(MajorDimension::Row, vec![vec![(1, 1.)], vec![], vec![(2, 2.)]]);
    assert_eq!(matrix.major_dimension(), MajorDimension::Row);
    assert_eq!(matrix.vec_of_vec, vec![vec![(1, 1.)], vec![], vec![(2, 2.)]]);
}

#[test]
fn vec_of_vec_views_run_forward_and_backward() {
    let matrix = VecOfVec::new(
        MajorDimension::Col,
        vec![vec![(0usize, 5i64), (2, 7), (3, 9)], vec![], vec![(1, 1)]],
    );
    assert_eq!(matrix.major_dimension(), MajorDimension::Col);
    assert_eq!(collect(matrix.view_major(0)), vec![(0, 5), (2, 7), (3, 9)]);
    assert_eq!(collect(matrix.view_major_ascend(0)), vec![(0, 5), (2, 7), (3, 9)]);
    assert_eq!(collect(matrix.view_major_descend(0)), vec![(3, 9), (2, 7), (0, 5)]);
    assert_eq!(collect(matrix.view_major(1)), vec![]);
    assert_eq!(collect(matrix.view_major_descend(1)), vec![]);
    assert_eq!(collect(matrix.view_major_descend(2)), vec![(1, 1)]);
    // asking again yields the same entries
    assert_eq!(collect(matrix.view_major(0)), collect(matrix.view_major(0)));
}

#[test]
fn scalar_matrix_usize_has_one_entry_per_vector() {
    let a = ScalarMatrixOracleUsize::<f64>::new(2., MajorDimension::Row);
    assert_eq!(a.major_dimension(), MajorDimension::Row);
    assert_eq!(collect(a.view_major(2)), vec![(2, 2.)]);
    assert_eq!(collect(a.view_major_ascend(7)), vec![(7, 2.)]);
    assert_eq!(collect(a.view_major_descend(0)), vec![(0, 2.)]);
    assert_eq!(collect(a.view_minor(2)), vec![(2, 2.)]);
    assert_eq!(collect(a.view_minor_ascend(3)), vec![(3, 2.)]);
    assert_eq!(collect(a.view_minor_descend(usize::MAX)), vec![(usize::MAX, 2.)]);
}

#[test]
fn scalar_matrix_view_is_a_one_shot_stream() {
    let a = ScalarMatrixOracleUsize::<i32>::new(-3, MajorDimension::Col);
    let mut view = a.view_major(4);
    assert_eq!(view.size_hint(), (1, Some(1)));
    assert_eq!(view.next(), Some((4, -3)));
    assert_eq!(view.size_hint(), (0, Some(0)));
    assert_eq!(view.next(), None);
    assert_eq!(view.next(), None);
}

#[test]
fn scalar_matrix_with_any_index_type() {
    let a = ScalarMatrixOracle::<char, usize>::new(2, MajorDimension::Col);
    assert_eq!(a.major_dimension(), MajorDimension::Col);
    assert_eq!(collect(a.view_major('x')), vec![('x', 2)]);
    assert_eq!(collect(a.view_major_ascend('y')), vec![('y', 2)]);
    assert_eq!(collect(a.view_major_descend('z')), vec![('z', 2)]);
    assert_eq!(collect(a.view_minor('x')), vec![('x', 2)]);
    assert_eq!(collect(a.view_minor_ascend('y')), vec![('y', 2)]);
    assert_eq!(collect(a.view_minor_descend('z')), vec![('z', 2)]);
}

#[test]
fn vec_csv_starts_empty() {
    let m = VecCsv::<usize, f64>::new(MajorDimension::Row);
    assert_eq!(m.major_dimension(), MajorDimension::Row);
}
