use rsmath::algebra::matrix::Matrix;
use rsmath::algebra::vector::Vector;
use rsmath::error::MathError;

fn sample() -> Matrix<i32> {
    Matrix::<i32>::init_with_values(&vec![vec![1, -2, 3], vec![4, 5, -6]]).unwrap()
}

#[test]
fn shape_counts_follow_mutations() {
    let mut m = Matrix::<i64>::init();
    m.push_row(vec![1, 2, 3]).unwrap();
    m.push_row(vec![4, 5, 6]).unwrap();
    m.push_col(vec![7, 8]).unwrap();
    assert_eq!((m.nrows(), m.ncols()), (2, 4));
    m.pop_col(0).unwrap();
    assert_eq!((m.nrows(), m.ncols()), (2, 3));
    m.pop_row(1).unwrap();
    assert_eq!((m.nrows(), m.ncols()), (1, 3));
    m.transpose();
    assert_eq!((m.nrows(), m.ncols()), (3, 1));
    m.clear();
    assert_eq!((m.nrows(), m.ncols()), (0, 0));
}

#[test]
fn transpose_twice_restores() {
    let m = sample();
    let mut t = m.clone();
    t.transpose();
    assert_eq!(t.row(0), Some(vec![1, 4]));
    assert_eq!(t.row(2), Some(vec![3, -6]));
    t.transpose();
    assert!(t == m);
}

#[test]
fn product_shape_and_values() {
    let a = Matrix::<i32>::init_with_values(&vec![vec![1, 4], vec![2, 5], vec![3, 6]]).unwrap();
    let b = Matrix::<i32>::init_with_values(&vec![vec![7, 8, 9], vec![10, 11, 12]]).unwrap();
    let p = a.mul(&b).unwrap();
    assert_eq!((p.nrows(), p.ncols()), (3, 3));
    assert_eq!(p.row(0), Some(vec![47, 52, 57]));
    assert_eq!(p.row(1), Some(vec![64, 71, 78]));
    assert_eq!(p.row(2), Some(vec![81, 90, 99]));
}

#[test]
fn product_with_wrong_shapes_is_refused() {
    let a = Matrix::<i32>::init_with_values(&vec![vec![1, 4], vec![2, 5], vec![3, 6]]).unwrap();
    assert_eq!(a.mul(&a).err(), Some(MathError::DimensionMismatch));
}

#[test]
fn add_zeros_and_sub_self() {
    let m = sample();
    let z = Matrix::<i32>::zeros(m.nrows(), m.ncols());
    assert!(m.add(&z).unwrap() == m);
    assert!(m.sub(&m).unwrap() == z);
}

#[test]
fn add_with_other_shape_is_refused() {
    let m = sample();
    let z = Matrix::<i32>::zeros(3, 2);
    assert_eq!(m.add(&z).err(), Some(MathError::DimensionMismatch));
    assert_eq!(m.sub(&z).err(), Some(MathError::DimensionMismatch));
    assert_eq!(m.equal_to_matrix(&z).err(), Some(MathError::DimensionMismatch));
    assert_eq!(m.bigger_than_matrix(&z).err(), Some(MathError::DimensionMismatch));
}

#[test]
fn diagonal_is_idempotent() {
    let m = Matrix::<i64>::init_with_values(&vec![vec![1, 2], vec![3, 4]]).unwrap();
    let d = m.get_diagonal().unwrap();
    assert_eq!(d.row(0), Some(vec![1, 0]));
    assert_eq!(d.row(1), Some(vec![0, 4]));
    assert!(d.get_diagonal().unwrap() == d);
}

#[test]
fn diagonal_of_non_square_is_refused() {
    assert_eq!(sample().get_diagonal().err(), Some(MathError::NotSquare));
}

#[test]
fn rows_round_trip() {
    let values: Vec<Vec<u64>> = vec![vec![9, 8], vec![7, 6], vec![5, 4]];
    let m = Matrix::<u64>::init_with_values(&values).unwrap();
    for (i, v) in values.iter().enumerate() {
        assert_eq!(m.row(i).as_ref(), Some(v));
    }
    assert_eq!(m.row(3), None);
}

#[test]
fn ragged_table_is_refused() {
    let r = Matrix::<i32>::init_with_values(&vec![vec![1, 2], vec![3]]);
    assert_eq!(r.err(), Some(MathError::ShapeError));
}

#[test]
fn construct_two_by_two() {
    let m = Matrix::<i32>::init_with_values(&vec![vec![1, 2], vec![3, 4]]).unwrap();
    assert_eq!(m.get_element(0, 0), Ok(1));
    assert_eq!(m.get_element(1, 0), Ok(3));
    assert_eq!(m.nrows(), 2);
    assert_eq!(m.ncols(), 2);
}

#[test]
fn identity_three() {
    let m = Matrix::<u32>::create_identity(3);
    for i in 0..3 {
        for j in 0..3 {
            assert_eq!(m.get_element(i, j), Ok(if i == j { 1 } else { 0 }));
        }
    }
}

#[test]
fn push_then_pop_row() {
    let mut m = Matrix::<i32>::init();
    m.push_row(vec![1, 2, 3, 4, 5]).unwrap();
    assert_eq!(m.nrows(), 1);
    assert_eq!(m.ncols(), 5);
    m.pop_row(0).unwrap();
    assert_eq!(m.nrows(), 0);
}

#[test]
fn mean_of_four() {
    let v = Vector::<i32>::init(&vec![2, 4, 0, 6]);
    assert_eq!(v.sum(), 12);
    assert_eq!(v.sum() as f64 / v.size() as f64, 3.0);
}

#[test]
fn index_errors() {
    let mut m = sample();
    assert_eq!(m.get_element(2, 0), Err(MathError::IndexOutOfBounds));
    assert_eq!(m.get_element(0, 3), Err(MathError::IndexOutOfBounds));
    assert_eq!(m.set_element(0, 3, &1), Err(MathError::IndexOutOfBounds));
    assert_eq!(m.set_row(2, &vec![1, 2, 3]), Err(MathError::IndexOutOfBounds));
    assert_eq!(m.set_row(0, &vec![1, 2]), Err(MathError::DimensionMismatch));
    assert_eq!(m.set_col(3, &vec![1, 2]), Err(MathError::IndexOutOfBounds));
    assert_eq!(m.set_col(0, &vec![1]), Err(MathError::DimensionMismatch));
    assert_eq!(m.push_row(vec![1]), Err(MathError::DimensionMismatch));
    assert_eq!(m.push_col(vec![1]), Err(MathError::DimensionMismatch));
    assert_eq!(m.pop_row(2), Err(MathError::IndexOutOfBounds));
    assert_eq!(m.pop_col(3), Err(MathError::IndexOutOfBounds));
    assert_eq!(m.swap_row(0, 2), Err(MathError::IndexOutOfBounds));
    assert_eq!(m.swap_col(3, 0), Err(MathError::IndexOutOfBounds));
    assert!(m == sample());
    assert_eq!(m.row(2), None);
    assert_eq!(m.col(3), None);
}

#[test]
fn set_element_and_swap_same_row() {
    let mut m = sample();
    m.set_element(1, 2, &60).unwrap();
    assert_eq!(m.get_element(1, 2), Ok(60));
    m.swap_row(1, 1).unwrap();
    assert_eq!(m.row(1), Some(vec![4, 5, 60]));
}

#[test]
fn submatrix_block_and_errors() {
    let m = sample();
    let s = m.submatrix(&[0, 1], &[1, 2]).unwrap();
    assert_eq!(s.row(0), Some(vec![-2, 3]));
    assert_eq!(s.row(1), Some(vec![5, -6]));
    assert_eq!(m.submatrix(&[1, 0], &[0, 0]).err(), Some(MathError::InvalidRange));
    assert_eq!(m.submatrix(&[0, 2], &[0, 0]).err(), Some(MathError::InvalidRange));
    assert_eq!(m.submatrix(&[0, 0], &[0, 3]).err(), Some(MathError::InvalidRange));
}

#[test]
fn comparisons_against_scalar() {
    let m = sample();
    let g = m.bigger_than(&3);
    assert_eq!(g.row(0), Some(vec![false, false, false]));
    assert_eq!(g.row(1), Some(vec![true, true, false]));
    let e = m.equal_to_matrix(&m).unwrap();
    assert_eq!(e.row(1), Some(vec![true, true, true]));
}

#[test]
fn contains_finds_first_row() {
    let m = sample();
    assert_eq!(m.contains(&5), Some(1));
    assert_eq!(m.contains(&3), Some(0));
    assert_eq!(m.contains(&7), None);
}

#[test]
fn random_rejects_inverted_range() {
    assert_eq!(Matrix::<i32>::random(2, 2, &[3, 1]).err(), Some(MathError::InvalidRange));
    assert_eq!(Vector::<i32>::random(2, &[3, 1]).err(), Some(MathError::InvalidRange));
}

#[test]
fn random_values_spread_over_range() {
    let v = Vector::<i64>::random(64, &[0, 1_000_000]).unwrap();
    let first = v.el(0).unwrap();
    let mut differs = false;
    for k in 0..64 {
        let e = v.el(k).unwrap();
        assert!(e >= 0 && e <= 1_000_000);
        if e != first {
            differs = true;
        }
    }
    assert!(differs);
    let m = Matrix::<u32>::random(4, 4, &[5, 5]).unwrap();
    for k in 0..4 {
        assert_eq!(m.row(k), Some(vec![5, 5, 5, 5]));
    }
}

#[test]
fn element_iterator_ends() {
    let m = Matrix::<i32>::init_with_values(&vec![vec![1, 2]]).unwrap();
    let mut it = m.el_iter_at(1);
    assert_eq!(it.next(), Some(2));
    assert_eq!(it.next(), None);
    let empty = Matrix::<i32>::init();
    assert_eq!(empty.el_iter().next(), None);
    assert_eq!(empty.row_iter().next(), None);
    assert_eq!(empty.col_iter().next(), None);
}

#[test]
fn vector_errors_and_ties() {
    let mut v = Vector::<i32>::init(&vec![3, 1, 3, 1]);
    assert_eq!(v.max(), (3, 0));
    assert_eq!(v.min(), (1, 1));
    assert_eq!(v.el(4), Err(MathError::IndexOutOfBounds));
    assert_eq!(v.set_el(4, 0), Err(MathError::IndexOutOfBounds));
    assert_eq!(v.remove(4), Err(MathError::IndexOutOfBounds));
    assert_eq!(v.swap(0, 4), Err(MathError::IndexOutOfBounds));
    v.sort_max();
    assert_eq!(v.el(0), Ok(3));
    assert_eq!(v.el(3), Ok(1));
    let mut e = Vector::<i32>::new();
    assert_eq!(e.pop(), None);
}
