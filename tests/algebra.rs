use rsmath::algebra::matrix::Matrix;
use rsmath::algebra::vector::Vector;
use rsmath::error::MathError;

// --------------- Matrix ----------------------------------------

#[test]
fn matrix_init_test() {
    let values: Vec<Vec<i32>> = vec![vec![1, 2], vec![3, 4]];
    let m = Matrix::<i32>::init_with_values(&values).unwrap();

    assert_eq!(m.get_element(0, 0), Ok(values[0][0]));
    assert_eq!(m.get_element(1, 0), Ok(values[1][0]));
    assert_eq!(m.get_element(0, 1), Ok(values[0][1]));
    assert_eq!(m.get_element(1, 1), Ok(values[1][1]));
    assert_eq!(m.nrows(), values.len());
    assert_eq!(m.ncols(), values[0].len());
}

#[test]
fn matrix_random_test() {
    let range: [i64; 2] = [0, 10];
    let m = Matrix::<i64>::random(2, 3, &range).unwrap();

    assert_eq!(m.nrows(), 2);
    assert_eq!(m.ncols(), 3);
}

#[test]
fn algebra_matrix_create_identity_test() {
    let m = Matrix::<i64>::create_identity(3);

    assert_eq!(m.get_element(0, 0), Ok(1));
    assert_eq!(m.get_element(0, 1), Ok(0));
    assert_eq!(m.get_element(0, 2), Ok(0));
    assert_eq!(m.get_element(1, 0), Ok(0));
    assert_eq!(m.get_element(1, 1), Ok(1));
    assert_eq!(m.get_element(1, 2), Ok(0));
    assert_eq!(m.get_element(2, 0), Ok(0));
    assert_eq!(m.get_element(2, 1), Ok(0));
    assert_eq!(m.get_element(2, 2), Ok(1));
}

#[test]
fn algebra_matrix_rows_test() {
    let m = Matrix::<u32>::init_with_capacity(5, 10);
    assert_eq!(m.nrows(), 5);
}

#[test]
fn algebra_matrix_cols_test() {
    let m = Matrix::<u32>::init_with_capacity(5, 10);
    assert_eq!(m.ncols(), 10);
}

#[test]
fn matrix_set_row_test() {
    let v: Vec<i32> = vec![-1, 2];
    let mut m = Matrix::<i32>::init_with_values(&vec![vec![1, 3], vec![2, 5], vec![3, 6]]).unwrap();

    assert_eq!(m.set_row(0, &v), Ok(()));

    assert_eq!(m.row(0).unwrap(), v);
}

// The capacity constructor allocates real rows of zeros, so a row of
// another length cannot be pushed below them.
#[test]
fn matrix_get_push_row_test() {
    let val: Vec<u32> = vec![1, 2, 3, 4, 5];
    let mut m = Matrix::<u32>::init_with_capacity(5, 2);

    assert_eq!(m.push_row(val.clone()), Err(MathError::DimensionMismatch));

    let result = m.row(0);
    let mut get_val: Vec<u32> = Vec::new();
    match result {
        Some(x) => get_val = x.clone(),
        None => assert_eq!(true, false),
    }
    assert_eq!(get_val, vec![0, 0]);
}

#[test]
fn algebra_matrix_pop_row_test() {
    let val: Vec<u32> = vec![1, 2, 3, 4, 5];

    let mut m = Matrix::<u32>::init();
    for _ in 0..2 {
        m.push_row(val.clone()).unwrap();
    }

    m.pop_row(0).unwrap();

    assert_eq!(1, m.nrows());
}

#[test]
fn algebra_matrix_swap_row_test() {
    let val: Vec<u32> = vec![1, 2, 3, 4, 5];
    let val2: Vec<u32> = vec![6, 7, 8, 9, 10];

    let mut m = Matrix::<u32>::init();
    m.push_row(val.clone()).unwrap();
    m.push_row(val2.clone()).unwrap();

    m.swap_row(0, 1).unwrap();
    assert_eq!(Ok(val[0]), m.get_element(1, 0));
    assert_eq!(Ok(val2[0]), m.get_element(0, 0));
}

#[test]
fn algebra_matrix_swap_col_test() {
    let val: Vec<u32> = vec![1, 2, 3, 4, 5];
    let val2: Vec<u32> = vec![6, 7, 8, 9, 10];

    let mut m = Matrix::<u32>::init();
    m.push_row(val.clone()).unwrap();
    m.push_row(val2.clone()).unwrap();

    m.swap_col(0, 1).unwrap();
    assert_eq!(Ok(val[1]), m.get_element(0, 0));
    assert_eq!(Ok(val[0]), m.get_element(0, 1));
}

// The capacity constructor's row of zeros stays above the pushed row.
#[test]
fn matrix_col_test() {
    let resp: Vec<u32> = vec![0, 1];
    let row: Vec<u32> = vec![1, 2, 3, 4, 5];
    let mut m = Matrix::<u32>::init_with_capacity(1, 5);
    m.push_row(row.clone()).unwrap();

    let result = m.col(0);
    let mut get_val: Vec<u32> = Vec::new();
    match result {
        Some(x) => get_val = x.clone(),
        None => assert_eq!(true, false),
    }
    assert_eq!(get_val.len(), resp.len());
    assert_eq!(get_val[0], resp[0]);
}

#[test]
fn matrix_set_col_test() {
    let v: Vec<i32> = vec![-1, 2, 4];
    let mut m = Matrix::<i32>::init_with_values(&vec![vec![1, 3], vec![2, 5], vec![3, 6]]).unwrap();

    m.set_col(0, &v).unwrap();

    assert_eq!(m.col(0).unwrap(), v);
}

#[test]
fn matrix_push_col_test() {
    let mut val: Vec<u32> = vec![1, 2, 3, 4, 5];
    let mut m = Matrix::<u32>::init();
    for _ in 0..2 {
        m.push_row(val.clone()).unwrap();
    }

    assert_eq!(m.ncols(), val.len());

    val = vec![6, 7];
    m.push_col(val.clone()).unwrap();
    assert_eq!(m.ncols(), 6);
}

#[test]
fn algebra_matrix_pop_col_test() {
    let val: Vec<u32> = vec![1, 2, 3, 4, 5];
    let mut resp: Vec<u32> = val.clone();
    resp.remove(0);

    let mut m = Matrix::<u32>::init();
    m.push_row(val.clone()).unwrap();

    m.pop_col(0).unwrap();

    assert_eq!(4, m.ncols());
    assert_eq!(Ok(resp[0]), m.get_element(0, 0));
    assert_eq!(Ok(resp[1]), m.get_element(0, 1));
    assert_eq!(Ok(resp[2]), m.get_element(0, 2));
    assert_eq!(Ok(resp[3]), m.get_element(0, 3));
}

// The capacity constructor's row of zeros comes first; the pushed row is
// row 1.
#[test]
fn algebra_matrix_get_element_test() {
    let row: Vec<u32> = vec![1, 2, 3, 4, 5];
    let mut m = Matrix::<u32>::init_with_capacity(1, 5);
    m.push_row(row).unwrap();

    assert_eq!(m.get_element(1, 0), Ok(1));
    assert_eq!(m.get_element(1, 1), Ok(2));
    assert_eq!(m.get_element(1, 2), Ok(3));
    assert_eq!(m.get_element(1, 3), Ok(4));
    assert_eq!(m.get_element(1, 4), Ok(5));
}

#[test]
fn algebra_matrix_contains_row_test() {
    let row: Vec<i32> = vec![-1, 0, -2, 2, 3];
    let row2: Vec<i32> = vec![0, 0, -2, 2, 2];

    let mut m = Matrix::<i32>::init();
    m.push_row(row.clone()).unwrap();

    let mut result = m.contains_row(&row);
    match result {
        Some(x) => assert_eq!(x, 0),
        None => assert_eq!(true, false),
    }

    result = m.contains_row(&row2);
    match result {
        Some(_) => assert_eq!(true, false),
        None => assert_eq!(true, true),
    }
}

#[test]
fn algebra_matrix_contains_col_test() {
    let row: Vec<i32> = vec![-1, 0, -2, 2, 3];
    let row2: Vec<i32> = vec![0, 0, -2, 2, 2];

    let mut m = Matrix::<i32>::init();
    m.push_row(row.clone()).unwrap();
    m.push_row(row2.clone()).unwrap();

    let col: Vec<i32> = vec![row[0], row2[0]];
    let col2: Vec<i32> = vec![2, 3];

    let mut result = m.contains_col(&col);
    match result {
        Some(x) => assert_eq!(x, 0),
        None => assert_eq!(true, false),
    }

    result = m.contains_row(&col2);
    match result {
        Some(_) => assert_eq!(true, false),
        None => assert_eq!(true, true),
    }
}

#[test]
fn algebra_matrix_equal_to_test() {
    let row: Vec<i32> = vec![1, 3, 2, 3];
    let mut m = Matrix::<i32>::init();
    m.push_row(row).unwrap();

    let eq = m.equal_to(&3);

    assert_eq!(eq.get_element(0, 0), Ok(false));
    assert_eq!(eq.get_element(0, 1), Ok(true));
    assert_eq!(eq.get_element(0, 2), Ok(false));
    assert_eq!(eq.get_element(0, 3), Ok(true));
}

#[test]
fn algebra_matrix_bigger_than_matrix_test() {
    let row: Vec<u32> = vec![1, 3, 2, 3];
    let mut m = Matrix::<u32>::init();
    m.push_row(row).unwrap();

    let row2: Vec<u32> = vec![2, 0, 6, 3];
    let mut m2 = Matrix::<u32>::init();
    m2.push_row(row2).unwrap();

    let eq_matrix = m.bigger_than_matrix(&m2).unwrap();

    assert_eq!(eq_matrix.get_element(0, 0), Ok(false));
    assert_eq!(eq_matrix.get_element(0, 1), Ok(true));
    assert_eq!(eq_matrix.get_element(0, 2), Ok(false));
    assert_eq!(eq_matrix.get_element(0, 3), Ok(false));
}

#[test]
fn algebra_matrix_eq_trait_test() {
    let row: Vec<u32> = vec![1, 3, 2, 3];
    let mut m = Matrix::<u32>::init();
    m.push_row(row).unwrap();

    let m2 = m.clone();

    let row3: Vec<u32> = vec![1, 2, 3, 4];
    let mut m3 = Matrix::<u32>::init();
    m3.push_row(row3).unwrap();

    assert_eq!(m == m2, true);
    assert_eq!(m == m3, false);
}

#[test]
fn algebra_matrix_add_trait_test() {
    let row: Vec<u32> = vec![1, 3, 2, 3];
    let mut m = Matrix::<u32>::init();
    m.push_row(row).unwrap();

    let m2: Matrix<u32> = m.clone();

    let res = m.add(&m2).unwrap();

    assert_eq!(res.get_element(0, 0), Ok(2));
    assert_eq!(res.get_element(0, 1), Ok(6));
    assert_eq!(res.get_element(0, 2), Ok(4));
    assert_eq!(res.get_element(0, 3), Ok(6));
    assert_eq!(res.ncols(), m.ncols());
    assert_eq!(res.nrows(), m2.nrows());
}

#[test]
fn algebra_matrix_sub_trait_test() {
    let row: Vec<u32> = vec![5, 6, 7, 8];
    let mut m = Matrix::<u32>::init();
    m.push_row(row).unwrap();

    let row2: Vec<u32> = vec![1, 2, 3, 3];
    let mut m2 = Matrix::<u32>::init();
    m2.push_row(row2).unwrap();

    let res = m.sub(&m2).unwrap();

    assert_eq!(res.get_element(0, 0), Ok(4));
    assert_eq!(res.get_element(0, 1), Ok(4));
    assert_eq!(res.get_element(0, 2), Ok(4));
    assert_eq!(res.get_element(0, 3), Ok(5));
    assert_eq!(res.ncols(), m.ncols());
    assert_eq!(res.nrows(), m.nrows());
}

#[test]
fn algebra_matrix_transpose_test() {
    let mut row: Vec<i32> = vec![1, 2, 3];
    let mut m = Matrix::<i32>::init();
    m.push_row(row).unwrap();

    row = vec![5, 7, 8];
    m.push_row(row).unwrap();

    let save = m.clone();

    m.transpose();

    assert_eq!(save.ncols(), m.nrows());
    assert_eq!(save.nrows(), m.ncols());
    assert_eq!(save.get_element(0, 0), m.get_element(0, 0));
    assert_eq!(save.get_element(0, 1), m.get_element(1, 0));
    assert_eq!(save.get_element(0, 2), m.get_element(2, 0));
}

#[test]
fn algebra_matrix_scalar_mul_test() {
    let values: Vec<Vec<i32>> = vec![vec![1, 2, 3], vec![4, 5, 6]];
    let m = Matrix::<i32>::init_with_values(&values).unwrap();
    let pr = m.scalar_mul(2);

    assert_eq!(pr.get_element(0, 0), Ok(2));
    assert_eq!(pr.get_element(0, 1), Ok(4));
    assert_eq!(pr.get_element(0, 2), Ok(6));
    assert_eq!(pr.get_element(1, 0), Ok(8));
    assert_eq!(pr.get_element(1, 1), Ok(10));
    assert_eq!(pr.get_element(1, 2), Ok(12));
}

#[test]
fn algebra_matrix_mul_trait_test() {
    let mut values: Vec<Vec<i32>> = vec![vec![1, 4], vec![2, 5], vec![3, 6]];
    let m = Matrix::<i32>::init_with_values(&values).unwrap();

    values = vec![vec![7, 8, 9], vec![10, 11, 12]];
    let m2 = Matrix::<i32>::init_with_values(&values).unwrap();

    let prod = m.mul(&m2).unwrap();

    assert_eq!(prod.ncols(), m.nrows());
    assert_eq!(prod.nrows(), m2.ncols());
}

#[test]
fn algebra_matrix_get_diagonal_test() {
    let values: Vec<Vec<i64>> = vec![vec![1, -2, 2], vec![4, -5, 6], vec![2, 1, -2]];
    let m = Matrix::<i64>::init_with_values(&values).unwrap();

    let d: Matrix<i64> = m.get_diagonal().unwrap();

    assert_eq!(d.ncols(), m.ncols());
    assert_eq!(d.nrows(), m.nrows());
    assert_eq!(d.get_element(0, 0), m.get_element(0, 0));
    assert_eq!(d.get_element(0, 1), Ok(0));
    assert_eq!(d.get_element(0, 2), Ok(0));
    assert_eq!(d.get_element(1, 1), m.get_element(1, 1));
    assert_eq!(d.get_element(1, 0), Ok(0));
    assert_eq!(d.get_element(1, 2), Ok(0));
    assert_eq!(d.get_element(2, 2), m.get_element(2, 2));
    assert_eq!(d.get_element(2, 0), Ok(0));
    assert_eq!(d.get_element(2, 1), Ok(0));
}

#[test]
fn algebra_matrix_submatrix_test() {
    let values: Vec<Vec<f32>> = vec![vec![1.0, 4.0], vec![2.0, 5.0], vec![3.0, 6.0]];
    let m = Matrix::<f32>::init_with_values(&values).unwrap();

    let range_row: [usize; 2] = [1, 2];
    let range_col: [usize; 2] = [0, 0];

    let s = m.submatrix(&range_row, &range_col).unwrap();

    assert_eq!(s.ncols(), (range_col[1] + 1) - range_col[0]);
    assert_eq!(s.nrows(), (range_row[1] + 1) - range_row[0]);
}

#[test]
fn matrix_row_iter_at_test() {
    let m = Matrix::<i32>::init_with_values(&vec![vec![1, 3], vec![2, 5], vec![3, 6]]).unwrap();
    let mut i = m.row_iter_at(1);

    assert_eq!(i.next().unwrap(), &vec![2, 5]);
    assert_eq!(i.next().unwrap(), &vec![3, 6]);
}

#[test]
fn matrix_row_iter_test() {
    let m = Matrix::<i32>::init_with_values(&vec![vec![1, 3], vec![2, 5], vec![3, 6]]).unwrap();
    let mut i = m.row_iter();

    assert_eq!(i.next().unwrap(), &vec![1, 3]);
    assert_eq!(i.next().unwrap(), &vec![2, 5]);
    assert_eq!(i.next().unwrap(), &vec![3, 6]);
}

#[test]
fn matrix_col_iter_at_test() {
    let m = Matrix::<i32>::init_with_values(&vec![vec![1, 3], vec![2, 5], vec![3, 6]]).unwrap();
    let mut i = m.col_iter_at(1);

    assert_eq!(i.next().unwrap(), vec![3, 5, 6]);
}

#[test]
fn matrix_col_iter_test() {
    let m = Matrix::<i32>::init_with_values(&vec![vec![1, 3], vec![2, 5], vec![3, 6]]).unwrap();
    let mut i = m.col_iter();

    assert_eq!(i.next().unwrap(), vec![1, 2, 3]);
    assert_eq!(i.next().unwrap(), vec![3, 5, 6]);
}

#[test]
fn matrix_el_iter_at_test() {
    let m = Matrix::<i32>::init_with_values(&vec![vec![1, 3], vec![2, 5], vec![3, 6]]).unwrap();
    let mut i = m.el_iter_at(1);

    assert_eq!(i.next().unwrap(), 3);
    assert_eq!(i.next().unwrap(), 2);
    assert_eq!(i.next().unwrap(), 5);
    assert_eq!(i.next().unwrap(), 3);
    assert_eq!(i.next().unwrap(), 6);
}

#[test]
fn matrix_el_iter_test() {
    let m = Matrix::<i32>::init_with_values(&vec![vec![8, 3], vec![5, 10]]).unwrap();
    let mut i = m.el_iter();

    assert_eq!(Ok(i.next().unwrap()), m.get_element(0, 0));
    assert_eq!(Ok(i.next().unwrap()), m.get_element(0, 1));
    assert_eq!(Ok(i.next().unwrap()), m.get_element(1, 0));
    assert_eq!(Ok(i.next().unwrap()), m.get_element(1, 1));
}

// --------------- Vector ----------------------------------------

#[test]
fn algebra_vector_init_test() {
    let v = Vector::<f64>::init(&vec![2.5f64, -2.1f64, 5.3f64]);

    assert_eq!(v.size(), 3);
    assert_eq!(v.el(0), Ok(2.5f64));
    assert_eq!(v.el(1), Ok(-2.1f64));
    assert_eq!(v.el(2), Ok(5.3f64));
}

#[test]
fn vector_zeros_test() {
    let v = Vector::<i32>::zeros(2);

    assert_eq!(v.size(), 2);
    assert_eq!(v.el(0), Ok(0));
    assert_eq!(v.el(1), Ok(0));
}

#[test]
fn vector_ones_test() {
    let v = Vector::<u32>::ones(2);

    assert_eq!(v.size(), 2);
    assert_eq!(v.el(0), Ok(1));
    assert_eq!(v.el(1), Ok(1));
}

#[test]
fn vector_random_test() {
    let v = Vector::<i32>::random(5, &[-1i32, 2i32]).unwrap();

    assert_eq!(v.size(), 5);
    for k in 0..5 {
        let e = v.el(k).unwrap();
        assert_eq!(e >= -1i32 && e <= 2i32, true);
    }
}

#[test]
fn vector_push_test() {
    let mut v = Vector::<f32>::new();
    v.push(1f32);

    assert_eq!(v.size(), 1);
    assert_eq!(v.el(0), Ok(1f32));
}

#[test]
fn vector_remove_test() {
    let mut v = Vector::<f32>::init(&vec![2.0, 3.1, 2.1]);
    v.remove(1).unwrap();

    assert_eq!(v.size(), 2);
    assert_eq!(v.el(0), Ok(2.0));
    assert_eq!(v.el(1), Ok(2.1));
}

#[test]
fn vector_pop_test() {
    let mut v = Vector::<f64>::init(&vec![2.0, 3.1, 2.1]);
    v.pop();

    assert_eq!(v.size(), 2);
    assert_eq!(v.el(0), Ok(2.0));
    assert_eq!(v.el(1), Ok(3.1));
}

#[test]
fn vector_swap_test() {
    let mut v = Vector::<i64>::init(&vec![2, -1, 1]);
    v.swap(0, 1).unwrap();

    assert_eq!(v.size(), 3);
    assert_eq!(v.el(0), Ok(-1));
    assert_eq!(v.el(1), Ok(2));
    assert_eq!(v.el(2), Ok(1));
}

#[test]
fn vector_append_test() {
    let mut v1 = Vector::<i64>::init(&vec![2, -1, 1]);
    let v2 = Vector::<i64>::init(&vec![5, -7, 10]);

    v1.append(&v2);

    assert_eq!(v1.size(), 6);
    assert_eq!(v2.size(), 3);
}

#[test]
fn vector_clear_test() {
    let mut v = Vector::<f32>::init(&vec![2.0, 3.1, 2.1]);
    v.clear();

    assert_eq!(v.size(), 0);
}

#[test]
fn vector_sort_min_test() {
    let mut v = Vector::<i64>::init(&vec![2, -1, 1]);
    v.sort_min();

    assert_eq!(v.el(0), Ok(-1));
    assert_eq!(v.el(1), Ok(1));
    assert_eq!(v.el(2), Ok(2));
}

#[test]
fn vector_sort_max_test() {
    let mut v = Vector::<i64>::init(&vec![2, -1, 1]);
    v.sort_max();

    assert_eq!(v.el(0), Ok(2));
    assert_eq!(v.el(1), Ok(1));
}

#[test]
fn vector_set_el_test() {
    let mut v = Vector::<i64>::init(&vec![2, -1, 1]);
    v.set_el(2, 5i64).unwrap();

    assert_eq!(v.el(2), Ok(5i64));
}

#[test]
fn algebra_vector_max_test() {
    let v = Vector::<i64>::init(&vec![2, -1, 1]);
    let (max, idx_max) = v.max();

    assert_eq!(max, 2i64);
    assert_eq!(idx_max, 0usize);
}

#[test]
fn algebra_vector_min_test() {
    let v = Vector::<i64>::init(&vec![2, -1, 1]);
    let (min, idx_min) = v.min();

    assert_eq!(min, -1i64);
    assert_eq!(idx_min, 1usize);
}

// The mean of the elements: their sum over their count.
#[test]
fn vector_median_test() {
    let v = Vector::<i64>::init(&vec![2, 4, 0, 6]);
    let median = v.sum() as f64 / v.size() as f64;

    assert_eq!(median, 3f64);
}
