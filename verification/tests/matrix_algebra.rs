use optimal_control::controllability::{concatenate_columns, concatenate_rows};
use optimal_control::lqr::{kronecker, unvectorize, vectorize};
use optimal_control::matrix::Mat;

fn identity(n: usize) -> Mat<f64> {
    let mut data = Vec::new();
    for i in 0..n {
        for j in 0..n {
            data.push(if i == j { 1.0 } else { 0.0 });
        }
    }
    Mat::from_row_slice(n, n, &data)
}

fn entries(m: &Mat<f64>) -> Vec<f64> {
    let mut out = Vec::new();
    for i in 0..m.nrows() {
        for j in 0..m.ncols() {
            out.push(m.get(i, j));
        }
    }
    out
}

#[test]
fn test_kronecker_identity() {
    let a = identity(2);
    let k = kronecker(&a, &a, |x: f64, y: f64| x * y);
    let i4 = identity(4);
    assert_eq!(k.nrows(), 4);
    assert_eq!(k.ncols(), 4);
    assert_eq!(entries(&k), entries(&i4));
}

#[test]
fn test_vectorize_roundtrip() {
    let m = Mat::from_row_slice(2, 3, &[1.0, 2.0, 3.0, 4.0, 5.0, 6.0]);
    let v = vectorize(&m);
    let m2 = unvectorize(&v, 2, 3);
    let mut norm_sq: f64 = 0.0;
    for i in 0..2 {
        for j in 0..3 {
            let d = m.get(i, j) - m2.get(i, j);
            norm_sq += d * d;
        }
    }
    assert!(norm_sq.sqrt() < 1e-10);
}

#[test]
fn from_row_slice_reads_rows() {
    let m = Mat::from_row_slice(2, 3, &[1, 2, 3, 4, 5, 6]);
    assert_eq!(m.nrows(), 2);
    assert_eq!(m.ncols(), 3);
    assert_eq!(m.get(0, 2), 3);
    assert_eq!(m.get(1, 0), 4);
}

#[test]
fn from_row_slice_empty_shapes() {
    let m: Mat<i32> = Mat::from_row_slice(0, 4, &[]);
    assert_eq!(m.nrows(), 0);
    assert_eq!(m.ncols(), 4);
    let m: Mat<i32> = Mat::from_row_slice(3, 0, &[]);
    assert_eq!(m.nrows(), 3);
    assert_eq!(m.ncols(), 0);
}

#[test]
fn vectorize_is_column_major() {
    let m = Mat::from_row_slice(2, 3, &[1, 2, 3, 4, 5, 6]);
    assert_eq!(vectorize(&m), vec![1, 4, 2, 5, 3, 6]);
}

#[test]
fn unvectorize_fills_columns_and_ignores_the_tail() {
    let m = unvectorize(&[1, 2, 3, 4, 5, 6, 7], 3, 2);
    assert_eq!(m.nrows(), 3);
    assert_eq!(m.ncols(), 2);
    assert_eq!(entries_i(&m), vec![1, 4, 2, 5, 3, 6]);
}

#[test]
fn vectorize_of_unvectorize_gives_the_vector_back() {
    let v = vec![9, 8, 7, 6, 5, 4];
    let m = unvectorize(&v, 2, 3);
    assert_eq!(vectorize(&m), v);
}

fn entries_i(m: &Mat<i64>) -> Vec<i64> {
    let mut out = Vec::new();
    for i in 0..m.nrows() {
        for j in 0..m.ncols() {
            out.push(m.get(i, j));
        }
    }
    out
}

#[test]
fn kronecker_places_scaled_blocks() {
    let a = Mat::from_row_slice(1, 2, &[1i64, 10]);
    let b = Mat::from_row_slice(2, 2, &[1i64, 2, 3, 4]);
    let k = kronecker(&a, &b, |x: i64, y: i64| x * y);
    assert_eq!(k.nrows(), 2);
    assert_eq!(k.ncols(), 4);
    assert_eq!(entries_i(&k), vec![1, 2, 10, 20, 3, 4, 30, 40]);
}

#[test]
fn kronecker_with_empty_factor_is_empty() {
    let a = Mat::from_row_slice(2, 2, &[1i64, 2, 3, 4]);
    let b: Mat<i64> = Mat::from_row_slice(0, 3, &[]);
    let k = kronecker(&a, &b, |x: i64, y: i64| x * y);
    assert_eq!(k.nrows(), 0);
    assert_eq!(k.ncols(), 6);
}

#[test]
fn concatenate_columns_places_blocks_side_by_side() {
    let b = Mat::from_row_slice(2, 1, &[1i64, 2]);
    let ab = Mat::from_row_slice(2, 2, &[3i64, 4, 5, 6]);
    let c = concatenate_columns(&[b, ab]);
    assert_eq!(c.nrows(), 2);
    assert_eq!(c.ncols(), 3);
    assert_eq!(entries_i(&c), vec![1, 3, 4, 2, 5, 6]);
}

#[test]
fn concatenate_rows_stacks_blocks() {
    let c = Mat::from_row_slice(1, 2, &[1i64, 0]);
    let ca = Mat::from_row_slice(2, 2, &[0i64, 1, 7, 8]);
    let o = concatenate_rows(&[c, ca]);
    assert_eq!(o.nrows(), 3);
    assert_eq!(o.ncols(), 2);
    assert_eq!(entries_i(&o), vec![1, 0, 0, 1, 7, 8]);
}

#[test]
fn concatenating_no_blocks_gives_empty_matrix() {
    let none: [Mat<i64>; 0] = [];
    let c = concatenate_columns(&none);
    assert_eq!((c.nrows(), c.ncols()), (0, 0));
    let r = concatenate_rows(&none);
    assert_eq!((r.nrows(), r.ncols()), (0, 0));
}

#[test]
fn concatenating_one_block_gives_it_back() {
    let m = Mat::from_row_slice(2, 2, &[1i64, 2, 3, 4]);
    let c = concatenate_columns(std::slice::from_ref(&m));
    assert_eq!(entries_i(&c), entries_i(&m));
    let r = concatenate_rows(std::slice::from_ref(&m));
    assert_eq!(entries_i(&r), entries_i(&m));
}
