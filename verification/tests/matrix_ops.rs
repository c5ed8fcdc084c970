use raytracing::matrix::Matrix;
use raytracing::rat::Rat;

fn ri(n: i64) -> Rat {
    Rat::from_int(n)
}

fn rq(n: i64, d: i64) -> Rat {
    Rat::new(n, d)
}

fn mi(rows: &[&[i64]]) -> Matrix {
    let data: Vec<Vec<Rat>> = rows.iter().map(|r| r.iter().map(|&x| ri(x)).collect()).collect();
    Matrix::new(data)
}

#[test]
fn test_matrix_rows() {
    let m = mi(&[&[1, 2], &[4, 3]]);
    let v = m.rows();
    assert_eq!(v, vec![vec![ri(1), ri(2)], vec![ri(4), ri(3)]]);
}

#[test]
fn test_matrix_cols() {
    let m = mi(&[&[1, 2], &[4, 3]]);
    let v = m.cols();
    assert_eq!(v, vec![vec![ri(1), ri(4)], vec![ri(2), ri(3)]]);
}

#[test]
fn test_matrix_from_float() {
    let m = Matrix::fill(3, 3, ri(4));
    assert_eq!(m, mi(&[&[4, 4, 4], &[4, 4, 4], &[4, 4, 4]]));
}

#[test]
fn test_matrix_mul() {
    let m = mi(&[&[1, 2], &[4, 3]]);
    let n = mi(&[&[1, 2, 3], &[3, -4, 7]]);
    let expected = mi(&[&[7, -6, 17], &[13, -4, 33]]);
    assert_eq!(m.mul(&n), expected);
}

#[test]
fn test_matrix_transpose() {
    let m = mi(&[&[1, 2, 3], &[3, -4, 7]]);
    let expected = mi(&[&[1, 3], &[2, -4], &[3, 7]]);
    assert_eq!(m.transpose(), expected);
}

#[test]
fn test_matrix_identity() {
    let m = Matrix::identity(4);
    assert_eq!(
        m,
        mi(&[&[1, 0, 0, 0], &[0, 1, 0, 0], &[0, 0, 1, 0], &[0, 0, 0, 1]])
    );
}

#[test]
fn test_matrix_inverse() {
    let m = mi(&[
        &[8, -5, 9, 2],
        &[7, 5, 6, 1],
        &[-6, 0, 9, 6],
        &[-3, 0, -9, -4],
    ]);
    let expected = Matrix::new(vec![
        vec![rq(-15385, 100000), rq(-15385, 100000), rq(-28205, 100000), rq(-53846, 100000)],
        vec![rq(-7692, 100000), rq(12308, 100000), rq(2564, 100000), rq(3077, 100000)],
        vec![rq(35897, 100000), rq(35897, 100000), rq(43590, 100000), rq(92308, 100000)],
        vec![rq(-69231, 100000), rq(-69231, 100000), rq(-76923, 100000), rq(-192308, 100000)],
    ]);
    assert!(m.inverse().abs_diff_eq(&expected, Matrix::default_epsilon()));
}

#[test]
fn test_matrix_mul_identity_both_sides() {
    let m = mi(&[&[3, -1, 7], &[2, 5, -4], &[0, 8, 6]]);
    assert_eq!(m.mul(&Matrix::identity(3)), m);
    assert_eq!(Matrix::identity(3).mul(&m), m);
}

#[test]
fn test_matrix_mul_associative() {
    let a = mi(&[&[1, 2], &[3, 4]]);
    let b = mi(&[&[0, -1], &[5, 2]]);
    let c = mi(&[&[7, 1], &[-3, 6]]);
    assert_eq!(a.mul(&b).mul(&c), a.mul(&b.mul(&c)));
}

#[test]
fn test_matrix_transpose_involution() {
    let m = mi(&[&[1, 2, 3], &[3, -4, 7]]);
    assert_eq!(m.transpose().transpose(), m);
}

#[test]
fn test_matrix_mul_inverse_is_identity() {
    let m = mi(&[
        &[8, -5, 9, 2],
        &[7, 5, 6, 1],
        &[-6, 0, 9, 6],
        &[-3, 0, -9, -4],
    ]);
    let product = m.mul(&m.inverse());
    assert!(product.abs_diff_eq(&Matrix::identity(4), Matrix::default_epsilon()));
}

#[test]
fn test_matrix_elements_row_major() {
    let m = mi(&[&[1, 2], &[4, 3]]);
    assert_eq!(m.elements(), vec![ri(1), ri(2), ri(4), ri(3)]);
}

#[test]
fn test_matrix_dimensions() {
    let m = mi(&[&[1, 2, 3], &[3, -4, 7]]);
    assert_eq!(m.nrows(), 2);
    assert_eq!(m.ncols(), 3);
    assert_eq!(m.at(1, 2), ri(7));
}
