use quantum_crab::complex::{ExactComplex, Scalar};
use quantum_crab::error::Error;
use quantum_crab::matrix::Matrix;

fn c(x: u64) -> ExactComplex {
    ExactComplex::from_real(x)
}

fn m(rows: usize, cols: usize, values: &[u64]) -> Matrix<ExactComplex> {
    let data: Vec<ExactComplex> = values.iter().map(|v| c(*v)).collect();
    Matrix::new(rows, cols, data).unwrap()
}

#[test]
fn test_tensor_product() {
    let m1 = m(2, 2, &[1, 2, 3, 4]);
    let m2 = m(2, 2, &[5, 6, 7, 8]);
    let tensor_product = m1.tensor_product(&m2);
    let expected = m(
        4,
        4,
        &[
            5, 6, 10, 12, //
            7, 8, 14, 16, //
            15, 18, 20, 24, //
            21, 24, 28, 32,
        ],
    );
    assert_eq!(tensor_product, expected);
}

#[test]
fn test_dot_product() {
    let m1 = m(2, 2, &[1, 2, 3, 4]);
    let m2 = m(2, 2, &[5, 6, 7, 8]);
    let dot_product = m1.dot_product(&m2).unwrap();
    let expected = m(2, 2, &[19, 22, 43, 50]);
    assert_eq!(dot_product, expected);
}

#[test]
fn test_dot_product2() {
    let ket0 = m(2, 1, &[1, 0]);
    let pauli_x = m(2, 2, &[0, 1, 1, 0]);
    let ket1 = m(2, 1, &[0, 1]);

    assert_eq!(pauli_x.dot_product(&ket0).unwrap(), ket1);
}

#[test]
fn test_matrix_addition() {
    let m1 = m(2, 2, &[1, 2, 3, 4]);
    let m2 = m(2, 2, &[5, 6, 7, 8]);
    let sum = m1.add(&m2).unwrap();
    let expected = m(2, 2, &[6, 8, 10, 12]);
    assert_eq!(sum, expected);
}

#[test]
fn test_new_shape_mismatch() {
    let r = Matrix::<ExactComplex>::new(2, 2, vec![c(1), c(2), c(3)]);
    assert_eq!(r.unwrap_err(), Error::ShapeMismatch);
}

#[test]
fn test_dot_product_dimension_mismatch() {
    let m1 = m(2, 2, &[1, 2, 3, 4]);
    let m2 = m(3, 1, &[5, 6, 7]);
    assert_eq!(m1.dot_product(&m2).unwrap_err(), Error::DimensionMismatch);
}

#[test]
fn test_addition_dimension_mismatch() {
    let m1 = m(2, 2, &[1, 2, 3, 4]);
    let m2 = m(1, 2, &[5, 6]);
    assert_eq!(m1.add(&m2).unwrap_err(), Error::DimensionMismatch);
}

#[test]
fn test_get_and_set() {
    let mut a = m(2, 3, &[1, 2, 3, 4, 5, 6]);
    assert_eq!(a.get(0, 0).unwrap(), c(1));
    assert_eq!(a.get(1, 2).unwrap(), c(6));
    assert_eq!(a.get(2, 0).unwrap_err(), Error::IndexOutOfBounds);
    assert_eq!(a.get(0, 3).unwrap_err(), Error::IndexOutOfBounds);
    a.set(1, 1, c(42)).unwrap();
    assert_eq!(a.get(1, 1).unwrap(), c(42));
    assert_eq!(a.set(5, 0, c(9)).unwrap_err(), Error::IndexOutOfBounds);
    // the failed write left the matrix unchanged
    assert_eq!(a, m(2, 3, &[1, 2, 3, 4, 42, 6]));
}

#[test]
fn test_transpose() {
    let a = m(2, 3, &[1, 2, 3, 4, 5, 6]);
    let expected = m(3, 2, &[1, 4, 2, 5, 3, 6]);
    assert_eq!(a.transpose(), expected);
    assert_eq!(a.transpose().transpose(), a);
}

#[test]
fn test_hermitian_transpose() {
    // [[1 + i, 1 - i]] transposes to [[1 - i], [1 + i]]
    let one_plus_i = ExactComplex::new(1, 1);
    let one_minus_i = one_plus_i.conj();
    let a = Matrix::new(1, 2, vec![one_plus_i, one_minus_i]).unwrap();
    let expected = Matrix::new(2, 1, vec![one_minus_i, one_plus_i]).unwrap();
    assert_eq!(a.hermitian_transpose(), expected);
}

#[test]
fn test_identity_is_neutral() {
    let a = m(2, 2, &[9, 7, 3, 1]);
    let id = Matrix::<ExactComplex>::identity(2);
    assert_eq!(id.dot_product(&a).unwrap(), a);
    assert_eq!(a.dot_product(&id).unwrap(), a);
}

#[test]
fn test_mixed_product_property() {
    // (A tensor B) * (C tensor D) == (A * C) tensor (B * D)
    let a = m(2, 2, &[1, 2, 3, 4]);
    let b = m(2, 2, &[5, 6, 7, 8]);
    let cc = m(2, 2, &[2, 0, 1, 3]);
    let d = m(2, 2, &[1, 1, 0, 2]);
    let lhs = a.tensor_product(&b).dot_product(&cc.tensor_product(&d)).unwrap();
    let rhs = a.dot_product(&cc).unwrap().tensor_product(&b.dot_product(&d).unwrap());
    assert_eq!(lhs, rhs);
}

#[test]
fn test_embed() {
    let mut outer = Matrix::<ExactComplex>::identity(4);
    let block = m(2, 2, &[0, 1, 1, 0]);
    outer.embed(&block, 2, 2);
    let expected = m(
        4,
        4,
        &[
            1, 0, 0, 0, //
            0, 1, 0, 0, //
            0, 0, 0, 1, //
            0, 0, 1, 0,
        ],
    );
    assert_eq!(outer, expected);
}

#[test]
fn test_scalar_mul() {
    let a = m(2, 2, &[1, 2, 3, 4]);
    let expected = m(2, 2, &[3, 6, 9, 12]);
    assert_eq!(a.scalar_mul(c(3)), expected);
}

#[test]
fn test_zero_filled() {
    let a = Matrix::<ExactComplex>::new_with_default_elems(2, 2);
    assert_eq!(a, m(2, 2, &[0, 0, 0, 0]));
    assert_eq!(a.rows(), 2);
    assert_eq!(a.cols(), 2);
}
