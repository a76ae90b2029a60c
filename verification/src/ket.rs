//! Row- and column-vector representations of a quantum state, related by
//! the Hermitian transpose, and the construction of a basis-state vector
//! from a classical register.

use crate::classical_register::{spec_value, ClassicalRegister};
use crate::complex::Scalar;
use crate::matrix::Matrix;
use vstd::prelude::*;

verus! {

broadcast use crate::matrix::Matrix::lemma_view_shape;

/// A quantum state as a single-row matrix.
#[derive(Debug, Clone, PartialEq)]
pub struct Ket<T> {
    inner: Matrix<T>,
}

/// A quantum state as a single-column matrix.
#[derive(Debug, Clone, PartialEq)]
pub struct Bra<T> {
    inner: Matrix<T>,
}

impl<T: Scalar> Ket<T> {
    /// The wrapped matrix.
    pub closed spec fn spec_matrix(&self) -> Matrix<T> {
        self.inner
    }

    /// The wrapped matrix is a well-formed single row.
    pub open spec fn wf(&self) -> bool {
        self.spec_matrix().wf() && self.spec_matrix().spec_rows() == 1
    }

    /// The underlying single-row matrix.
    pub fn matrix(&self) -> (r: &Matrix<T>)
        ensures
            *r == self.spec_matrix(),
    {
        &self.inner
    }

    /// Wraps a single-row matrix.
    pub fn from_matrix(matrix: Matrix<T>) -> (r: Ket<T>)
        requires
            matrix.spec_rows() == 1,
        ensures
            r.spec_matrix() == matrix,
            matrix.wf() ==> r.wf(),
    {
        Ket { inner: matrix }
    }

    /// The dual of a column-vector state: its Hermitian transpose.
    pub fn from_bra(bra: &Bra<T>) -> (r: Ket<T>)
        requires
            bra.wf(),
        ensures
            r.wf(),
            r.spec_matrix().spec_cols() == bra.spec_matrix().spec_rows(),
            forall|i: int|
                0 <= i < bra.spec_matrix().spec_rows() ==> r.spec_matrix()@[0][i]
                    == bra.spec_matrix()@[i][0].spec_conj(),
    {
        Ket { inner: bra.matrix().hermitian_transpose() }
    }

    /// The basis-state row vector a classical register denotes: one at
    /// the register's value, zero elsewhere, over as many entries as
    /// the register has bits.
    pub fn from_register(register: &ClassicalRegister) -> (r: Ket<T>)
        requires
            register.wf(),
            forall|k: int| 32 <= k < register@.len() ==> register@[k] == 0u8,
            spec_value(register@) < register@.len(),
        ensures
            r.wf(),
            r.spec_matrix().spec_cols() == register@.len(),
            r.spec_matrix()@[0][spec_value(register@) as int] == T::spec_one(),
            forall|i: int|
                0 <= i < register@.len() && i != spec_value(register@) ==> r.spec_matrix()@[0][i]
                    == T::spec_zero(),
    {
        let w = register.width();
        proof {
            assert(1 * w == w) by (nonlinear_arith);
            T::law_wf_one();
        }
        let mut m = Matrix::new_with_default_elems(1, w);
        let v = register.value();
        let _ = m.set(0, v as usize, T::one());
        Ket { inner: m }
    }
}

impl<T: Scalar> Bra<T> {
    /// The wrapped matrix.
    pub closed spec fn spec_matrix(&self) -> Matrix<T> {
        self.inner
    }

    /// The wrapped matrix is a well-formed single column.
    pub open spec fn wf(&self) -> bool {
        self.spec_matrix().wf() && self.spec_matrix().spec_cols() == 1
    }

    /// The underlying single-column matrix.
    pub fn matrix(&self) -> (r: &Matrix<T>)
        ensures
            *r == self.spec_matrix(),
    {
        &self.inner
    }

    /// Wraps a single-column matrix.
    pub fn from_matrix(matrix: Matrix<T>) -> (r: Bra<T>)
        requires
            matrix.spec_cols() == 1,
        ensures
            r.spec_matrix() == matrix,
            matrix.wf() ==> r.wf(),
    {
        Bra { inner: matrix }
    }

    /// The dual of a row-vector state: its Hermitian transpose.
    pub fn from_ket(ket: &Ket<T>) -> (r: Bra<T>)
        requires
            ket.wf(),
        ensures
            r.wf(),
            r.spec_matrix().spec_rows() == ket.spec_matrix().spec_cols(),
            forall|i: int|
                0 <= i < ket.spec_matrix().spec_cols() ==> r.spec_matrix()@[i][0]
                    == ket.spec_matrix()@[0][i].spec_conj(),
    {
        Bra { inner: ket.matrix().hermitian_transpose() }
    }

    /// The basis-state column vector a classical register denotes.
    pub fn from_register(register: &ClassicalRegister) -> (r: Bra<T>)
        requires
            register.wf(),
            forall|k: int| 32 <= k < register@.len() ==> register@[k] == 0u8,
            spec_value(register@) < register@.len(),
        ensures
            r.wf(),
            r.spec_matrix().spec_rows() == register@.len(),
            r.spec_matrix()@[spec_value(register@) as int][0] == T::spec_one(),
            forall|i: int|
                0 <= i < register@.len() && i != spec_value(register@) ==> r.spec_matrix()@[i][0]
                    == T::spec_zero(),
    {
        let w = register.width();
        proof {
            assert(w * 1 == w) by (nonlinear_arith);
            T::law_wf_one();
        }
        let mut m = Matrix::new_with_default_elems(w, 1);
        let v = register.value();
        let _ = m.set(v as usize, 0, T::one());
        Bra { inner: m }
    }
}

} // verus!
