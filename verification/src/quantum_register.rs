//! A quantum register: a qubit count together with the statevector of
//! its current state, to which full-space operators can be applied one
//! by one.

use crate::complex::Scalar;
use crate::matrix::{spec_dot, Matrix};
use crate::statevector_backend::pow2_usize;
use vstd::arithmetic::power2::*;
use vstd::prelude::*;

verus! {

broadcast use crate::matrix::Matrix::lemma_view_shape;

/// A register of `width` qubits holding a column statevector of
/// 2^`width` amplitudes.
#[derive(Debug)]
pub struct QuantumRegister<T> {
    width: usize,
    statevector: Matrix<T>,
}

impl<T: Scalar> QuantumRegister<T> {
    /// The qubit count.
    pub closed spec fn spec_width(&self) -> nat {
        self.width as nat
    }

    /// The current statevector.
    pub closed spec fn spec_statevector(&self) -> Matrix<T> {
        self.statevector
    }

    /// The statevector is a well-formed column of 2^`width` amplitudes.
    pub open spec fn wf(&self) -> bool {
        &&& self.spec_statevector().wf()
        &&& self.spec_statevector().spec_rows() == pow2(self.spec_width())
        &&& self.spec_statevector().spec_cols() == 1
    }

    /// A register of `width` qubits in the all-zero basis state.
    pub fn new(width: usize) -> (r: QuantumRegister<T>)
        requires
            pow2(width as nat) <= usize::MAX,
        ensures
            r.wf(),
            r.spec_width() == width,
            r.spec_statevector()@[0][0] == T::spec_one(),
            forall|i: int|
                1 <= i < pow2(width as nat) ==> r.spec_statevector()@[i][0] == T::spec_zero(),
    {
        proof {
            lemma_pow2_pos(width as nat);
            T::law_wf_one();
        }
        let big = pow2_usize(width);
        proof {
            assert(big * 1 == big) by (nonlinear_arith);
        }
        let mut statevector = Matrix::new_with_default_elems(big, 1);
        let _ = statevector.set(0, 0, T::one());
        QuantumRegister { width, statevector }
    }

    /// The current statevector.
    pub fn statevector(&self) -> (r: &Matrix<T>)
        ensures
            *r == self.spec_statevector(),
    {
        &self.statevector
    }

    /// Applies a full-space operator to the state by
    /// left-multiplication, replacing the statevector.
    pub fn apply(&mut self, gate: Matrix<T>)
        requires
            old(self).wf(),
            gate.wf(),
            gate.spec_rows() == pow2(old(self).spec_width()),
            gate.spec_cols() == pow2(old(self).spec_width()),
        ensures
            final(self).wf(),
            final(self).spec_width() == old(self).spec_width(),
            final(self).spec_statevector()@ == spec_dot(
                gate@,
                old(self).spec_statevector()@,
                1,
            ),
    {
        let rows = gate.rows();
        proof {
            assert(rows * 1 == rows) by (nonlinear_arith);
        }
        match gate.dot_product(&self.statevector) {
            Ok(v) => {
                self.statevector = v;
            },
            Err(_) => {
                proof {
                    assert(false);
                }
            },
        }
    }
}

} // verus!
