//! A restricted demonstration backend: it executes only circuits made of
//! Hadamard gates, and fails with
//! [`crate::error::Error::UnsupportedInstruction`] on anything else.  On
//! the circuits it accepts it agrees exactly with the statevector
//! engine's semantics.

use crate::backend::Backend;
use crate::complex::Scalar;
use crate::error::Error;
use crate::gates;
use crate::matrix::Matrix;
use crate::quantum_circuit::{Instruction, QuantumCircuit};
use crate::statevector_backend::{
    basis_state,
    expand_single,
    identity_map,
    lemma_run_snoc,
    mul_state,
    pow2_usize,
    spec_execute,
    spec_run,
};
use vstd::arithmetic::power2::*;
use vstd::prelude::*;

verus! {

broadcast use crate::matrix::Matrix::lemma_view_shape;

/// The Hadamard-only backend.
#[derive(Debug)]
pub struct SimulatorBackend;

/// Every instruction in the sequence is a Hadamard gate.
pub open spec fn all_hadamard<T>(s: Seq<Instruction<T>>) -> bool {
    forall|k: int| 0 <= k < s.len() ==> (#[trigger] s[k]) is Hadamard
}

/// The state space is nonempty and fits in memory.
proof fn lemma_space(n: nat)
    requires
        pow2(n) * pow2(n) <= usize::MAX,
    ensures
        pow2(n) <= usize::MAX,
        1 <= pow2(n),
{
    lemma_pow2_pos(n);
    assert(pow2(n) <= pow2(n) * pow2(n)) by (nonlinear_arith)
        requires
            1 <= pow2(n),
    ;
}

impl<T: Scalar> Backend<T> for SimulatorBackend {
    type Output = Result<Matrix<T>, Error>;

    /// Executes a circuit of Hadamard gates and returns the final
    /// statevector; fails with [`Error::UnsupportedInstruction`] exactly
    /// when the circuit holds any other instruction kind.
    #[verifier::loop_isolation(false)]
    fn execute(circuit: QuantumCircuit<T>) -> (r: Result<Matrix<T>, Error>)
        ensures
            all_hadamard(circuit.spec_instructions()) ==> {
                &&& r is Ok
                &&& r->Ok_0.wf()
                &&& r->Ok_0.spec_rows() == pow2(circuit.spec_qubits())
                &&& r->Ok_0.spec_cols() == 1
                &&& r->Ok_0@ == spec_execute(circuit)
            },
            !all_hadamard(circuit.spec_instructions()) ==> r == Result::<Matrix<T>, Error>::Err(
                Error::UnsupportedInstruction,
            ),
    {
        let n = circuit.qubits();
        proof {
            lemma_space(n as nat);
            T::law_wf_one();
        }
        let big = pow2_usize(n);
        let mut state = Matrix::new_with_default_elems(big, 1);
        proof {
            assert(big * 1 == big) by (nonlinear_arith);
        }
        let _ = state.set(0, 0, T::one());
        proof {
            assert(state@ =~~= basis_state::<T>(pow2(n as nat)));
        }
        let instrs = circuit.instructions();
        let ilen = instrs.len();
        let mut st = state;
        let mut j: usize = 0;
        while j < ilen
            invariant
                j <= ilen,
                st.wf(),
                st.spec_rows() == pow2(n as nat),
                st.spec_cols() == 1,
                st@ == spec_run(
                    basis_state::<T>(pow2(n as nat)),
                    circuit.spec_instructions().subrange(0, j as int),
                    identity_map(n as nat),
                    n as nat,
                ),
                forall|p: int| 0 <= p < j ==> (#[trigger] circuit.spec_instructions()[p]) is Hadamard,
            decreases ilen - j,
        {
            match &instrs[j] {
                Instruction::Hadamard(q) => {
                    let g = gates::hadamard::<T>();
                    let op = expand_single(&g, n, *q);
                    let v = mul_state(op, st, n);
                    proof {
                        let pre = circuit.spec_instructions().subrange(0, j as int);
                        let cur = circuit.spec_instructions().subrange(0, j + 1);
                        assert(cur.drop_last() =~= pre);
                        assert(cur.last() == circuit.spec_instructions()[j as int]);
                        lemma_run_snoc(
                            basis_state::<T>(pow2(n as nat)),
                            cur,
                            identity_map(n as nat),
                            n as nat,
                        );
                    }
                    st = v;
                },
                _ => {
                    proof {
                        assert(!(circuit.spec_instructions()[j as int] is Hadamard));
                    }
                    return Err(Error::UnsupportedInstruction);
                },
            }
            j = j + 1;
        }
        proof {
            assert(circuit.spec_instructions().subrange(0, ilen as int)
                =~= circuit.spec_instructions());
        }
        Ok(st)
    }
}

} // verus!
