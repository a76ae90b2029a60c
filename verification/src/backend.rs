//! The execution boundary: a backend consumes a quantum circuit and
//! returns some representation of the result — the statevector backend a
//! vector of amplitudes, other backends whatever their `Output` says.

use crate::complex::Scalar;
use crate::quantum_circuit::{scalars_wf_sequence, QuantumCircuit};
use vstd::arithmetic::power2::pow2;
use vstd::prelude::*;

verus! {

/// Executes quantum circuits over the scalar type `S`.
///
/// A circuit handed to a backend must be valid (which circuits built
/// through [`QuantumCircuit::add`] always are), carry well-formed phase
/// scalars, and be small enough that a full operator over its state
/// space fits in memory.
pub trait Backend<S: Scalar> {
    /// The representation of an execution result.
    type Output;

    /// Executes the circuit and returns the output data corresponding
    /// to the backend's kind.
    fn execute(circuit: QuantumCircuit<S>) -> Self::Output
        requires
            circuit.wf(),
            scalars_wf_sequence(circuit.spec_instructions()),
            pow2(circuit.spec_qubits()) * pow2(circuit.spec_qubits()) <= usize::MAX,
    ;
}

} // verus!
