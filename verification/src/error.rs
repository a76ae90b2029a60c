//! The failure kinds shared by the matrix kernel, the circuit model and the
//! execution backends.  Structural errors are detected eagerly (circuit
//! validation happens when an instruction is added, not when the circuit is
//! executed), and every error aborts the operation that met it: there is no
//! retry or partial-result semantics anywhere in this crate.

use vstd::prelude::*;

verus! {

#[derive(Debug, Clone, PartialEq, Eq)]
pub enum Error {
    /// A matrix constructor was handed a data buffer whose length does not
    /// match the declared dimensions.
    ShapeMismatch,
    /// A matrix product was asked of matrices with incompatible inner
    /// dimensions, or a sum of differently-shaped matrices.
    DimensionMismatch,
    /// An element access lay beyond a matrix's extent.
    IndexOutOfBounds,
    /// An instruction referenced a qubit index at or beyond the circuit's
    /// qubit count.  `gate_names` is the chain of enclosing custom-gate
    /// names, innermost last; it is empty when the offending instruction
    /// was not inside a custom gate.
    InvalidQubitIndex { qubit: usize, gate_names: Vec<String> },
    /// Execution met an instruction variant the backend does not implement.
    UnsupportedInstruction,
}

} // verus!
