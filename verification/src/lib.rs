//! A quantum-circuit simulator built on a verified complex-matrix kernel.
//!
//! The library keeps a vector of probability amplitudes (a "statevector")
//! and applies, in sequence, the linear operator that corresponds to each
//! circuit instruction.  The matrix kernel, the gates, the circuit
//! model and the execution engine are generic over a scalar type that
//! provides the field operations of complex arithmetic; the contracts of
//! every operation are stated over the scalar's specification-level
//! operations, and the algebraic laws the proofs rely on are obligations
//! of the scalar trait itself.
//!
//! Throughout the crate one qubit-ordering convention is used: qubit 0 is
//! the most significant bit of a basis-state index.

pub mod backend;
pub mod classical_register;
pub mod complex;
pub mod error;
pub mod gates;
pub mod ket;
pub mod quantum_circuit;
pub mod quantum_register;
pub mod simulator;
pub mod statevector_backend;
pub mod matrix;
