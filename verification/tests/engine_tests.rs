use quantum_crab::backend::Backend;
use quantum_crab::complex::{ExactComplex, Scalar};
use quantum_crab::error::Error;
use quantum_crab::matrix::Matrix;
use quantum_crab::quantum_circuit::{Instruction, QuantumCircuit};
use quantum_crab::simulator::SimulatorBackend;
use quantum_crab::statevector_backend::StateVectorBackend;

fn amplitudes(m: &Matrix<ExactComplex>) -> Vec<ExactComplex> {
    let mut v = Vec::new();
    for i in 0..m.rows() {
        v.push(m.get(i, 0).unwrap());
    }
    v
}

fn basis(n: usize, index: usize) -> Vec<ExactComplex> {
    let mut v = vec![ExactComplex::zero(); 1 << n];
    v[index] = ExactComplex::one();
    v
}

#[test]
fn test_empty_circuit_yields_basis_state() {
    let circuit: QuantumCircuit<ExactComplex> = QuantumCircuit::new(2);
    let state = StateVectorBackend::execute(circuit).unwrap();
    assert_eq!(state.rows(), 4);
    assert_eq!(state.cols(), 1);
    assert_eq!(amplitudes(&state), basis(2, 0));
}

#[test]
fn test_pauli_x_on_one_qubit() {
    let mut circuit: QuantumCircuit<ExactComplex> = QuantumCircuit::new(1);
    circuit.add(Instruction::PauliX(0)).unwrap();
    let state = StateVectorBackend::execute(circuit).unwrap();
    assert_eq!(amplitudes(&state), basis(1, 1));
}

#[test]
fn test_identity_is_a_no_op() {
    let mut circuit: QuantumCircuit<ExactComplex> = QuantumCircuit::new(1);
    circuit.add(Instruction::PauliX(0)).unwrap();
    circuit.add(Instruction::Identity(0)).unwrap();
    let state = StateVectorBackend::execute(circuit).unwrap();
    assert_eq!(amplitudes(&state), basis(1, 1));
}

#[test]
fn test_pauli_x_is_involutive_in_circuit() {
    let mut circuit: QuantumCircuit<ExactComplex> = QuantumCircuit::new(1);
    circuit.add(Instruction::PauliX(0)).unwrap();
    circuit.add(Instruction::PauliX(0)).unwrap();
    let state = StateVectorBackend::execute(circuit).unwrap();
    assert_eq!(amplitudes(&state), basis(1, 0));
}

#[test]
fn test_pauli_x_on_most_significant_qubit() {
    // qubit 0 is the most significant bit of the basis index
    let mut circuit: QuantumCircuit<ExactComplex> = QuantumCircuit::new(2);
    circuit.add(Instruction::PauliX(0)).unwrap();
    let state = StateVectorBackend::execute(circuit).unwrap();
    assert_eq!(amplitudes(&state), basis(2, 2));
}

#[test]
fn test_pauli_x_on_least_significant_qubit() {
    let mut circuit: QuantumCircuit<ExactComplex> = QuantumCircuit::new(2);
    circuit.add(Instruction::PauliX(1)).unwrap();
    let state = StateVectorBackend::execute(circuit).unwrap();
    assert_eq!(amplitudes(&state), basis(2, 1));
}

#[test]
fn test_cnot_truth_table() {
    // |00> -> |00>
    let circuit: QuantumCircuit<ExactComplex> = {
        let mut c = QuantumCircuit::new(2);
        c.add(Instruction::ControlledNot { control: 0, target: 1 }).unwrap();
        c
    };
    let state = StateVectorBackend::execute(circuit).unwrap();
    assert_eq!(amplitudes(&state), basis(2, 0));

    // |01> -> |01>: control clear, nothing happens
    let mut c01 = QuantumCircuit::new(2);
    c01.add(Instruction::PauliX(1)).unwrap();
    c01.add(Instruction::ControlledNot { control: 0, target: 1 }).unwrap();
    let state = StateVectorBackend::execute(c01).unwrap();
    assert_eq!(amplitudes(&state), basis(2, 1));

    // |10> -> |11>: control set, target flips
    let mut c10 = QuantumCircuit::new(2);
    c10.add(Instruction::PauliX(0)).unwrap();
    c10.add(Instruction::ControlledNot { control: 0, target: 1 }).unwrap();
    let state = StateVectorBackend::execute(c10).unwrap();
    assert_eq!(amplitudes(&state), basis(2, 3));

    // |11> -> |10>
    let mut c11 = QuantumCircuit::new(2);
    c11.add(Instruction::PauliX(0)).unwrap();
    c11.add(Instruction::PauliX(1)).unwrap();
    c11.add(Instruction::ControlledNot { control: 0, target: 1 }).unwrap();
    let state = StateVectorBackend::execute(c11).unwrap();
    assert_eq!(amplitudes(&state), basis(2, 2));
}

#[test]
fn test_cnot_non_adjacent_qubits() {
    // three qubits, control 0, target 2: |100> -> |101>
    let mut circuit: QuantumCircuit<ExactComplex> = QuantumCircuit::new(3);
    circuit.add(Instruction::PauliX(0)).unwrap();
    circuit.add(Instruction::ControlledNot { control: 0, target: 2 }).unwrap();
    let state = StateVectorBackend::execute(circuit).unwrap();
    assert_eq!(amplitudes(&state), basis(3, 5));
}

#[test]
fn test_swap() {
    // |10> -> |01>
    let mut circuit: QuantumCircuit<ExactComplex> = QuantumCircuit::new(2);
    circuit.add(Instruction::PauliX(0)).unwrap();
    circuit.add(Instruction::SWAP(0, 1)).unwrap();
    let state = StateVectorBackend::execute(circuit).unwrap();
    assert_eq!(amplitudes(&state), basis(2, 1));
}

#[test]
fn test_toffoli() {
    // |110> -> |111>
    let mut circuit: QuantumCircuit<ExactComplex> = QuantumCircuit::new(3);
    circuit.add(Instruction::PauliX(0)).unwrap();
    circuit.add(Instruction::PauliX(1)).unwrap();
    circuit.add(Instruction::Toffoli { control_a: 0, control_b: 1, target: 2 }).unwrap();
    let state = StateVectorBackend::execute(circuit).unwrap();
    assert_eq!(amplitudes(&state), basis(3, 7));

    // |010>: only one control set, nothing happens
    let mut partial: QuantumCircuit<ExactComplex> = QuantumCircuit::new(3);
    partial.add(Instruction::PauliX(1)).unwrap();
    partial.add(Instruction::Toffoli { control_a: 0, control_b: 1, target: 2 }).unwrap();
    let state = StateVectorBackend::execute(partial).unwrap();
    assert_eq!(amplitudes(&state), basis(3, 2));
}

#[test]
fn test_fredkin() {
    // |110> -> |101>: control set, targets swap
    let mut circuit: QuantumCircuit<ExactComplex> = QuantumCircuit::new(3);
    circuit.add(Instruction::PauliX(0)).unwrap();
    circuit.add(Instruction::PauliX(1)).unwrap();
    circuit.add(Instruction::Fredkin { control: 0, target_a: 1, target_b: 2 }).unwrap();
    let state = StateVectorBackend::execute(circuit).unwrap();
    assert_eq!(amplitudes(&state), basis(3, 5));
}

#[test]
fn test_controlled_u_with_pauli_x_matches_cnot() {
    let mut cu: QuantumCircuit<ExactComplex> = QuantumCircuit::new(2);
    cu.add(Instruction::PauliX(0)).unwrap();
    cu.add(Instruction::ControlledU {
        gate: Box::new(Instruction::PauliX(0)),
        control: 0,
        target: 1,
    })
    .unwrap();
    let state = StateVectorBackend::execute(cu).unwrap();
    assert_eq!(amplitudes(&state), basis(2, 3));
}

#[test]
fn test_t_gate_phase() {
    // T multiplies the |1> amplitude by e^(i pi / 4)
    let mut circuit: QuantumCircuit<ExactComplex> = QuantumCircuit::new(1);
    circuit.add(Instruction::PauliX(0)).unwrap();
    circuit.add(Instruction::T(0)).unwrap();
    let state = StateVectorBackend::execute(circuit).unwrap();
    let t = ExactComplex::t_phase();
    assert_eq!(amplitudes(&state), vec![ExactComplex::zero(), t]);
}

#[test]
fn test_invalid_qubit_index_leaves_circuit_unchanged() {
    let mut circuit: QuantumCircuit<ExactComplex> = QuantumCircuit::new(2);
    circuit.add(Instruction::Hadamard(0)).unwrap();
    let before = circuit.instructions().len();
    let result = circuit.add(Instruction::PauliX(5));
    match result.unwrap_err() {
        Error::InvalidQubitIndex { qubit, gate_names } => {
            assert_eq!(qubit, 5);
            assert_eq!(gate_names.len(), 0);
        },
        other => panic!("unexpected error: {:?}", other),
    }
    assert_eq!(circuit.instructions().len(), before);
}

#[test]
fn test_invalid_custom_gate_reports_name() {
    let mut inner: QuantumCircuit<ExactComplex> = QuantumCircuit::new(1);
    inner.add(Instruction::PauliX(0)).unwrap();
    let mut outer = QuantumCircuit::new(2);
    let result = outer.add(Instruction::Custom {
        name: String::from("bad_gate"),
        circuit: inner,
        input_qubits: vec![7],
    });
    match result.unwrap_err() {
        Error::InvalidQubitIndex { qubit, gate_names } => {
            assert_eq!(qubit, 7);
            assert_eq!(gate_names, vec![String::from("bad_gate")]);
        },
        other => panic!("unexpected error: {:?}", other),
    }
    assert_eq!(outer.instructions().len(), 0);
}

#[test]
fn test_custom_gate_with_surplus_mapping_entries() {
    // a mapping may carry more entries than the nested circuit has
    // wires; the surplus entries are validated but never read
    let mut inner: QuantumCircuit<ExactComplex> = QuantumCircuit::new(1);
    inner.add(Instruction::PauliX(0)).unwrap();
    let mut outer = QuantumCircuit::new(2);
    outer.add(Instruction::Custom {
        name: String::from("wide_x"),
        circuit: inner,
        input_qubits: vec![1, 0],
    })
    .unwrap();
    let state = StateVectorBackend::execute(outer).unwrap();
    assert_eq!(amplitudes(&state), basis(2, 1));
}

#[test]
fn test_custom_gate_short_mapping_rejected() {
    // a nested wire without an outer qubit is rejected: the report
    // names the first unmapped wire and the enclosing gate
    let mut inner: QuantumCircuit<ExactComplex> = QuantumCircuit::new(2);
    inner.add(Instruction::ControlledNot { control: 0, target: 1 }).unwrap();
    let mut outer = QuantumCircuit::new(3);
    let result = outer.add(Instruction::Custom {
        name: String::from("narrow_gate"),
        circuit: inner,
        input_qubits: vec![0],
    });
    match result.unwrap_err() {
        Error::InvalidQubitIndex { qubit, gate_names } => {
            assert_eq!(qubit, 1);
            assert_eq!(gate_names, vec![String::from("narrow_gate")]);
        },
        other => panic!("unexpected error: {:?}", other),
    }
    assert_eq!(outer.instructions().len(), 0);
}

#[test]
fn test_nested_custom_gate_error_chain() {
    // an invalid mapping inside a nested composite gate reports both
    // enclosing names, outermost first
    let innermost: QuantumCircuit<ExactComplex> = {
        let mut c = QuantumCircuit::new(1);
        c.add(Instruction::PauliX(0)).unwrap();
        c
    };
    let mut middle = QuantumCircuit::new(1);
    middle.add(Instruction::Custom {
        name: String::from("inner_gate"),
        circuit: innermost,
        input_qubits: vec![0],
    })
    .unwrap();
    // forge an outer composite whose nested instruction list is valid
    // for the middle circuit but whose own mapping entry is out of
    // range for the outer circuit
    let mut outer = QuantumCircuit::new(2);
    let result = outer.add(Instruction::Custom {
        name: String::from("outer_gate"),
        circuit: middle,
        input_qubits: vec![9],
    });
    match result.unwrap_err() {
        Error::InvalidQubitIndex { qubit, gate_names } => {
            assert_eq!(qubit, 9);
            assert_eq!(gate_names, vec![String::from("outer_gate")]);
        },
        other => panic!("unexpected error: {:?}", other),
    }
}

#[test]
fn test_custom_gate_matches_inlined_instructions() {
    // a custom gate wrapping X on its only wire, mapped to outer qubit 1
    let mut inner: QuantumCircuit<ExactComplex> = QuantumCircuit::new(1);
    inner.add(Instruction::PauliX(0)).unwrap();
    let mut with_custom = QuantumCircuit::new(2);
    with_custom.add(Instruction::Custom {
        name: String::from("wrapped_x"),
        circuit: inner,
        input_qubits: vec![1],
    })
    .unwrap();
    let custom_state = StateVectorBackend::execute(with_custom).unwrap();

    let mut inlined: QuantumCircuit<ExactComplex> = QuantumCircuit::new(2);
    inlined.add(Instruction::PauliX(1)).unwrap();
    let inlined_state = StateVectorBackend::execute(inlined).unwrap();

    assert_eq!(custom_state, inlined_state);
    assert_eq!(amplitudes(&custom_state), basis(2, 1));
}

#[test]
fn test_nested_custom_gates() {
    // a custom gate wrapping a custom gate wrapping X
    let mut innermost: QuantumCircuit<ExactComplex> = QuantumCircuit::new(1);
    innermost.add(Instruction::PauliX(0)).unwrap();
    let mut middle = QuantumCircuit::new(1);
    middle.add(Instruction::Custom {
        name: String::from("inner_x"),
        circuit: innermost,
        input_qubits: vec![0],
    })
    .unwrap();
    let mut outer = QuantumCircuit::new(2);
    outer.add(Instruction::Custom {
        name: String::from("outer_x"),
        circuit: middle,
        input_qubits: vec![1],
    })
    .unwrap();
    let state = StateVectorBackend::execute(outer).unwrap();
    assert_eq!(amplitudes(&state), basis(2, 1));
}

#[test]
fn test_unsupported_controlled_u() {
    // a controlled gate whose inner gate is not single-qubit is refused
    // at execution time
    let mut circuit: QuantumCircuit<ExactComplex> = QuantumCircuit::new(2);
    circuit.add(Instruction::ControlledU {
        gate: Box::new(Instruction::SWAP(0, 1)),
        control: 0,
        target: 1,
    })
    .unwrap();
    let result = StateVectorBackend::execute(circuit);
    assert_eq!(result.unwrap_err(), Error::UnsupportedInstruction);
}

#[test]
fn test_simulator_backend_hadamard_only() {
    let mut circuit: QuantumCircuit<ExactComplex> = QuantumCircuit::new(1);
    circuit.add(Instruction::Hadamard(0)).unwrap();
    let mut same: QuantumCircuit<ExactComplex> = QuantumCircuit::new(1);
    same.add(Instruction::Hadamard(0)).unwrap();
    let a = SimulatorBackend::execute(circuit).unwrap();
    let b = StateVectorBackend::execute(same).unwrap();
    assert_eq!(a, b);

    let mut rejected: QuantumCircuit<ExactComplex> = QuantumCircuit::new(1);
    rejected.add(Instruction::PauliX(0)).unwrap();
    assert_eq!(SimulatorBackend::execute(rejected).unwrap_err(), Error::UnsupportedInstruction);
}

#[test]
fn test_hadamard_twice_restores_state_exactly() {
    // over the exact scalar field, H then H is exactly the identity
    let mut circuit: QuantumCircuit<ExactComplex> = QuantumCircuit::new(1);
    circuit.add(Instruction::Hadamard(0)).unwrap();
    circuit.add(Instruction::Hadamard(0)).unwrap();
    let state = StateVectorBackend::execute(circuit).unwrap();
    assert_eq!(amplitudes(&state), basis(1, 0));
}
