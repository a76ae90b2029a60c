//! Tests over double-precision complex amplitudes.  The scalar type
//! lives here, outside the verified library: the library is generic over
//! its scalar, and floating-point arithmetic satisfies the algebraic
//! laws only approximately, so assertions compare with a tolerance.

use quantum_crab::backend::Backend;
use quantum_crab::complex::Scalar;
use quantum_crab::gates;
use quantum_crab::matrix::Matrix;
use quantum_crab::quantum_circuit::{Instruction, QuantumCircuit};
use quantum_crab::statevector_backend::StateVectorBackend;

#[derive(Clone, Copy, Debug, PartialEq)]
struct Cf64 {
    re: f64,
    im: f64,
}

impl Cf64 {
    fn new(re: f64, im: f64) -> Cf64 {
        Cf64 { re, im }
    }

    fn norm_sq(self) -> f64 {
        self.re * self.re + self.im * self.im
    }
}

impl Scalar for Cf64 {
    fn zero() -> Cf64 {
        Cf64::new(0.0, 0.0)
    }

    fn one() -> Cf64 {
        Cf64::new(1.0, 0.0)
    }

    fn i() -> Cf64 {
        Cf64::new(0.0, 1.0)
    }

    fn inv_sqrt2() -> Cf64 {
        Cf64::new(1.0 / 2.0f64.sqrt(), 0.0)
    }

    fn t_phase() -> Cf64 {
        let phi = std::f64::consts::FRAC_PI_4;
        Cf64::new(phi.cos(), phi.sin())
    }

    fn add(self, other: Cf64) -> Cf64 {
        Cf64::new(self.re + other.re, self.im + other.im)
    }

    fn sub(self, other: Cf64) -> Cf64 {
        Cf64::new(self.re - other.re, self.im - other.im)
    }

    fn mul(self, other: Cf64) -> Cf64 {
        Cf64::new(
            self.re * other.re - self.im * other.im,
            self.re * other.im + self.im * other.re,
        )
    }

    fn neg(self) -> Cf64 {
        Cf64::new(-self.re, -self.im)
    }

    fn conj(self) -> Cf64 {
        Cf64::new(self.re, -self.im)
    }

    fn half(self) -> Cf64 {
        Cf64::new(self.re / 2.0, self.im / 2.0)
    }

    fn cos(self) -> Cf64 {
        Cf64::new(self.re.cos(), 0.0)
    }

    fn sin(self) -> Cf64 {
        Cf64::new(self.re.sin(), 0.0)
    }

    fn phase_factor(self) -> Cf64 {
        Cf64::new(self.re.cos(), self.re.sin())
    }

    // The specification-level and proof members of `Scalar` compile to
    // ordinary trait items.  Nothing calls them at run time, and
    // floating-point arithmetic satisfies the algebraic laws only up to
    // rounding, so the members below exist solely to satisfy the
    // compiler: the mathematical operations mirror the executable ones
    // and the law witnesses are empty.
    fn wf(self) -> bool {
        true
    }

    fn spec_zero() -> Cf64 {
        Cf64::new(0.0, 0.0)
    }

    fn spec_one() -> Cf64 {
        Cf64::new(1.0, 0.0)
    }

    fn spec_i() -> Cf64 {
        Cf64::new(0.0, 1.0)
    }

    fn spec_inv_sqrt2() -> Cf64 {
        Cf64::new(1.0 / 2.0f64.sqrt(), 0.0)
    }

    fn spec_t_phase() -> Cf64 {
        Cf64::t_phase()
    }

    fn spec_add(self, other: Cf64) -> Cf64 {
        self.add(other)
    }

    fn spec_mul(self, other: Cf64) -> Cf64 {
        self.mul(other)
    }

    fn spec_neg(self) -> Cf64 {
        self.neg()
    }

    fn spec_conj(self) -> Cf64 {
        self.conj()
    }

    fn spec_half(self) -> Cf64 {
        self.half()
    }

    fn spec_cos(self) -> Cf64 {
        self.cos()
    }

    fn spec_sin(self) -> Cf64 {
        self.sin()
    }

    fn spec_phase_factor(self) -> Cf64 {
        self.phase_factor()
    }

    fn law_wf_zero() {
    }

    fn law_wf_one() {
    }

    fn law_wf_i() {
    }

    fn law_wf_inv_sqrt2() {
    }

    fn law_wf_t_phase() {
    }

    fn law_wf_add(_a: Cf64, _b: Cf64) {
    }

    fn law_wf_mul(_a: Cf64, _b: Cf64) {
    }

    fn law_wf_neg(_a: Cf64) {
    }

    fn law_wf_conj(_a: Cf64) {
    }

    fn law_wf_half(_p: Cf64) {
    }

    fn law_wf_cos(_p: Cf64) {
    }

    fn law_wf_sin(_p: Cf64) {
    }

    fn law_wf_phase_factor(_p: Cf64) {
    }

    fn law_add_comm(_a: Cf64, _b: Cf64) {
    }

    fn law_add_assoc(_a: Cf64, _b: Cf64, _c: Cf64) {
    }

    fn law_add_zero(_a: Cf64) {
    }

    fn law_add_neg(_a: Cf64) {
    }

    fn law_mul_comm(_a: Cf64, _b: Cf64) {
    }

    fn law_mul_assoc(_a: Cf64, _b: Cf64, _c: Cf64) {
    }

    fn law_mul_one(_a: Cf64) {
    }

    fn law_mul_zero(_a: Cf64) {
    }

    fn law_distrib(_a: Cf64, _b: Cf64, _c: Cf64) {
    }

    fn law_i_squared() {
    }

    fn law_inv_sqrt2_squares() {
    }

    fn law_conj_involution(_a: Cf64) {
    }
}

fn close(a: Cf64, b: Cf64) -> bool {
    (a.re - b.re).abs() < 1e-9 && (a.im - b.im).abs() < 1e-9
}

fn amplitudes(m: &Matrix<Cf64>) -> Vec<Cf64> {
    let mut v = Vec::new();
    for i in 0..m.rows() {
        v.push(m.get(i, 0).unwrap());
    }
    v
}

#[test]
fn test_float_add_sub_roundtrip() {
    let a = Cf64::new(0.75, -1.5);
    let b = Cf64::new(2.25, 0.5);
    assert!(close(a.add(b).sub(b), a));
    assert!(close(a.conj().conj(), a));
}

#[test]
fn test_float_hadamard_superposition() {
    // one qubit, Hadamard: both amplitudes are 1/sqrt(2), real
    let mut circuit: QuantumCircuit<Cf64> = QuantumCircuit::new(1);
    circuit.add(Instruction::Hadamard(0)).unwrap();
    let state = StateVectorBackend::execute(circuit).unwrap();
    let amps = amplitudes(&state);
    let s = 1.0 / 2.0f64.sqrt();
    assert!(close(amps[0], Cf64::new(s, 0.0)));
    assert!(close(amps[1], Cf64::new(s, 0.0)));
}

#[test]
fn test_float_two_hadamards_quarter_amplitudes() {
    // two qubits, Hadamard on each: all four amplitudes are 0.5
    let mut circuit: QuantumCircuit<Cf64> = QuantumCircuit::new(2);
    circuit.add(Instruction::Hadamard(0)).unwrap();
    circuit.add(Instruction::Hadamard(1)).unwrap();
    let state = StateVectorBackend::execute(circuit).unwrap();
    let amps = amplitudes(&state);
    assert_eq!(amps.len(), 4);
    for a in amps {
        assert!(close(a, Cf64::new(0.5, 0.0)));
    }
}

#[test]
fn test_float_probability_conservation() {
    // after every instruction of a unitary sequence the squared norms
    // sum to one
    let steps: Vec<Instruction<Cf64>> = vec![
        Instruction::Hadamard(0),
        Instruction::RotationX { qubit: 1, phase: Cf64::new(1.234, 0.0) },
        Instruction::ControlledNot { control: 0, target: 1 },
        Instruction::Phase { qubit: 1, phase: Cf64::new(0.61, 0.0) },
        Instruction::RotationY { qubit: 0, phase: Cf64::new(-0.37, 0.0) },
        Instruction::RotationZ { qubit: 1, phase: Cf64::new(2.5, 0.0) },
        Instruction::T(0),
        Instruction::SWAP(0, 1),
    ];
    for prefix_len in 0..=steps.len() {
        let mut circuit: QuantumCircuit<Cf64> = QuantumCircuit::new(2);
        for step in steps.iter().take(prefix_len) {
            circuit.add(clone_instruction(step)).unwrap();
        }
        let state = StateVectorBackend::execute(circuit).unwrap();
        let total: f64 = amplitudes(&state).iter().map(|a| a.norm_sq()).sum();
        assert!((total - 1.0).abs() < 1e-9, "prefix {}: total {}", prefix_len, total);
    }
}

fn clone_instruction(i: &Instruction<Cf64>) -> Instruction<Cf64> {
    match i {
        Instruction::Hadamard(q) => Instruction::Hadamard(*q),
        Instruction::T(q) => Instruction::T(*q),
        Instruction::SWAP(a, b) => Instruction::SWAP(*a, *b),
        Instruction::Phase { qubit, phase } => {
            Instruction::Phase { qubit: *qubit, phase: *phase }
        },
        Instruction::RotationX { qubit, phase } => {
            Instruction::RotationX { qubit: *qubit, phase: *phase }
        },
        Instruction::RotationY { qubit, phase } => {
            Instruction::RotationY { qubit: *qubit, phase: *phase }
        },
        Instruction::RotationZ { qubit, phase } => {
            Instruction::RotationZ { qubit: *qubit, phase: *phase }
        },
        Instruction::ControlledNot { control, target } => {
            Instruction::ControlledNot { control: *control, target: *target }
        },
        _ => panic!("not used in these tests"),
    }
}

#[test]
fn test_float_gate_involutions() {
    // H*H, X*X, Y*Y, Z*Z are the identity, within floating tolerance
    let id: Matrix<Cf64> = Matrix::identity(2);
    let pairs = [
        gates::hadamard::<Cf64>(),
        gates::pauli_x::<Cf64>(),
        gates::pauli_y::<Cf64>(),
        gates::pauli_z::<Cf64>(),
    ];
    for g in pairs.iter() {
        let product = g.dot_product(g).unwrap();
        for i in 0..2 {
            for j in 0..2 {
                assert!(close(product.get(i, j).unwrap(), id.get(i, j).unwrap()));
            }
        }
    }
}

#[test]
fn test_float_rotation_x_half_turn() {
    // RX(pi) sends |0> to -i |1>
    let mut circuit: QuantumCircuit<Cf64> = QuantumCircuit::new(1);
    circuit.add(Instruction::RotationX {
        qubit: 0,
        phase: Cf64::new(std::f64::consts::PI, 0.0),
    })
    .unwrap();
    let state = StateVectorBackend::execute(circuit).unwrap();
    let amps = amplitudes(&state);
    assert!(close(amps[0], Cf64::new(0.0, 0.0)));
    assert!(close(amps[1], Cf64::new(0.0, -1.0)));
}

#[test]
fn test_float_phase_gate() {
    // X then P(phi) leaves the |1> amplitude at e^(i phi)
    let phi = 0.87;
    let mut circuit: QuantumCircuit<Cf64> = QuantumCircuit::new(1);
    circuit.add(Instruction::PauliX(0)).unwrap();
    circuit.add(Instruction::Phase { qubit: 0, phase: Cf64::new(phi, 0.0) }).unwrap();
    let state = StateVectorBackend::execute(circuit).unwrap();
    let amps = amplitudes(&state);
    assert!(close(amps[0], Cf64::new(0.0, 0.0)));
    assert!(close(amps[1], Cf64::new(phi.cos(), phi.sin())));
}

#[test]
fn test_float_polar_phase_factor() {
    // e^(i pi/4) has equal real and imaginary parts 1/sqrt(2)
    let b = Cf64::new(std::f64::consts::FRAC_PI_4, 0.0).phase_factor();
    let s = 1.0 / 2.0f64.sqrt();
    assert!(close(b, Cf64::new(s, s)));
}
