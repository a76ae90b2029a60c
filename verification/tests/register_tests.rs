use quantum_crab::classical_register::ClassicalRegister;
use quantum_crab::complex::{ExactComplex, Scalar};
use quantum_crab::ket::{Bra, Ket};
use quantum_crab::matrix::Matrix;

#[test]
fn test_ket_from_classical_reg() {
    // the register denotes the value 2, so the ket is the basis state
    // with amplitude one at index 2
    let register = ClassicalRegister::from_value(4, 2);
    let ket = Ket::<ExactComplex>::from_register(&register);
    let z = ExactComplex::zero();
    let o = ExactComplex::one();
    let expected = Matrix::new(1, 4, vec![z, z, o, z]).unwrap();
    assert_eq!(*ket.matrix(), expected);
}

#[test]
fn test_bra_from_classical_reg() {
    let register = ClassicalRegister::from_value(4, 3);
    let bra = Bra::<ExactComplex>::from_register(&register);
    let z = ExactComplex::zero();
    let o = ExactComplex::one();
    let expected = Matrix::new(4, 1, vec![z, z, z, o]).unwrap();
    assert_eq!(*bra.matrix(), expected);
}

#[test]
fn test_register_value_roundtrip() {
    for v in 0..16u32 {
        let register = ClassicalRegister::from_value(4, v);
        assert_eq!(register.width(), 4);
        assert_eq!(register.value(), v);
    }
}

#[test]
fn test_register_bits_order() {
    // 6 in four bits, least significant first: 0, 1, 1, 0
    let register = ClassicalRegister::from_value(4, 6);
    let same = ClassicalRegister::new(vec![0, 1, 1, 0]);
    assert_eq!(register, same);
    assert_eq!(same.value(), 6);
}

#[test]
fn test_register_zeroed() {
    let register = ClassicalRegister::zeroed(5);
    assert_eq!(register.width(), 5);
    assert_eq!(register.value(), 0);
}

#[test]
fn test_register_from_bitstring() {
    let register = ClassicalRegister::from_bitstring(3, 0b101);
    assert_eq!(register.value(), 5);
}

#[test]
fn test_ket_bra_duality() {
    // a ket of [1 + i, 2] turns into a bra of conjugates and back
    let a = ExactComplex::new(1, 1);
    let b = ExactComplex::new(2, 0);
    let ket = Ket::from_matrix(Matrix::new(1, 2, vec![a, b]).unwrap());
    let bra = Bra::from_ket(&ket);
    assert_eq!(bra.matrix().get(0, 0).unwrap(), a.conj());
    assert_eq!(bra.matrix().get(1, 0).unwrap(), b.conj());
    let back = Ket::from_bra(&bra);
    assert_eq!(*back.matrix(), *ket.matrix());
}
