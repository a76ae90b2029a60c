use quantum_crab::complex::{ExactComplex, Scalar, MODULUS};

#[test]
fn complex_number_test() {
    assert_eq!(
        ExactComplex::new(1, 2),
        ExactComplex::new(1, 0).add(ExactComplex::new(0, 2))
    );
    assert_eq!(
        ExactComplex::new(1, 0),
        ExactComplex::new(1, 2).sub(ExactComplex::new(0, 2))
    );
    // (1 + 3i) * (2 - 4i) == 14 + 2i
    let two_minus_four_i = ExactComplex::new(2, 0).sub(ExactComplex::new(0, 4));
    assert_eq!(ExactComplex::new(14, 2), ExactComplex::new(1, 3).mul(two_minus_four_i));

    let mut a = ExactComplex::new(4, 1);
    a = a.add(ExactComplex::new(0, 3));
    a = a.sub(ExactComplex::new(4, 1));
    assert_eq!(ExactComplex::new(0, 3), a);
}

#[test]
fn test_exact_complex_add_sub() {
    let a = ExactComplex::new(4, 1);
    let b = ExactComplex::new(0, 3);
    let sum = a.add(b);
    assert_eq!(sum, ExactComplex::new(4, 4));
    // (a + b) - b == a
    assert_eq!(sum.sub(b), a);
}

#[test]
fn test_exact_complex_mul() {
    // (1 + 3i) * (2 + 4i) == -10 + 10i
    let a = ExactComplex::new(1, 3);
    let b = ExactComplex::new(2, 4);
    let product = a.mul(b);
    let minus_ten = ExactComplex::new(10, 0).neg();
    let ten_i = ExactComplex::new(0, 10);
    assert_eq!(product, minus_ten.add(ten_i));
}

#[test]
fn test_exact_complex_conjugate() {
    let z = ExactComplex::new(1, 2);
    assert_eq!(z.conj(), ExactComplex::new(1, 0).sub(ExactComplex::new(0, 2)));
    // conjugate(conjugate(z)) == z
    assert_eq!(z.conj().conj(), z);
}

#[test]
fn test_exact_complex_i_squared() {
    let i = ExactComplex::i();
    assert_eq!(i.mul(i), ExactComplex::one().neg());
}

#[test]
fn test_exact_complex_inv_sqrt2() {
    // the square of 1/sqrt(2), doubled, is one
    let s = ExactComplex::inv_sqrt2();
    let half = s.mul(s);
    assert_eq!(half.add(half), ExactComplex::one());
}

#[test]
fn test_exact_complex_t_phase() {
    // the T phase factor squared is i: e^(i pi/4) * e^(i pi/4) == e^(i pi/2)
    let t = ExactComplex::t_phase();
    assert_eq!(t.mul(t), ExactComplex::i());
}

#[test]
fn test_exact_complex_reduction() {
    // constructors reduce their arguments modulo 2^61 - 1
    assert_eq!(ExactComplex::new(MODULUS, MODULUS + 3), ExactComplex::new(0, 3));
    assert_eq!(ExactComplex::from_real(MODULUS + 7), ExactComplex::from_real(7));
}

#[test]
fn test_exact_complex_add_neg() {
    let z = ExactComplex::new(11, 13);
    assert_eq!(z.add(z.neg()), ExactComplex::zero());
}
