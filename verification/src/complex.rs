//! Complex scalar arithmetic.
//!
//! The matrix kernel, the gates and the execution backends are
//! generic over a scalar type.  The [`Scalar`] trait is the minimal
//! numeric capability such a type must provide: the field operations of
//! complex arithmetic, the handful of constants the gates need,
//! and the trigonometric/exponential maps used by the phase-parameterized
//! gates.  Every operation comes in an executable form and a
//! specification-level form, tied together by the executable form's
//! contract, and the algebraic laws that the matrix proofs rely on are
//! proof obligations of the trait.
//!
//! [`ExactComplex`] implements the trait with exact arithmetic: its real
//! and imaginary parts are residues modulo the Mersenne prime 2^61 - 1.
//! In that field 1/sqrt(2) exists exactly (it is 2^30, because
//! 2 * 2^60 == 2^61 == 1 modulo 2^61 - 1), so even the Hadamard gate is
//! represented without rounding.  The transcendental maps (cosine, sine,
//! complex exponential) have no exact counterpart; `ExactComplex` fixes
//! them at their zero-angle values, which no contract of this crate
//! constrains.

use vstd::arithmetic::div_mod::*;
use vstd::prelude::*;

verus! {

/// The scalar capability the rest of the crate is generic over.
///
/// `wf` delimits the values on which the algebraic laws are promised;
/// every executable operation of the trait returns a well-formed value
/// when applied to well-formed values (the `law_wf_*` obligations), and
/// the constants are well-formed.
pub trait Scalar: Sized + Copy {
    /// The values on which the laws below hold.
    spec fn wf(self) -> bool;

    /// The additive identity.
    spec fn spec_zero() -> Self;

    /// The multiplicative identity.
    spec fn spec_one() -> Self;

    /// The imaginary unit.
    spec fn spec_i() -> Self;

    /// The inverse of the square root of two, the Hadamard gate's
    /// normalization constant.
    spec fn spec_inv_sqrt2() -> Self;

    /// The T gate's phase factor, e^(i pi / 4).
    spec fn spec_t_phase() -> Self;

    spec fn spec_add(self, other: Self) -> Self;

    spec fn spec_mul(self, other: Self) -> Self;

    spec fn spec_neg(self) -> Self;

    /// The complex conjugate.
    spec fn spec_conj(self) -> Self;

    /// Half of a phase angle (rotation gates work with half-angles).
    spec fn spec_half(self) -> Self;

    /// The cosine of a phase angle.
    spec fn spec_cos(self) -> Self;

    /// The sine of a phase angle.
    spec fn spec_sin(self) -> Self;

    /// The complex exponential e^(i phi) of a phase angle phi.
    spec fn spec_phase_factor(self) -> Self;

    fn zero() -> (r: Self)
        ensures
            r == Self::spec_zero(),
    ;

    fn one() -> (r: Self)
        ensures
            r == Self::spec_one(),
    ;

    fn i() -> (r: Self)
        ensures
            r == Self::spec_i(),
    ;

    fn inv_sqrt2() -> (r: Self)
        ensures
            r == Self::spec_inv_sqrt2(),
    ;

    fn t_phase() -> (r: Self)
        ensures
            r == Self::spec_t_phase(),
    ;

    fn add(self, other: Self) -> (r: Self)
        ensures
            r == self.spec_add(other),
    ;

    fn sub(self, other: Self) -> (r: Self)
        ensures
            r == self.spec_add(other.spec_neg()),
    ;

    fn mul(self, other: Self) -> (r: Self)
        ensures
            r == self.spec_mul(other),
    ;

    fn neg(self) -> (r: Self)
        ensures
            r == self.spec_neg(),
    ;

    fn conj(self) -> (r: Self)
        ensures
            r == self.spec_conj(),
    ;

    fn half(self) -> (r: Self)
        ensures
            r == self.spec_half(),
    ;

    fn cos(self) -> (r: Self)
        ensures
            r == self.spec_cos(),
    ;

    fn sin(self) -> (r: Self)
        ensures
            r == self.spec_sin(),
    ;

    fn phase_factor(self) -> (r: Self)
        ensures
            r == self.spec_phase_factor(),
    ;

    proof fn law_wf_zero()
        ensures
            Self::spec_zero().wf(),
    ;

    proof fn law_wf_one()
        ensures
            Self::spec_one().wf(),
    ;

    proof fn law_wf_i()
        ensures
            Self::spec_i().wf(),
    ;

    proof fn law_wf_inv_sqrt2()
        ensures
            Self::spec_inv_sqrt2().wf(),
    ;

    proof fn law_wf_t_phase()
        ensures
            Self::spec_t_phase().wf(),
    ;

    proof fn law_wf_add(a: Self, b: Self)
        requires
            a.wf(),
            b.wf(),
        ensures
            a.spec_add(b).wf(),
    ;

    proof fn law_wf_mul(a: Self, b: Self)
        requires
            a.wf(),
            b.wf(),
        ensures
            a.spec_mul(b).wf(),
    ;

    proof fn law_wf_neg(a: Self)
        requires
            a.wf(),
        ensures
            a.spec_neg().wf(),
    ;

    proof fn law_wf_conj(a: Self)
        requires
            a.wf(),
        ensures
            a.spec_conj().wf(),
    ;

    proof fn law_wf_half(p: Self)
        requires
            p.wf(),
        ensures
            p.spec_half().wf(),
    ;

    proof fn law_wf_cos(p: Self)
        requires
            p.wf(),
        ensures
            p.spec_cos().wf(),
    ;

    proof fn law_wf_sin(p: Self)
        requires
            p.wf(),
        ensures
            p.spec_sin().wf(),
    ;

    proof fn law_wf_phase_factor(p: Self)
        requires
            p.wf(),
        ensures
            p.spec_phase_factor().wf(),
    ;

    proof fn law_add_comm(a: Self, b: Self)
        requires
            a.wf(),
            b.wf(),
        ensures
            a.spec_add(b) == b.spec_add(a),
    ;

    proof fn law_add_assoc(a: Self, b: Self, c: Self)
        requires
            a.wf(),
            b.wf(),
            c.wf(),
        ensures
            a.spec_add(b).spec_add(c) == a.spec_add(b.spec_add(c)),
    ;

    proof fn law_add_zero(a: Self)
        requires
            a.wf(),
        ensures
            a.spec_add(Self::spec_zero()) == a,
    ;

    proof fn law_add_neg(a: Self)
        requires
            a.wf(),
        ensures
            a.spec_add(a.spec_neg()) == Self::spec_zero(),
    ;

    proof fn law_mul_comm(a: Self, b: Self)
        requires
            a.wf(),
            b.wf(),
        ensures
            a.spec_mul(b) == b.spec_mul(a),
    ;

    proof fn law_mul_assoc(a: Self, b: Self, c: Self)
        requires
            a.wf(),
            b.wf(),
            c.wf(),
        ensures
            a.spec_mul(b).spec_mul(c) == a.spec_mul(b.spec_mul(c)),
    ;

    proof fn law_mul_one(a: Self)
        requires
            a.wf(),
        ensures
            a.spec_mul(Self::spec_one()) == a,
    ;

    proof fn law_mul_zero(a: Self)
        requires
            a.wf(),
        ensures
            a.spec_mul(Self::spec_zero()) == Self::spec_zero(),
    ;

    proof fn law_distrib(a: Self, b: Self, c: Self)
        requires
            a.wf(),
            b.wf(),
            c.wf(),
        ensures
            a.spec_mul(b.spec_add(c)) == a.spec_mul(b).spec_add(a.spec_mul(c)),
    ;

    proof fn law_i_squared()
        ensures
            Self::spec_i().spec_mul(Self::spec_i()) == Self::spec_one().spec_neg(),
    ;

    proof fn law_inv_sqrt2_squares()
        ensures
            Self::spec_inv_sqrt2().spec_mul(Self::spec_inv_sqrt2()).spec_add(
                Self::spec_inv_sqrt2().spec_mul(Self::spec_inv_sqrt2()),
            ) == Self::spec_one(),
    ;

    proof fn law_conj_involution(a: Self)
        requires
            a.wf(),
        ensures
            a.spec_conj().spec_conj() == a,
    ;
}

/// Zero annihilates on the left: `0 * x == 0`.
pub proof fn lemma_mul_zero_left<T: Scalar>(x: T)
    requires
        x.wf(),
    ensures
        T::spec_zero().spec_mul(x) == T::spec_zero(),
{
    T::law_wf_zero();
    T::law_mul_comm(T::spec_zero(), x);
    T::law_mul_zero(x);
}

/// One is neutral on the left: `1 * x == x`.
pub proof fn lemma_mul_one_left<T: Scalar>(x: T)
    requires
        x.wf(),
    ensures
        T::spec_one().spec_mul(x) == x,
{
    T::law_wf_one();
    T::law_mul_comm(T::spec_one(), x);
    T::law_mul_one(x);
}

/// Zero is neutral on the left: `0 + x == x`.
pub proof fn lemma_add_zero_left<T: Scalar>(x: T)
    requires
        x.wf(),
    ensures
        T::spec_zero().spec_add(x) == x,
{
    T::law_wf_zero();
    T::law_add_comm(T::spec_zero(), x);
    T::law_add_zero(x);
}

/// An additive inverse is unique: if `x + y == 0` then `y == -x`.
pub proof fn lemma_neg_unique<T: Scalar>(x: T, y: T)
    requires
        x.wf(),
        y.wf(),
        x.spec_add(y) == T::spec_zero(),
    ensures
        y == x.spec_neg(),
{
    T::law_wf_zero();
    T::law_wf_neg(x);
    // y == 0 + y == (-x + x) + y == -x + (x + y) == -x + 0 == -x
    T::law_add_zero(y);
    T::law_add_comm(y, T::spec_zero());
    T::law_add_neg(x);
    T::law_add_comm(x, x.spec_neg());
    T::law_add_assoc(x.spec_neg(), x, y);
    T::law_add_zero(x.spec_neg());
}

/// Negation is an involution: `-(-a) == a`.
pub proof fn lemma_neg_neg<T: Scalar>(a: T)
    requires
        a.wf(),
    ensures
        a.spec_neg().spec_neg() == a,
{
    T::law_wf_neg(a);
    T::law_add_neg(a);
    T::law_add_comm(a, a.spec_neg());
    lemma_neg_unique(a.spec_neg(), a);
}

/// A negated left factor negates the product: `(-a) * b == -(a * b)`.
pub proof fn lemma_neg_mul_left<T: Scalar>(a: T, b: T)
    requires
        a.wf(),
        b.wf(),
    ensures
        a.spec_neg().spec_mul(b) == a.spec_mul(b).spec_neg(),
{
    T::law_wf_neg(a);
    T::law_wf_mul(a, b);
    T::law_wf_mul(a.spec_neg(), b);
    T::law_wf_add(a, a.spec_neg());
    // a*b + (-a)*b == (a + -a)*b == 0*b == 0
    T::law_mul_comm(a.spec_add(a.spec_neg()), b);
    T::law_distrib(b, a, a.spec_neg());
    T::law_add_neg(a);
    T::law_wf_zero();
    T::law_mul_comm(T::spec_zero(), b);
    T::law_mul_zero(b);
    T::law_mul_comm(b, a);
    T::law_mul_comm(b, a.spec_neg());
    lemma_neg_unique(a.spec_mul(b), a.spec_neg().spec_mul(b));
}

/// A negated right factor negates the product: `a * (-b) == -(a * b)`.
pub proof fn lemma_neg_mul_right<T: Scalar>(a: T, b: T)
    requires
        a.wf(),
        b.wf(),
    ensures
        a.spec_mul(b.spec_neg()) == a.spec_mul(b).spec_neg(),
{
    T::law_wf_neg(b);
    T::law_mul_comm(a, b.spec_neg());
    lemma_neg_mul_left(b, a);
    T::law_mul_comm(b, a);
}

/// Adding a scalar and then subtracting it returns the other summand
/// unchanged: `(a + b) - b == a`.  Subtraction is addition of the
/// negation, so the claim reads over the specification-level operations
/// exactly as [`Scalar::sub`]'s contract does.
pub proof fn lemma_add_then_sub_cancels<T: Scalar>(a: T, b: T)
    requires
        a.wf(),
        b.wf(),
    ensures
        a.spec_add(b).spec_add(b.spec_neg()) == a,
{
    T::law_wf_neg(b);
    T::law_add_assoc(a, b, b.spec_neg());
    T::law_add_neg(b);
    T::law_add_zero(a);
}

/// Conjugating twice returns a scalar unchanged:
/// `conjugate(conjugate(z)) == z`.
pub proof fn lemma_conjugate_involution<T: Scalar>(z: T)
    requires
        z.wf(),
    ensures
        z.spec_conj().spec_conj() == z,
{
    T::law_conj_involution(z);
}

/// The Mersenne prime 2^61 - 1, the modulus of `ExactComplex`.
pub const MODULUS: u64 = 0x1FFFFFFFFFFFFFFF;

/// 2^30, which is 1/sqrt(2) modulo `MODULUS`: squaring it gives 2^60, and
/// 2 * 2^60 == 2^61 == 1 modulo 2^61 - 1.
pub const INV_SQRT2_RESIDUE: u64 = 0x40000000;

/// 2^60, which is 1/2 modulo `MODULUS`.
pub const HALF_RESIDUE: u64 = 0x1000000000000000;

/// A complex number with exact arithmetic: real and imaginary part are
/// residues modulo the Mersenne prime 2^61 - 1.  Those residues form a
/// field in which 1/sqrt(2) is representable exactly, so every constant
/// the fixed gate library needs is exact; only the phase-parameterized
/// trigonometric maps are fixed at their zero-angle values.
#[derive(Clone, Copy, Debug, PartialEq, Eq, Structural)]
pub struct ExactComplex {
    /// The real part, a residue modulo 2^61 - 1.
    pub re: u64,
    /// The imaginary part, a residue modulo 2^61 - 1.
    pub im: u64,
}

/// `(m - (x % m)) % m` is `(0 - x) % m` for nonnegative `x`.
proof fn lemma_neg_mod(x: int, m: int)
    requires
        m > 0,
        x >= 0,
    ensures
        ((m - (x % m)) % m) == (0 - x) % m,
{
    let r = x % m;
    let q = x / m;
    lemma_fundamental_div_mod(x, m);
    lemma_mod_bound(x, m);
    if r == 0 {
        assert(m * (0 - q) + 0 == 0 - x) by (nonlinear_arith)
            requires
                x == m * q + r,
                r == 0,
        ;
        lemma_mod_multiples_vanish(0 - q, 0, m);
        lemma_mod_self_0(m);
    } else {
        assert(m * (0 - q - 1) + (m - r) == 0 - x) by (nonlinear_arith)
            requires
                x == m * q + r,
        ;
        lemma_mod_multiples_vanish(0 - q - 1, m - r, m);
        lemma_small_mod((m - r) as nat, m as nat);
    }
}

/// Reducing the left summand first does not change a sum's residue.
proof fn lemma_mod_add_left(x: int, y: int, m: int)
    requires
        m > 0,
    ensures
        ((x % m) + y) % m == (x + y) % m,
{
    lemma_add_mod_noop(x, y, m);
    lemma_add_mod_noop(x % m, y, m);
    lemma_mod_twice(x, m);
}

/// Reducing both operands of a difference first does not change its residue.
proof fn lemma_mod_sub_both(x: int, y: int, m: int)
    requires
        m > 0,
    ensures
        ((x % m) - (y % m)) % m == (x - y) % m,
{
    lemma_sub_mod_noop(x, y, m);
}

/// Reducing the factors of the two products first does not change the
/// residue of `x1 * y1 - x2 * y2`.
proof fn lemma_mod_mul_sub(x1: int, y1: int, x2: int, y2: int, m: int)
    requires
        m > 0,
    ensures
        (((x1 % m) * y1) - ((x2 % m) * y2)) % m == (x1 * y1 - x2 * y2) % m,
{
    lemma_mul_mod_noop_left(x1, y1, m);
    lemma_mul_mod_noop_left(x2, y2, m);
    lemma_sub_mod_noop((x1 % m) * y1, (x2 % m) * y2, m);
    lemma_sub_mod_noop(x1 * y1, x2 * y2, m);
    lemma_mod_twice(x1 * y1, m);
    lemma_mod_twice(x2 * y2, m);
}

/// Reducing the factors of the two products first does not change the
/// residue of `x1 * y1 + x2 * y2`.
proof fn lemma_mod_mul_add(x1: int, y1: int, x2: int, y2: int, m: int)
    requires
        m > 0,
    ensures
        (((x1 % m) * y1) + ((x2 % m) * y2)) % m == (x1 * y1 + x2 * y2) % m,
{
    lemma_mul_mod_noop_left(x1, y1, m);
    lemma_mul_mod_noop_left(x2, y2, m);
    lemma_add_mod_noop((x1 % m) * y1, (x2 % m) * y2, m);
    lemma_add_mod_noop(x1 * y1, x2 * y2, m);
    lemma_mod_twice(x1 * y1, m);
    lemma_mod_twice(x2 * y2, m);
}

/// The real part of a triple complex product associates.
proof fn lemma_assoc_re(ar: int, ai: int, br: int, bi: int, cr: int, ci: int)
    ensures
        (br * cr - bi * ci) * ar - (br * ci + bi * cr) * ai == (ar * br - ai * bi) * cr - (ar * bi
            + ai * br) * ci,
{
    assert((br * cr - bi * ci) * ar == (br * cr) * ar - (bi * ci) * ar) by (nonlinear_arith);
    assert((br * ci + bi * cr) * ai == (br * ci) * ai + (bi * cr) * ai) by (nonlinear_arith);
    assert((ar * br - ai * bi) * cr == (ar * br) * cr - (ai * bi) * cr) by (nonlinear_arith);
    assert((ar * bi + ai * br) * ci == (ar * bi) * ci + (ai * br) * ci) by (nonlinear_arith);
    assert((br * cr) * ar == (ar * br) * cr) by (nonlinear_arith);
    assert((bi * ci) * ar == (ar * bi) * ci) by (nonlinear_arith);
    assert((br * ci) * ai == (ai * br) * ci) by (nonlinear_arith);
    assert((bi * cr) * ai == (ai * bi) * cr) by (nonlinear_arith);
}

/// The imaginary part of a triple complex product associates.
proof fn lemma_assoc_im(ar: int, ai: int, br: int, bi: int, cr: int, ci: int)
    ensures
        (br * ci + bi * cr) * ar + (br * cr - bi * ci) * ai == (ar * br - ai * bi) * ci + (ar * bi
            + ai * br) * cr,
{
    assert((br * ci + bi * cr) * ar == (br * ci) * ar + (bi * cr) * ar) by (nonlinear_arith);
    assert((br * cr - bi * ci) * ai == (br * cr) * ai - (bi * ci) * ai) by (nonlinear_arith);
    assert((ar * br - ai * bi) * ci == (ar * br) * ci - (ai * bi) * ci) by (nonlinear_arith);
    assert((ar * bi + ai * br) * cr == (ar * bi) * cr + (ai * br) * cr) by (nonlinear_arith);
    assert((br * ci) * ar == (ar * br) * ci) by (nonlinear_arith);
    assert((bi * cr) * ar == (ar * bi) * cr) by (nonlinear_arith);
    assert((br * cr) * ai == (ai * br) * cr) by (nonlinear_arith);
    assert((bi * ci) * ai == (ai * bi) * ci) by (nonlinear_arith);
}

impl ExactComplex {
    /// The value a pair of residues denotes; inputs are reduced.
    pub open spec fn spec_new(re: u64, im: u64) -> ExactComplex {
        ExactComplex { re: re % MODULUS, im: im % MODULUS }
    }

    /// Constructs the complex number `re + im * i` from two residues
    /// modulo 2^61 - 1; inputs at or beyond the modulus are reduced.
    pub fn new(re: u64, im: u64) -> (r: ExactComplex)
        ensures
            r == Self::spec_new(re, im),
            r.wf(),
    {
        ExactComplex { re: re % MODULUS, im: im % MODULUS }
    }

    /// Constructs the real number `re`, a complex number with no
    /// imaginary part.
    pub fn from_real(re: u64) -> (r: ExactComplex)
        ensures
            r == Self::spec_new(re, 0),
            r.wf(),
    {
        ExactComplex { re: re % MODULUS, im: 0 }
    }
}

impl Scalar for ExactComplex {
    // The residue arithmetic below is open so that callers can reason
    // about concrete values directly from the contracts.
    open spec fn wf(self) -> bool {
        self.re < MODULUS && self.im < MODULUS
    }

    open spec fn spec_zero() -> Self {
        ExactComplex { re: 0, im: 0 }
    }

    open spec fn spec_one() -> Self {
        ExactComplex { re: 1, im: 0 }
    }

    open spec fn spec_i() -> Self {
        ExactComplex { re: 0, im: 1 }
    }

    open spec fn spec_inv_sqrt2() -> Self {
        ExactComplex { re: INV_SQRT2_RESIDUE, im: 0 }
    }

    open spec fn spec_t_phase() -> Self {
        ExactComplex { re: INV_SQRT2_RESIDUE, im: INV_SQRT2_RESIDUE }
    }

    open spec fn spec_add(self, other: Self) -> Self {
        ExactComplex {
            re: (((self.re + other.re) % (MODULUS as int)) as u64),
            im: (((self.im + other.im) % (MODULUS as int)) as u64),
        }
    }

    open spec fn spec_mul(self, other: Self) -> Self {
        ExactComplex {
            re: (((self.re * other.re - self.im * other.im) % (MODULUS as int)) as u64),
            im: (((self.re * other.im + self.im * other.re) % (MODULUS as int)) as u64),
        }
    }

    open spec fn spec_neg(self) -> Self {
        ExactComplex {
            re: (((0 - self.re) % (MODULUS as int)) as u64),
            im: (((0 - self.im) % (MODULUS as int)) as u64),
        }
    }

    open spec fn spec_conj(self) -> Self {
        ExactComplex { re: self.re, im: (((0 - self.im) % (MODULUS as int)) as u64) }
    }

    open spec fn spec_half(self) -> Self {
        self.spec_mul(ExactComplex { re: HALF_RESIDUE, im: 0 })
    }

    open spec fn spec_cos(self) -> Self {
        Self::spec_one()
    }

    open spec fn spec_sin(self) -> Self {
        Self::spec_zero()
    }

    open spec fn spec_phase_factor(self) -> Self {
        Self::spec_one()
    }

    fn zero() -> (r: Self) {
        ExactComplex { re: 0, im: 0 }
    }

    fn one() -> (r: Self) {
        ExactComplex { re: 1, im: 0 }
    }

    fn i() -> (r: Self) {
        ExactComplex { re: 0, im: 1 }
    }

    fn inv_sqrt2() -> (r: Self) {
        ExactComplex { re: INV_SQRT2_RESIDUE, im: 0 }
    }

    fn t_phase() -> (r: Self) {
        ExactComplex { re: INV_SQRT2_RESIDUE, im: INV_SQRT2_RESIDUE }
    }

    fn add(self, other: Self) -> (r: Self) {
        let m = MODULUS as u128;
        let re = (((self.re as u128) + (other.re as u128)) % m) as u64;
        let im = (((self.im as u128) + (other.im as u128)) % m) as u64;
        ExactComplex { re, im }
    }

    fn sub(self, other: Self) -> (r: Self) {
        self.add(other.neg())
    }

    fn mul(self, other: Self) -> (r: Self) {
        let m = MODULUS as u128;
        let ar = self.re as u128;
        let ai = self.im as u128;
        let br = other.re as u128;
        let bi = other.im as u128;
        proof {
            assert(ar * br < 0x100000000000000000000000000000000 && ai * bi
                < 0x100000000000000000000000000000000 && ar * bi
                < 0x100000000000000000000000000000000 && ai * br
                < 0x100000000000000000000000000000000) by (nonlinear_arith)
                requires
                    ar < 0x10000000000000000,
                    ai < 0x10000000000000000,
                    br < 0x10000000000000000,
                    bi < 0x10000000000000000,
            ;
        }
        let p_rr = (ar * br) % m;
        let p_ii = (ai * bi) % m;
        let p_ri = (ar * bi) % m;
        let p_ir = (ai * br) % m;
        let re = ((p_rr + m - p_ii) % m) as u64;
        let im = ((p_ri + p_ir) % m) as u64;
        proof {
            let mi = MODULUS as int;
            lemma_mod_mul_sub(ar as int, br as int, ai as int, bi as int, mi);
            assert(((ar * br) % mi) * 1 == (ar * br) % mi) by (nonlinear_arith);
            lemma_mul_mod_noop_left(ar as int * br as int, 1, mi);
            // re: (p_rr + m - p_ii) % m == (p_rr - p_ii) % m
            lemma_mod_add_multiples_vanish((ar * br) % mi - (ai * bi) % mi, mi);
            lemma_mod_sub_both(ar as int * br as int, ai as int * bi as int, mi);
            lemma_mod_twice(ar as int * br as int, mi);
            lemma_mod_twice(ai as int * bi as int, mi);
            // im: (p_ri + p_ir) % m == (ar*bi + ai*br) % m
            lemma_add_mod_noop(ar as int * bi as int, ai as int * br as int, mi);
        }
        ExactComplex { re, im }
    }

    fn neg(self) -> (r: Self) {
        let m = MODULUS as u128;
        let rr = (self.re as u128) % m;
        let ri = (self.im as u128) % m;
        let re = ((m - rr) % m) as u64;
        let im = ((m - ri) % m) as u64;
        proof {
            lemma_neg_mod(self.re as int, MODULUS as int);
            lemma_neg_mod(self.im as int, MODULUS as int);
        }
        ExactComplex { re, im }
    }

    fn conj(self) -> (r: Self) {
        let m = MODULUS as u128;
        let ri = (self.im as u128) % m;
        let im = ((m - ri) % m) as u64;
        proof {
            lemma_neg_mod(self.im as int, MODULUS as int);
        }
        ExactComplex { re: self.re, im }
    }

    fn half(self) -> (r: Self) {
        self.mul(ExactComplex { re: HALF_RESIDUE, im: 0 })
    }

    fn cos(self) -> (r: Self) {
        ExactComplex { re: 1, im: 0 }
    }

    fn sin(self) -> (r: Self) {
        ExactComplex { re: 0, im: 0 }
    }

    fn phase_factor(self) -> (r: Self) {
        ExactComplex { re: 1, im: 0 }
    }

    proof fn law_wf_zero() {
    }

    proof fn law_wf_one() {
    }

    proof fn law_wf_i() {
    }

    proof fn law_wf_inv_sqrt2() {
    }

    proof fn law_wf_t_phase() {
    }

    proof fn law_wf_add(a: Self, b: Self) {
        lemma_mod_bound((a.re + b.re) as int, MODULUS as int);
        lemma_mod_bound((a.im + b.im) as int, MODULUS as int);
    }

    proof fn law_wf_mul(a: Self, b: Self) {
        lemma_mod_bound(a.re * b.re - a.im * b.im, MODULUS as int);
        lemma_mod_bound(a.re * b.im + a.im * b.re, MODULUS as int);
    }

    proof fn law_wf_neg(a: Self) {
        lemma_mod_bound(0 - a.re, MODULUS as int);
        lemma_mod_bound(0 - a.im, MODULUS as int);
    }

    proof fn law_wf_conj(a: Self) {
        lemma_mod_bound(0 - a.im, MODULUS as int);
    }

    proof fn law_wf_half(p: Self) {
        lemma_mod_bound(p.re * HALF_RESIDUE - p.im * 0, MODULUS as int);
        lemma_mod_bound(p.re * 0 + p.im * HALF_RESIDUE, MODULUS as int);
    }

    proof fn law_wf_cos(p: Self) {
    }

    proof fn law_wf_sin(p: Self) {
    }

    proof fn law_wf_phase_factor(p: Self) {
    }

    proof fn law_add_comm(a: Self, b: Self) {
    }

    proof fn law_add_assoc(a: Self, b: Self, c: Self) {
        let m = MODULUS as int;
        lemma_mod_add_left(a.re + b.re, c.re as int, m);
        lemma_mod_add_left(a.im + b.im, c.im as int, m);
        lemma_mod_add_left(b.re + c.re, a.re as int, m);
        lemma_mod_add_left(b.im + c.im, a.im as int, m);
    }

    proof fn law_add_zero(a: Self) {
        lemma_small_mod(a.re as nat, MODULUS as nat);
        lemma_small_mod(a.im as nat, MODULUS as nat);
    }

    proof fn law_add_neg(a: Self) {
        let m = MODULUS as int;
        lemma_mod_add_left(0 - a.re, a.re as int, m);
        lemma_mod_add_left(0 - a.im, a.im as int, m);
        lemma_small_mod(0, MODULUS as nat);
    }

    proof fn law_mul_comm(a: Self, b: Self) {
        assert(a.re * b.re - a.im * b.im == b.re * a.re - b.im * a.im) by (nonlinear_arith);
        assert(a.re * b.im + a.im * b.re == b.re * a.im + b.im * a.re) by (nonlinear_arith);
    }

    proof fn law_mul_assoc(a: Self, b: Self, c: Self) {
        let m = MODULUS as int;
        let ar = a.re as int;
        let ai = a.im as int;
        let br = b.re as int;
        let bi = b.im as int;
        let cr = c.re as int;
        let ci = c.im as int;
        // left association: reduce the components of a*b inside (a*b)*c
        lemma_mod_mul_sub(ar * br - ai * bi, cr, ar * bi + ai * br, ci, m);
        lemma_mod_mul_add(ar * br - ai * bi, ci, ar * bi + ai * br, cr, m);
        // right association: the components of b*c appear as right factors,
        // so commute them into left position first
        let s_r = br * cr - bi * ci;
        let s_i = br * ci + bi * cr;
        assert(ar * ((s_r % m) as int) == ((s_r % m) as int) * ar) by (nonlinear_arith);
        assert(ai * ((s_i % m) as int) == ((s_i % m) as int) * ai) by (nonlinear_arith);
        assert(ar * ((s_i % m) as int) == ((s_i % m) as int) * ar) by (nonlinear_arith);
        assert(ai * ((s_r % m) as int) == ((s_r % m) as int) * ai) by (nonlinear_arith);
        lemma_mod_mul_sub(s_r, ar, s_i, ai, m);
        lemma_mod_mul_add(s_i, ar, s_r, ai, m);
        lemma_assoc_re(ar, ai, br, bi, cr, ci);
        lemma_assoc_im(ar, ai, br, bi, cr, ci);
    }

    proof fn law_mul_one(a: Self) {
        lemma_small_mod(a.re as nat, MODULUS as nat);
        lemma_small_mod(a.im as nat, MODULUS as nat);
    }

    proof fn law_mul_zero(a: Self) {
        lemma_small_mod(0, MODULUS as nat);
    }

    proof fn law_distrib(a: Self, b: Self, c: Self) {
        let m = MODULUS as int;
        let ar = a.re as int;
        let ai = a.im as int;
        let br = b.re as int;
        let bi = b.im as int;
        let cr = c.re as int;
        let ci = c.im as int;
        // left side: reduce the components of b+c inside a*(b+c)
        let s_r = br + cr;
        let s_i = bi + ci;
        assert(ar * ((s_r % m) as int) == ((s_r % m) as int) * ar) by (nonlinear_arith);
        assert(ai * ((s_i % m) as int) == ((s_i % m) as int) * ai) by (nonlinear_arith);
        assert(ar * ((s_i % m) as int) == ((s_i % m) as int) * ar) by (nonlinear_arith);
        assert(ai * ((s_r % m) as int) == ((s_r % m) as int) * ai) by (nonlinear_arith);
        lemma_mod_mul_sub(s_r, ar, s_i, ai, m);
        lemma_mod_mul_add(s_i, ar, s_r, ai, m);
        assert(s_r * ar - s_i * ai == (ar * br - ai * bi) + (ar * cr - ai * ci))
            by (nonlinear_arith)
            requires
                s_r == br + cr,
                s_i == bi + ci,
        ;
        assert(s_i * ar + s_r * ai == (ar * bi + ai * br) + (ar * ci + ai * cr))
            by (nonlinear_arith)
            requires
                s_r == br + cr,
                s_i == bi + ci,
        ;
        // right side: the sum of the two reduced products
        lemma_add_mod_noop(ar * br - ai * bi, ar * cr - ai * ci, m);
        lemma_add_mod_noop(ar * bi + ai * br, ar * ci + ai * cr, m);
    }

    proof fn law_i_squared() {
    }

    proof fn law_inv_sqrt2_squares() {
        let m = MODULUS as int;
        let s = INV_SQRT2_RESIDUE as int;
        assert(s * s == 0x1000000000000000) by (nonlinear_arith)
            requires
                s == 0x40000000,
        ;
        lemma_small_mod(0x1000000000000000, MODULUS as nat);
        lemma_mod_add_multiples_vanish(1, m);
        lemma_small_mod(1, MODULUS as nat);
    }

    proof fn law_conj_involution(a: Self) {
        let m = MODULUS as int;
        lemma_neg_mod(a.im as int, m);
        lemma_small_mod(a.im as nat, MODULUS as nat);
        let y = (0 - a.im) % m;
        lemma_mod_bound(0 - a.im, m);
        lemma_neg_mod(y, m);
        lemma_mod_twice(0 - a.im, m);
        if a.im == 0 {
            lemma_small_mod(0, MODULUS as nat);
            lemma_mod_self_0(m);
        } else {
            // y == m - a.im, so m - y == a.im
            assert(y == (m - a.im) % m) by {
                lemma_mod_add_multiples_vanish(0 - a.im, m);
            }
            lemma_small_mod((m - a.im) as nat, MODULUS as nat);
            lemma_small_mod(((0 - y) % m) as nat, MODULUS as nat);
        }
    }
}

} // verus!
