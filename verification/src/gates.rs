//! The fixed gate library: constructors for the small unitary matrices a
//! quantum circuit's instructions denote, each pinned entry by entry to a
//! specification-level matrix, together with the involution laws of the
//! Hadamard and Pauli gates.
//!
//! Multi-qubit gates are stated in their own local qubit order, the
//! first operand qubit most significant.

use crate::complex::{
    lemma_mul_one_left,
    lemma_mul_zero_left,
    lemma_add_zero_left,
    lemma_neg_mul_left,
    lemma_neg_mul_right,
    lemma_neg_neg,
    Scalar,
};
use crate::matrix::{
    dot_entry,
    mat_column,
    mat_shape,
    spec_dot,
    spec_identity,
    Matrix,
};
use vstd::prelude::*;

verus! {

broadcast use crate::matrix::Matrix::lemma_view_shape;

/// The Pauli-X (bit flip) matrix.
pub open spec fn spec_pauli_x<T: Scalar>() -> Seq<Seq<T>> {
    seq![
        seq![T::spec_zero(), T::spec_one()],
        seq![T::spec_one(), T::spec_zero()],
    ]
}

/// The Pauli-Y matrix.
pub open spec fn spec_pauli_y<T: Scalar>() -> Seq<Seq<T>> {
    seq![
        seq![T::spec_zero(), T::spec_i().spec_neg()],
        seq![T::spec_i(), T::spec_zero()],
    ]
}

/// The Pauli-Z (phase flip) matrix.
pub open spec fn spec_pauli_z<T: Scalar>() -> Seq<Seq<T>> {
    seq![
        seq![T::spec_one(), T::spec_zero()],
        seq![T::spec_zero(), T::spec_one().spec_neg()],
    ]
}

/// The Hadamard matrix: `[[1, 1], [1, -1]]` scaled by `1/sqrt(2)`.
pub open spec fn spec_hadamard<T: Scalar>() -> Seq<Seq<T>> {
    seq![
        seq![T::spec_inv_sqrt2(), T::spec_inv_sqrt2()],
        seq![T::spec_inv_sqrt2(), T::spec_inv_sqrt2().spec_neg()],
    ]
}

/// The phase-shift matrix `diag(1, e^(i phase))`.
pub open spec fn spec_phase_shift<T: Scalar>(phase: T) -> Seq<Seq<T>> {
    seq![
        seq![T::spec_one(), T::spec_zero()],
        seq![T::spec_zero(), phase.spec_phase_factor()],
    ]
}

/// The T matrix `diag(1, e^(i pi / 4))`, the phase shift by an eighth
/// turn.
pub open spec fn spec_t<T: Scalar>() -> Seq<Seq<T>> {
    seq![
        seq![T::spec_one(), T::spec_zero()],
        seq![T::spec_zero(), T::spec_t_phase()],
    ]
}

/// The X-rotation matrix by `phase`: cosine of the half angle on the
/// diagonal, `-i` times the sine of the half angle off it.
pub open spec fn spec_rotation_x<T: Scalar>(phase: T) -> Seq<Seq<T>> {
    seq![
        seq![
            phase.spec_half().spec_cos(),
            T::spec_i().spec_neg().spec_mul(phase.spec_half().spec_sin()),
        ],
        seq![
            T::spec_i().spec_neg().spec_mul(phase.spec_half().spec_sin()),
            phase.spec_half().spec_cos(),
        ],
    ]
}

/// The Y-rotation matrix by `phase`: cosine of the half angle on the
/// diagonal, real antisymmetric sines of the half angle off it.
pub open spec fn spec_rotation_y<T: Scalar>(phase: T) -> Seq<Seq<T>> {
    seq![
        seq![phase.spec_half().spec_cos(), phase.spec_half().spec_sin().spec_neg()],
        seq![phase.spec_half().spec_sin(), phase.spec_half().spec_cos()],
    ]
}

/// The Z-rotation matrix by `phase`: `diag(e^(-i phase/2), e^(i phase/2))`.
pub open spec fn spec_rotation_z<T: Scalar>(phase: T) -> Seq<Seq<T>> {
    seq![
        seq![phase.spec_half().spec_neg().spec_phase_factor(), T::spec_zero()],
        seq![T::spec_zero(), phase.spec_half().spec_phase_factor()],
    ]
}

/// The SWAP matrix: the permutation exchanging the middle two basis
/// states `|01>` and `|10>`.
pub open spec fn spec_swap<T: Scalar>() -> Seq<Seq<T>> {
    seq![
        seq![T::spec_one(), T::spec_zero(), T::spec_zero(), T::spec_zero()],
        seq![T::spec_zero(), T::spec_zero(), T::spec_one(), T::spec_zero()],
        seq![T::spec_zero(), T::spec_one(), T::spec_zero(), T::spec_zero()],
        seq![T::spec_zero(), T::spec_zero(), T::spec_zero(), T::spec_one()],
    ]
}

/// The controlled-U matrix for a 2 by 2 gate `u`: the identity on the
/// block where the control qubit is `|0>`, `u` on the block where it is
/// `|1>`.
pub open spec fn spec_controlled<T: Scalar>(u: Seq<Seq<T>>) -> Seq<Seq<T>> {
    seq![
        seq![T::spec_one(), T::spec_zero(), T::spec_zero(), T::spec_zero()],
        seq![T::spec_zero(), T::spec_one(), T::spec_zero(), T::spec_zero()],
        seq![T::spec_zero(), T::spec_zero(), u[0][0], u[0][1]],
        seq![T::spec_zero(), T::spec_zero(), u[1][0], u[1][1]],
    ]
}

/// The Toffoli matrix: the identity on eight basis states except that
/// `|110>` and `|111>` are exchanged (the target flips when both
/// controls are `|1>`).
pub open spec fn spec_toffoli<T: Scalar>() -> Seq<Seq<T>> {
    Seq::new(
        8,
        |i: int|
            Seq::new(
                8,
                |j: int|
                    if (i == j && j != 6 && j != 7) || (i == 6 && j == 7) || (i == 7 && j == 6) {
                        T::spec_one()
                    } else {
                        T::spec_zero()
                    },
            ),
    )
}

/// The Fredkin matrix: the identity on eight basis states except that
/// `|101>` and `|110>` are exchanged (the two targets swap when the
/// control is `|1>`).
pub open spec fn spec_fredkin<T: Scalar>() -> Seq<Seq<T>> {
    Seq::new(
        8,
        |i: int|
            Seq::new(
                8,
                |j: int|
                    if (i == j && j != 5 && j != 6) || (i == 5 && j == 6) || (i == 6 && j == 5) {
                        T::spec_one()
                    } else {
                        T::spec_zero()
                    },
            ),
    )
}

/// The 2 by 2 identity gate.
pub fn identity2<T: Scalar>() -> (r: Matrix<T>)
    ensures
        r.wf(),
        r.spec_rows() == 2,
        r.spec_cols() == 2,
        r@ == spec_identity::<T>(2),
{
    Matrix::identity(2)
}

/// The `n` by `n` identity matrix.
pub fn identity<T: Scalar>(n: usize) -> (r: Matrix<T>)
    requires
        n * n <= usize::MAX,
    ensures
        r.wf(),
        r.spec_rows() == n,
        r.spec_cols() == n,
        r@ == spec_identity::<T>(n as nat),
{
    Matrix::identity(n)
}

/// The Hadamard gate.
pub fn hadamard<T: Scalar>() -> (r: Matrix<T>)
    ensures
        r.wf(),
        r.spec_rows() == 2,
        r.spec_cols() == 2,
        r@ == spec_hadamard::<T>(),
{
    proof {
        T::law_wf_inv_sqrt2();
        T::law_wf_neg(T::spec_inv_sqrt2());
    }
    let s = T::inv_sqrt2();
    let mut m = Matrix::new_with_default_elems(2, 2);
    let _ = m.set(0, 0, s);
    let _ = m.set(0, 1, s);
    let _ = m.set(1, 0, s);
    let _ = m.set(1, 1, s.neg());
    proof {
        assert(m@ =~~= spec_hadamard::<T>());
    }
    m
}

/// The phase-shift gate `diag(1, e^(i phase))`.
pub fn phase_shift<T: Scalar>(phase: T) -> (r: Matrix<T>)
    requires
        phase.wf(),
    ensures
        r.wf(),
        r.spec_rows() == 2,
        r.spec_cols() == 2,
        r@ == spec_phase_shift::<T>(phase),
{
    proof {
        T::law_wf_one();
        T::law_wf_phase_factor(phase);
    }
    let mut m = Matrix::new_with_default_elems(2, 2);
    let _ = m.set(0, 0, T::one());
    let _ = m.set(1, 1, phase.phase_factor());
    proof {
        assert(m@ =~~= spec_phase_shift::<T>(phase));
    }
    m
}

/// The T gate, the phase shift by an eighth turn.
pub fn t<T: Scalar>() -> (r: Matrix<T>)
    ensures
        r.wf(),
        r.spec_rows() == 2,
        r.spec_cols() == 2,
        r@ == spec_t::<T>(),
{
    proof {
        T::law_wf_one();
        T::law_wf_t_phase();
    }
    let mut m = Matrix::new_with_default_elems(2, 2);
    let _ = m.set(0, 0, T::one());
    let _ = m.set(1, 1, T::t_phase());
    proof {
        assert(m@ =~~= spec_t::<T>());
    }
    m
}

/// The Pauli-X gate.
pub fn pauli_x<T: Scalar>() -> (r: Matrix<T>)
    ensures
        r.wf(),
        r.spec_rows() == 2,
        r.spec_cols() == 2,
        r@ == spec_pauli_x::<T>(),
{
    proof {
        T::law_wf_one();
    }
    let mut m = Matrix::new_with_default_elems(2, 2);
    let _ = m.set(0, 1, T::one());
    let _ = m.set(1, 0, T::one());
    proof {
        assert(m@ =~~= spec_pauli_x::<T>());
    }
    m
}

/// The Pauli-Y gate.
pub fn pauli_y<T: Scalar>() -> (r: Matrix<T>)
    ensures
        r.wf(),
        r.spec_rows() == 2,
        r.spec_cols() == 2,
        r@ == spec_pauli_y::<T>(),
{
    proof {
        T::law_wf_i();
        T::law_wf_neg(T::spec_i());
    }
    let mut m = Matrix::new_with_default_elems(2, 2);
    let _ = m.set(0, 1, T::i().neg());
    let _ = m.set(1, 0, T::i());
    proof {
        assert(m@ =~~= spec_pauli_y::<T>());
    }
    m
}

/// The Pauli-Z gate.
pub fn pauli_z<T: Scalar>() -> (r: Matrix<T>)
    ensures
        r.wf(),
        r.spec_rows() == 2,
        r.spec_cols() == 2,
        r@ == spec_pauli_z::<T>(),
{
    proof {
        T::law_wf_one();
        T::law_wf_neg(T::spec_one());
    }
    let mut m = Matrix::new_with_default_elems(2, 2);
    let _ = m.set(0, 0, T::one());
    let _ = m.set(1, 1, T::one().neg());
    proof {
        assert(m@ =~~= spec_pauli_z::<T>());
    }
    m
}

/// The X-rotation gate by `phase`.
pub fn rotation_x<T: Scalar>(phase: T) -> (r: Matrix<T>)
    requires
        phase.wf(),
    ensures
        r.wf(),
        r.spec_rows() == 2,
        r.spec_cols() == 2,
        r@ == spec_rotation_x::<T>(phase),
{
    proof {
        T::law_wf_half(phase);
        T::law_wf_cos(phase.spec_half());
        T::law_wf_sin(phase.spec_half());
        T::law_wf_i();
        T::law_wf_neg(T::spec_i());
        T::law_wf_mul(T::spec_i().spec_neg(), phase.spec_half().spec_sin());
    }
    let h = phase.half();
    let c = h.cos();
    let ms = T::i().neg().mul(h.sin());
    let mut m = Matrix::new_with_default_elems(2, 2);
    let _ = m.set(0, 0, c);
    let _ = m.set(0, 1, ms);
    let _ = m.set(1, 0, ms);
    let _ = m.set(1, 1, c);
    proof {
        assert(m@ =~~= spec_rotation_x::<T>(phase));
    }
    m
}

/// The Y-rotation gate by `phase`.
pub fn rotation_y<T: Scalar>(phase: T) -> (r: Matrix<T>)
    requires
        phase.wf(),
    ensures
        r.wf(),
        r.spec_rows() == 2,
        r.spec_cols() == 2,
        r@ == spec_rotation_y::<T>(phase),
{
    proof {
        T::law_wf_half(phase);
        T::law_wf_cos(phase.spec_half());
        T::law_wf_sin(phase.spec_half());
        T::law_wf_neg(phase.spec_half().spec_sin());
    }
    let h = phase.half();
    let c = h.cos();
    let s = h.sin();
    let mut m = Matrix::new_with_default_elems(2, 2);
    let _ = m.set(0, 0, c);
    let _ = m.set(0, 1, s.neg());
    let _ = m.set(1, 0, s);
    let _ = m.set(1, 1, c);
    proof {
        assert(m@ =~~= spec_rotation_y::<T>(phase));
    }
    m
}

/// The Z-rotation gate by `phase`.
pub fn rotation_z<T: Scalar>(phase: T) -> (r: Matrix<T>)
    requires
        phase.wf(),
    ensures
        r.wf(),
        r.spec_rows() == 2,
        r.spec_cols() == 2,
        r@ == spec_rotation_z::<T>(phase),
{
    proof {
        T::law_wf_half(phase);
        T::law_wf_neg(phase.spec_half());
        T::law_wf_phase_factor(phase.spec_half().spec_neg());
        T::law_wf_phase_factor(phase.spec_half());
    }
    let h = phase.half();
    let mut m = Matrix::new_with_default_elems(2, 2);
    let _ = m.set(0, 0, h.neg().phase_factor());
    let _ = m.set(1, 1, h.phase_factor());
    proof {
        assert(m@ =~~= spec_rotation_z::<T>(phase));
    }
    m
}

/// The SWAP gate.
pub fn swap<T: Scalar>() -> (r: Matrix<T>)
    ensures
        r.wf(),
        r.spec_rows() == 4,
        r.spec_cols() == 4,
        r@ == spec_swap::<T>(),
{
    let x = pauli_x::<T>();
    let mut m = Matrix::identity(4);
    m.embed(&x, 1, 1);
    proof {
        assert(m@ =~~= spec_swap::<T>());
    }
    m
}

/// The controlled-U gate for a single-qubit gate `u`: applies `u` to the
/// target qubit where the control qubit is `|1>`.  `u` must be exactly
/// 2 by 2.
pub fn controlled_u<T: Scalar>(u: &Matrix<T>) -> (r: Matrix<T>)
    requires
        u.wf(),
        u.spec_rows() == 2,
        u.spec_cols() == 2,
    ensures
        r.wf(),
        r.spec_rows() == 4,
        r.spec_cols() == 4,
        r@ == spec_controlled::<T>(u@),
{
    let mut m = Matrix::identity(4);
    m.embed(u, 2, 2);
    proof {
        assert(m@ =~~= spec_controlled::<T>(u@));
    }
    m
}

/// The Toffoli gate: flips the third qubit where the first two are
/// `|1>`.
pub fn toffoli<T: Scalar>() -> (r: Matrix<T>)
    ensures
        r.wf(),
        r.spec_rows() == 8,
        r.spec_cols() == 8,
        r@ == spec_toffoli::<T>(),
{
    let x = pauli_x::<T>();
    let mut m = Matrix::identity(8);
    m.embed(&x, 6, 6);
    proof {
        assert(m@ =~~= spec_toffoli::<T>());
    }
    m
}

/// The Fredkin gate: swaps the last two qubits where the first is `|1>`.
pub fn fredkin<T: Scalar>() -> (r: Matrix<T>)
    ensures
        r.wf(),
        r.spec_rows() == 8,
        r.spec_cols() == 8,
        r@ == spec_fredkin::<T>(),
{
    let x = pauli_x::<T>();
    let mut m = Matrix::identity(8);
    m.embed(&x, 5, 5);
    proof {
        assert(m@ =~~= spec_fredkin::<T>());
    }
    m
}

/// The product of two 2 by 2 matrices, entry by entry.
proof fn lemma_dot_2x2<T: Scalar>(x: Seq<Seq<T>>, y: Seq<Seq<T>>)
    requires
        mat_shape(x, 2, 2),
        mat_shape(y, 2, 2),
    ensures
        forall|i: int, j: int|
            0 <= i < 2 && 0 <= j < 2 ==> spec_dot(x, y, 2)[i][j] == T::spec_zero().spec_add(
                x[i][0].spec_mul(y[0][j]),
            ).spec_add(x[i][1].spec_mul(y[1][j])),
{
    assert forall|i: int, j: int| 0 <= i < 2 && 0 <= j < 2 implies spec_dot(x, y, 2)[i][j]
        == T::spec_zero().spec_add(x[i][0].spec_mul(y[0][j])).spec_add(
        x[i][1].spec_mul(y[1][j]),
    ) by {
        reveal_with_fuel(dot_entry, 3);
        let c = mat_column(y, j);
        assert(c.len() == 2);
        assert(x[i].len() == 2);
        assert(c =~= seq![y[0][j], y[1][j]]);
        assert(x[i].drop_last() =~= seq![x[i][0]]);
        assert(c.drop_last() =~= seq![y[0][j]]);
        assert(seq![x[i][0]].drop_last() =~= Seq::<T>::empty());
        assert(seq![y[0][j]].drop_last() =~= Seq::<T>::empty());
    }
}

/// `Hadamard * Hadamard == identity(2)`: applying the Hadamard gate
/// twice restores the state.
pub proof fn lemma_hadamard_involutive<T: Scalar>()
    ensures
        spec_dot(spec_hadamard::<T>(), spec_hadamard::<T>(), 2) == spec_identity::<T>(2),
{
    let s = T::spec_inv_sqrt2();
    let ss = s.spec_mul(s);
    T::law_wf_inv_sqrt2();
    T::law_wf_neg(s);
    T::law_wf_mul(s, s);
    lemma_dot_2x2(spec_hadamard::<T>(), spec_hadamard::<T>());
    T::law_inv_sqrt2_squares();
    lemma_add_zero_left(ss);
    // off-diagonal entries: s*s + (-(s*s)) == 0
    lemma_neg_mul_right(s, s);
    lemma_neg_mul_left(s, s);
    T::law_add_neg(ss);
    // bottom-right entry: (-s)*(-s) == s*s
    lemma_neg_mul_left(s, s.spec_neg());
    lemma_neg_mul_right(s, s);
    lemma_neg_neg(ss);
    assert(spec_dot(spec_hadamard::<T>(), spec_hadamard::<T>(), 2) =~~= spec_identity::<T>(2));
}

/// `PauliX * PauliX == identity(2)`.
pub proof fn lemma_pauli_x_involutive<T: Scalar>()
    ensures
        spec_dot(spec_pauli_x::<T>(), spec_pauli_x::<T>(), 2) == spec_identity::<T>(2),
{
    let z = T::spec_zero();
    let o = T::spec_one();
    T::law_wf_zero();
    T::law_wf_one();
    lemma_dot_2x2(spec_pauli_x::<T>(), spec_pauli_x::<T>());
    T::law_mul_zero(z);
    T::law_mul_one(o);
    lemma_mul_zero_left(o);
    T::law_mul_zero(o);
    lemma_add_zero_left(o);
    T::law_add_zero(z);
    T::law_add_zero(o);
    lemma_add_zero_left(z);
    assert(spec_dot(spec_pauli_x::<T>(), spec_pauli_x::<T>(), 2) =~~= spec_identity::<T>(2));
}

/// `PauliY * PauliY == identity(2)`.
pub proof fn lemma_pauli_y_involutive<T: Scalar>()
    ensures
        spec_dot(spec_pauli_y::<T>(), spec_pauli_y::<T>(), 2) == spec_identity::<T>(2),
{
    let z = T::spec_zero();
    let o = T::spec_one();
    let im = T::spec_i();
    T::law_wf_zero();
    T::law_wf_one();
    T::law_wf_i();
    T::law_wf_neg(im);
    lemma_dot_2x2(spec_pauli_y::<T>(), spec_pauli_y::<T>());
    // (-i) * i == -(i*i) == -(-1) == 1, and i * (-i) likewise
    T::law_i_squared();
    lemma_neg_mul_left(im, im);
    lemma_neg_mul_right(im, im);
    lemma_neg_neg(o);
    // zero products
    T::law_mul_zero(z);
    T::law_mul_zero(im);
    lemma_mul_zero_left(im.spec_neg());
    lemma_mul_zero_left(im);
    T::law_mul_zero(im.spec_neg());
    // zero sums
    lemma_add_zero_left(o);
    T::law_add_zero(o);
    T::law_add_zero(z);
    lemma_add_zero_left(z);
    assert(spec_dot(spec_pauli_y::<T>(), spec_pauli_y::<T>(), 2) =~~= spec_identity::<T>(2));
}

/// `PauliZ * PauliZ == identity(2)`.
pub proof fn lemma_pauli_z_involutive<T: Scalar>()
    ensures
        spec_dot(spec_pauli_z::<T>(), spec_pauli_z::<T>(), 2) == spec_identity::<T>(2),
{
    let z = T::spec_zero();
    let o = T::spec_one();
    T::law_wf_zero();
    T::law_wf_one();
    T::law_wf_neg(o);
    lemma_dot_2x2(spec_pauli_z::<T>(), spec_pauli_z::<T>());
    T::law_mul_one(o);
    T::law_mul_zero(o);
    T::law_mul_zero(z);
    lemma_mul_zero_left(o.spec_neg());
    lemma_mul_zero_left(o);
    T::law_mul_zero(o.spec_neg());
    // (-1) * (-1) == -(1 * -1) == -(-1) == 1
    lemma_neg_mul_left(o, o.spec_neg());
    lemma_mul_one_left(o.spec_neg());
    lemma_neg_neg(o);
    T::law_add_zero(o);
    T::law_add_zero(z);
    lemma_add_zero_left(z);
    lemma_add_zero_left(o);
    assert(spec_dot(spec_pauli_z::<T>(), spec_pauli_z::<T>(), 2) =~~= spec_identity::<T>(2));
}

} // verus!
