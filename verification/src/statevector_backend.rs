//! The statevector execution engine.
//!
//! Execution keeps a column vector of 2^n complex amplitudes, one per
//! computational basis state, and applies each instruction's operator by
//! left-multiplication.  Qubit 0 is the most significant bit of a
//! basis-state index, so the full operator of a single-qubit gate on
//! qubit `q` is `identity(2^q) tensor gate tensor identity(2^(n-q-1))`.
//! Gates over several, possibly non-adjacent qubits are built index by
//! index: each basis index is decomposed into its per-qubit bits and the
//! operator entry is read off that gate's semantics.  A composite gate
//! executes its nested circuit's instructions with the nested qubit
//! indices mapped onto the outer circuit's qubits.

use crate::backend::Backend;
use crate::complex::Scalar;
use crate::error::Error;
use crate::gates;
use crate::gates::{
    spec_hadamard,
    spec_pauli_x,
    spec_pauli_y,
    spec_pauli_z,
    spec_phase_shift,
    spec_rotation_x,
    spec_rotation_y,
    spec_rotation_z,
    spec_t,
};
use crate::matrix::{spec_dot, spec_identity, spec_tensor, Matrix};
use crate::quantum_circuit::{
    lemma_circuit_fields,
    scalars_wf_instruction,
    wf_instruction,
    Instruction,
    QuantumCircuit,
};
use vstd::arithmetic::div_mod::*;
use vstd::arithmetic::power2::*;
use vstd::prelude::*;

verus! {

broadcast use crate::matrix::Matrix::lemma_view_shape;

/// The backend that returns the final statevector itself.
#[derive(Debug)]
pub struct StateVectorBackend;

/// 2^k as a `usize`.
pub(crate) fn pow2_usize(k: usize) -> (r: usize)
    requires
        pow2(k as nat) <= usize::MAX,
    ensures
        r == pow2(k as nat),
{
    let mut r: usize = 1;
    let mut j: usize = 0;
    proof {
        lemma2_to64();
    }
    while j < k
        invariant
            j <= k,
            r == pow2(j as nat),
            pow2(k as nat) <= usize::MAX,
        decreases k - j,
    {
        proof {
            lemma_pow2_unfold((j + 1) as nat);
            if j + 1 < k {
                lemma_pow2_strictly_increases((j + 1) as nat, k as nat);
            }
        }
        r = r * 2;
        j = j + 1;
    }
    r
}

/// The value of qubit `q` in the `n`-qubit basis-state index `x`;
/// qubit 0 is the most significant bit.
pub open spec fn qubit_bit(x: int, q: nat, n: nat) -> bool {
    (x / pow2((n - q - 1) as nat) as int) % 2 == 1
}

/// `x` with qubit `q` inverted.
pub open spec fn flip_qubit(x: int, q: nat, n: nat) -> int {
    if qubit_bit(x, q, n) {
        x - pow2((n - q - 1) as nat)
    } else {
        x + pow2((n - q - 1) as nat)
    }
}

/// `x` with qubit `q` forced to zero.
pub open spec fn clear_qubit(x: int, q: nat, n: nat) -> int {
    if qubit_bit(x, q, n) {
        x - pow2((n - q - 1) as nat)
    } else {
        x
    }
}

/// A qubit value as a row or column index into a 2 by 2 gate matrix.
pub open spec fn bit_idx(b: bool) -> int {
    if b {
        1
    } else {
        0
    }
}

/// Flipping a qubit keeps a basis index within the state space.
proof fn lemma_flip_in_range(x: int, q: nat, n: nat)
    requires
        q < n,
        0 <= x < pow2(n),
    ensures
        0 <= flip_qubit(x, q, n) < pow2(n),
        0 <= clear_qubit(x, q, n) <= x,
{
    let k = (n - q - 1) as nat;
    let p = pow2(k) as int;
    lemma_pow2_pos(k);
    lemma_fundamental_div_mod(x, p);
    lemma_mod_bound(x, p);
    lemma_div_pos_is_pos(x, p);
    let d = x / p;
    let r = x % p;
    if qubit_bit(x, q, n) {
        if d == 0 {
            lemma_small_mod(0, 2);
            assert(false);
        }
        assert(x - p >= 0) by (nonlinear_arith)
            requires
                x == p * d + r,
                r >= 0,
                d >= 1,
                p > 0,
        ;
    } else {
        lemma_pow2_adds((q + 1) as nat, k);
        let e = pow2((q + 1) as nat) as int;
        crate::matrix::lemma_div_below(x, p, e);
        // d is even and e is even, so d stays at least two below e
        lemma_pow2_unfold((q + 1) as nat);
        assert(e % 2 == 0) by {
            lemma_mod_multiples_basic(pow2(q) as int, 2);
            assert(2 * pow2(q) == pow2(q) as int * 2) by (nonlinear_arith);
        }
        assert(d % 2 == 0);
        if d == e - 1 {
            lemma_fundamental_div_mod(e, 2);
            lemma_mod_bound(e, 2);
            assert((e - 1) % 2 == 1) by {
                lemma_fundamental_div_mod_converse(e - 1, 2, e / 2 - 1, 1);
            }
            assert(false);
        }
        assert(d <= e - 2);
        assert(x + p < pow2(n)) by (nonlinear_arith)
            requires
                x == p * d + r,
                0 <= r < p,
                d <= e - 2,
                p > 0,
                e * p == pow2(n),
        ;
    }
}

/// Reads one qubit of a basis index.
fn qubit_bit_exec(x: usize, q: usize, n: usize) -> (r: bool)
    requires
        q < n,
        pow2(n as nat) <= usize::MAX,
    ensures
        r == qubit_bit(x as int, q as nat, n as nat),
{
    proof {
        lemma_pow2_pos((n - q - 1) as nat);
        if ((n - q - 1) as nat) < (n as nat) {
            lemma_pow2_strictly_increases((n - q - 1) as nat, n as nat);
        }
    }
    let p = pow2_usize(n - q - 1);
    (x / p) % 2 == 1
}

/// Inverts one qubit of a basis index.
fn flip_qubit_exec(x: usize, q: usize, n: usize) -> (r: usize)
    requires
        q < n,
        (x as int) < pow2(n as nat),
        pow2(n as nat) <= usize::MAX,
    ensures
        r == flip_qubit(x as int, q as nat, n as nat),
        (r as int) < pow2(n as nat),
{
    proof {
        lemma_flip_in_range(x as int, q as nat, n as nat);
        lemma_pow2_pos((n - q - 1) as nat);
        if ((n - q - 1) as nat) < (n as nat) {
            lemma_pow2_strictly_increases((n - q - 1) as nat, n as nat);
        }
    }
    let p = pow2_usize(n - q - 1);
    if (x / p) % 2 == 1 {
        x - p
    } else {
        x + p
    }
}

/// Forces one qubit of a basis index to zero.
fn clear_qubit_exec(x: usize, q: usize, n: usize) -> (r: usize)
    requires
        q < n,
        (x as int) < pow2(n as nat),
        pow2(n as nat) <= usize::MAX,
    ensures
        r == clear_qubit(x as int, q as nat, n as nat),
{
    proof {
        lemma_flip_in_range(x as int, q as nat, n as nat);
        lemma_pow2_pos((n - q - 1) as nat);
        if ((n - q - 1) as nat) < (n as nat) {
            lemma_pow2_strictly_increases((n - q - 1) as nat, n as nat);
        }
    }
    let p = pow2_usize(n - q - 1);
    if (x / p) % 2 == 1 {
        x - p
    } else {
        x
    }
}

/// The full operator of a 2 by 2 gate on qubit `q` of `n`:
/// `identity(2^q) tensor gate tensor identity(2^(n-q-1))`.
pub open spec fn single_operator<T: Scalar>(g: Seq<Seq<T>>, n: nat, q: nat) -> Seq<Seq<T>> {
    spec_tensor(
        spec_tensor(spec_identity::<T>(pow2(q)), g, pow2(q), 2),
        spec_identity::<T>(pow2((n - q - 1) as nat)),
        pow2(q) * 2,
        pow2((n - q - 1) as nat),
    )
}

/// One entry of the full operator of a controlled 2 by 2 gate: basis
/// states whose non-target qubits differ are unrelated; where the
/// control qubit is `|1>` it acts on the target qubit, elsewhere
/// the state passes through.
pub open spec fn controlled_entry<T: Scalar>(
    g: Seq<Seq<T>>,
    n: nat,
    c: nat,
    t: nat,
    i: int,
    j: int,
) -> T {
    if clear_qubit(i, t, n) == clear_qubit(j, t, n) {
        if qubit_bit(j, c, n) {
            g[bit_idx(qubit_bit(i, t, n))][bit_idx(qubit_bit(j, t, n))]
        } else if qubit_bit(i, t, n) == qubit_bit(j, t, n) {
            T::spec_one()
        } else {
            T::spec_zero()
        }
    } else {
        T::spec_zero()
    }
}

/// The full operator of a controlled 2 by 2 gate over `n` qubits.
pub open spec fn controlled_operator<T: Scalar>(
    g: Seq<Seq<T>>,
    n: nat,
    c: nat,
    t: nat,
) -> Seq<Seq<T>> {
    Seq::new(
        pow2(n),
        |i: int| Seq::new(pow2(n), |j: int| controlled_entry(g, n, c, t, i, j)),
    )
}

/// Where the SWAP gate on qubits `a`, `b` sends the basis state `j`.
pub open spec fn swap_image(j: int, a: nat, b: nat, n: nat) -> int {
    if qubit_bit(j, a, n) == qubit_bit(j, b, n) {
        j
    } else {
        flip_qubit(flip_qubit(j, a, n), b, n)
    }
}

/// Where the Toffoli gate sends the basis state `j`: the target flips
/// exactly when both controls are `|1>`.
pub open spec fn toffoli_image(j: int, ca: nat, cb: nat, t: nat, n: nat) -> int {
    if qubit_bit(j, ca, n) && qubit_bit(j, cb, n) {
        flip_qubit(j, t, n)
    } else {
        j
    }
}

/// Where the Fredkin gate sends the basis state `j`: the two targets
/// swap exactly when the control is `|1>`.
pub open spec fn fredkin_image(j: int, c: nat, ta: nat, tb: nat, n: nat) -> int {
    if qubit_bit(j, c, n) && qubit_bit(j, ta, n) != qubit_bit(j, tb, n) {
        flip_qubit(flip_qubit(j, ta, n), tb, n)
    } else {
        j
    }
}

/// The permutation operator sending basis state `j` to `swap_image(j)`.
pub open spec fn swap_operator<T: Scalar>(n: nat, a: nat, b: nat) -> Seq<Seq<T>> {
    Seq::new(
        pow2(n),
        |i: int|
            Seq::new(
                pow2(n),
                |j: int|
                    if i == swap_image(j, a, b, n) {
                        T::spec_one()
                    } else {
                        T::spec_zero()
                    },
            ),
    )
}

/// The permutation operator sending basis state `j` to
/// `toffoli_image(j)`.
pub open spec fn toffoli_operator<T: Scalar>(n: nat, ca: nat, cb: nat, t: nat) -> Seq<Seq<T>> {
    Seq::new(
        pow2(n),
        |i: int|
            Seq::new(
                pow2(n),
                |j: int|
                    if i == toffoli_image(j, ca, cb, t, n) {
                        T::spec_one()
                    } else {
                        T::spec_zero()
                    },
            ),
    )
}

/// The permutation operator sending basis state `j` to
/// `fredkin_image(j)`.
pub open spec fn fredkin_operator<T: Scalar>(n: nat, c: nat, ta: nat, tb: nat) -> Seq<Seq<T>> {
    Seq::new(
        pow2(n),
        |i: int|
            Seq::new(
                pow2(n),
                |j: int|
                    if i == fredkin_image(j, c, ta, tb, n) {
                        T::spec_one()
                    } else {
                        T::spec_zero()
                    },
            ),
    )
}

/// Whether the instruction is one of the single-qubit kinds.
pub open spec fn is_single_qubit<T>(i: Instruction<T>) -> bool {
    match i {
        Instruction::Identity(_) => true,
        Instruction::PauliX(_) => true,
        Instruction::PauliY(_) => true,
        Instruction::PauliZ(_) => true,
        Instruction::Hadamard(_) => true,
        Instruction::Phase { .. } => true,
        Instruction::T(_) => true,
        Instruction::RotationX { .. } => true,
        Instruction::RotationY { .. } => true,
        Instruction::RotationZ { .. } => true,
        _ => false,
    }
}

/// The qubit a single-qubit instruction acts on.
pub open spec fn single_qubit_index<T>(i: Instruction<T>) -> nat {
    match i {
        Instruction::Identity(q) => q as nat,
        Instruction::PauliX(q) => q as nat,
        Instruction::PauliY(q) => q as nat,
        Instruction::PauliZ(q) => q as nat,
        Instruction::Hadamard(q) => q as nat,
        Instruction::Phase { qubit, .. } => qubit as nat,
        Instruction::T(q) => q as nat,
        Instruction::RotationX { qubit, .. } => qubit as nat,
        Instruction::RotationY { qubit, .. } => qubit as nat,
        Instruction::RotationZ { qubit, .. } => qubit as nat,
        _ => 0,
    }
}

/// The 2 by 2 matrix of a single-qubit instruction.
pub open spec fn gate2_spec<T: Scalar>(i: Instruction<T>) -> Seq<Seq<T>> {
    match i {
        Instruction::Identity(_) => spec_identity::<T>(2),
        Instruction::PauliX(_) => spec_pauli_x::<T>(),
        Instruction::PauliY(_) => spec_pauli_y::<T>(),
        Instruction::PauliZ(_) => spec_pauli_z::<T>(),
        Instruction::Hadamard(_) => spec_hadamard::<T>(),
        Instruction::Phase { phase, .. } => spec_phase_shift::<T>(phase),
        Instruction::T(_) => spec_t::<T>(),
        Instruction::RotationX { phase, .. } => spec_rotation_x::<T>(phase),
        Instruction::RotationY { phase, .. } => spec_rotation_y::<T>(phase),
        Instruction::RotationZ { phase, .. } => spec_rotation_z::<T>(phase),
        _ => spec_identity::<T>(2),
    }
}

/// Whether this backend implements the instruction: everything except a
/// controlled gate whose inner gate is not single-qubit, recursively
/// through composite gates.
pub open spec fn supported_instruction<T>(i: Instruction<T>) -> bool
    decreases i,
    via supported_instruction_dec::<T>
{
    match i {
        Instruction::ControlledU { gate, .. } => is_single_qubit(*gate),
        Instruction::Custom { circuit, .. } => supported_sequence(circuit.spec_instructions()),
        _ => true,
    }
}

/// Whether this backend implements every instruction in the sequence.
pub open spec fn supported_sequence<T>(s: Seq<Instruction<T>>) -> bool
    decreases s,
{
    s.len() == 0 || (supported_instruction(s[0]) && supported_sequence(s.drop_first()))
}

#[via_fn]
proof fn supported_instruction_dec<T>(i: Instruction<T>) {
    if i is Custom {
        assert(decreases_to!(i => i->Custom_circuit.instructions@));
        lemma_circuit_fields(&i->Custom_circuit);
    }
}

/// A sequence-level support claim is the conjunction of the
/// per-instruction claims.
pub proof fn lemma_supported_sequence_iff<T>(s: Seq<Instruction<T>>)
    ensures
        supported_sequence(s) <==> (forall|k: int|
            0 <= k < s.len() ==> supported_instruction(#[trigger] s[k])),
    decreases s.len(),
{
    if s.len() > 0 {
        lemma_supported_sequence_iff(s.drop_first());
        assert forall|k: int|
            0 <= k < s.len() && supported_instruction(s[0]) && supported_sequence(
                s.drop_first(),
            ) implies supported_instruction(#[trigger] s[k]) by {
            if k > 0 {
                assert(s.drop_first()[k - 1] == s[k]);
            }
        }
        if forall|k: int| 0 <= k < s.len() ==> supported_instruction(#[trigger] s[k]) {
            assert forall|k: int|
                0 <= k < s.drop_first().len() implies supported_instruction(
                #[trigger] s.drop_first()[k],
            ) by {
                assert(s.drop_first()[k] == s[k + 1]);
            }
        }
    }
}

/// A qubit map for a nested circuit: nested qubit `k` stands for the
/// outer qubit `qm[iq[k]]`.
pub open spec fn compose_map(qm: Seq<usize>, iq: Seq<usize>) -> Seq<usize> {
    Seq::new(iq.len(), |k: int| qm[iq[k] as int])
}

/// Every entry of the qubit map lies below the circuit width.
pub open spec fn map_wf(qm: Seq<usize>, n: nat) -> bool {
    forall|k: int| 0 <= k < qm.len() ==> qm[k] < n
}

/// The identity qubit map of a top-level circuit.
pub open spec fn identity_map(n: nat) -> Seq<usize> {
    Seq::new(n, |k: int| k as usize)
}

/// The column vector with amplitude one at index 0 and zero elsewhere.
pub open spec fn basis_state<T: Scalar>(len: nat) -> Seq<Seq<T>> {
    Seq::new(
        len,
        |i: int|
            seq![
                if i == 0 {
                    T::spec_one()
                } else {
                    T::spec_zero()
                },
            ],
    )
}

/// The state after one instruction, with the instruction's local qubit
/// `q` acting on the global qubit `qm[q]` of an `n`-qubit state: the
/// instruction's full operator applied to the state by
/// left-multiplication, except that the identity instruction leaves the
/// state untouched and a composite gate runs its nested instructions
/// under the composed qubit map.
pub open spec fn spec_apply<T: Scalar>(
    state: Seq<Seq<T>>,
    i: Instruction<T>,
    qm: Seq<usize>,
    n: nat,
) -> Seq<Seq<T>>
    decreases i,
    via spec_apply_dec::<T>
{
    match i {
        Instruction::Identity(_) => state,
        Instruction::ControlledNot { control, target } => spec_dot(
            controlled_operator(
                spec_pauli_x::<T>(),
                n,
                qm[control as int] as nat,
                qm[target as int] as nat,
            ),
            state,
            1,
        ),
        Instruction::ControlledU { gate, control, target } => spec_dot(
            controlled_operator(
                gate2_spec(*gate),
                n,
                qm[control as int] as nat,
                qm[target as int] as nat,
            ),
            state,
            1,
        ),
        Instruction::SWAP(a, b) => spec_dot(
            swap_operator::<T>(n, qm[a as int] as nat, qm[b as int] as nat),
            state,
            1,
        ),
        Instruction::Toffoli { control_a, control_b, target } => spec_dot(
            toffoli_operator::<T>(
                n,
                qm[control_a as int] as nat,
                qm[control_b as int] as nat,
                qm[target as int] as nat,
            ),
            state,
            1,
        ),
        Instruction::Fredkin { control, target_a, target_b } => spec_dot(
            fredkin_operator::<T>(
                n,
                qm[control as int] as nat,
                qm[target_a as int] as nat,
                qm[target_b as int] as nat,
            ),
            state,
            1,
        ),
        Instruction::Custom { circuit, input_qubits, .. } => spec_run(
            state,
            circuit.spec_instructions(),
            compose_map(qm, input_qubits@),
            n,
        ),
        _ => spec_dot(
            single_operator(gate2_spec(i), n, qm[single_qubit_index(i) as int] as nat),
            state,
            1,
        ),
    }
}

/// The state after a sequence of instructions, applied in order.
pub open spec fn spec_run<T: Scalar>(
    state: Seq<Seq<T>>,
    instrs: Seq<Instruction<T>>,
    qm: Seq<usize>,
    n: nat,
) -> Seq<Seq<T>>
    decreases instrs,
    via spec_run_dec::<T>
{
    if instrs.len() == 0 {
        state
    } else {
        spec_run(spec_apply(state, instrs[0], qm, n), instrs.drop_first(), qm, n)
    }
}

#[via_fn]
proof fn spec_apply_dec<T: Scalar>(state: Seq<Seq<T>>, i: Instruction<T>, qm: Seq<usize>, n: nat) {
    if i is Custom {
        assert(decreases_to!(i => i->Custom_circuit.instructions@));
        lemma_circuit_fields(&i->Custom_circuit);
    }
}

#[via_fn]
proof fn spec_run_dec<T: Scalar>(
    state: Seq<Seq<T>>,
    instrs: Seq<Instruction<T>>,
    qm: Seq<usize>,
    n: nat,
) {
    if instrs.len() > 0 {
        assert(instrs.drop_first() =~= instrs.subrange(1, instrs.len() as int));
        assert(decreases_to!(instrs => instrs.subrange(1, instrs.len() as int)));
        assert(decreases_to!(instrs => instrs[0]));
    }
}

/// The result of a whole circuit: the instruction sequence run under the
/// identity qubit map from the all-zero basis state.
pub open spec fn spec_execute<T: Scalar>(c: QuantumCircuit<T>) -> Seq<Seq<T>> {
    spec_run(
        basis_state::<T>(pow2(c.spec_qubits())),
        c.spec_instructions(),
        identity_map(c.spec_qubits()),
        c.spec_qubits(),
    )
}


/// The state space is nonempty and fits in memory.
proof fn lemma_state_space(n: nat)
    requires
        pow2(n) * pow2(n) <= usize::MAX,
    ensures
        pow2(n) <= usize::MAX,
        1 <= pow2(n),
{
    lemma_pow2_pos(n);
    assert(pow2(n) <= pow2(n) * pow2(n)) by (nonlinear_arith)
        requires
            1 <= pow2(n),
    ;
}

/// The block sizes of a single-qubit gate's full operator.
proof fn lemma_single_sizes(n: nat, q: nat)
    requires
        q < n,
    ensures
        pow2(q) * 2 == pow2((q + 1) as nat),
        pow2((q + 1) as nat) * pow2((n - q - 1) as nat) == pow2(n),
        pow2(q) <= pow2(n),
        pow2((q + 1) as nat) <= pow2(n),
        pow2((n - q - 1) as nat) <= pow2(n),
{
    lemma_pow2_unfold((q + 1) as nat);
    lemma_pow2_adds((q + 1) as nat, (n - q - 1) as nat);
    lemma_pow2_strictly_increases(q, n);
    if q + 1 < n {
        lemma_pow2_strictly_increases((q + 1) as nat, n);
    }
    if n - q - 1 < n {
        lemma_pow2_strictly_increases((n - q - 1) as nat, n);
    }
    assert(pow2(q) * 2 == 2 * pow2(q)) by (nonlinear_arith);
}

/// Builds the full operator of a 2 by 2 gate on qubit `q`:
/// `identity(2^q) tensor gate tensor identity(2^(n-q-1))`.
#[verifier::loop_isolation(false)]
pub(crate) fn expand_single<T: Scalar>(g: &Matrix<T>, n: usize, q: usize) -> (r: Matrix<T>)
    requires
        g.wf(),
        g.spec_rows() == 2,
        g.spec_cols() == 2,
        q < n,
        pow2(n as nat) * pow2(n as nat) <= usize::MAX,
    ensures
        r.wf(),
        r.spec_rows() == pow2(n as nat),
        r.spec_cols() == pow2(n as nat),
        r@ == single_operator(g@, n as nat, q as nat),
{
    proof {
        lemma_state_space(n as nat);
        lemma_single_sizes(n as nat, q as nat);
        assert(pow2(q as nat) * pow2(q as nat) <= pow2(n as nat) * pow2(n as nat))
            by (nonlinear_arith)
            requires
                pow2(q as nat) <= pow2(n as nat),
        ;
        assert(pow2((q + 1) as nat) * pow2((q + 1) as nat) <= pow2(n as nat) * pow2(n as nat))
            by (nonlinear_arith)
            requires
                pow2((q + 1) as nat) <= pow2(n as nat),
        ;
        assert(pow2((n - q - 1) as nat) * pow2((n - q - 1) as nat) <= pow2(n as nat) * pow2(
            n as nat,
        )) by (nonlinear_arith)
            requires
                pow2((n - q - 1) as nat) <= pow2(n as nat),
        ;
    }
    let left: Matrix<T> = Matrix::identity(pow2_usize(q));
    let mid = left.tensor_product(g);
    proof {
        assert(mid.spec_rows() == pow2((q + 1) as nat));
        assert(mid.spec_cols() == pow2((q + 1) as nat));
    }
    let right: Matrix<T> = Matrix::identity(pow2_usize(n - q - 1));
    let r = mid.tensor_product(&right);
    proof {
        assert(r.spec_rows() == pow2(n as nat));
        assert(r.spec_cols() == pow2(n as nat));
    }
    r
}

/// Builds the full operator of a controlled 2 by 2 gate, entry by
/// entry over every pair of basis indices.
#[verifier::loop_isolation(false)]
pub(crate) fn expand_controlled<T: Scalar>(g: &Matrix<T>, n: usize, c: usize, t: usize) -> (r:
    Matrix<T>)
    requires
        g.wf(),
        g.spec_rows() == 2,
        g.spec_cols() == 2,
        c < n,
        t < n,
        pow2(n as nat) * pow2(n as nat) <= usize::MAX,
    ensures
        r.wf(),
        r.spec_rows() == pow2(n as nat),
        r.spec_cols() == pow2(n as nat),
        r@ == controlled_operator(g@, n as nat, c as nat, t as nat),
{
    proof {
        lemma_state_space(n as nat);
        T::law_wf_zero();
        T::law_wf_one();
        g.lemma_wf_entries();
    }
    let big = pow2_usize(n);
    let mut m = Matrix::new_with_default_elems(big, big);
    let mut i: usize = 0;
    while i < big
        invariant
            i <= big,
            m.wf(),
            m.spec_rows() == big,
            m.spec_cols() == big,
            forall|p: int, w: int|
                0 <= p < i && 0 <= w < big ==> m@[p][w] == controlled_entry(
                    g@,
                    n as nat,
                    c as nat,
                    t as nat,
                    p,
                    w,
                ),
        decreases big - i,
    {
        let mut j: usize = 0;
        while j < big
            invariant
                i < big,
                j <= big,
                m.wf(),
                m.spec_rows() == big,
                m.spec_cols() == big,
                forall|p: int, w: int|
                    0 <= p < i && 0 <= w < big ==> m@[p][w] == controlled_entry(
                        g@,
                        n as nat,
                        c as nat,
                        t as nat,
                        p,
                        w,
                    ),
                forall|w: int|
                    0 <= w < j ==> m@[i as int][w] == controlled_entry(
                        g@,
                        n as nat,
                        c as nat,
                        t as nat,
                        i as int,
                        w,
                    ),
            decreases big - j,
        {
            let ci = clear_qubit_exec(i, t, n);
            let cj = clear_qubit_exec(j, t, n);
            let v: T;
            if ci == cj {
                if qubit_bit_exec(j, c, n) {
                    let bi: usize = if qubit_bit_exec(i, t, n) {
                        1
                    } else {
                        0
                    };
                    let bj: usize = if qubit_bit_exec(j, t, n) {
                        1
                    } else {
                        0
                    };
                    v = g.at(bi, bj);
                } else if qubit_bit_exec(i, t, n) == qubit_bit_exec(j, t, n) {
                    v = T::one();
                } else {
                    v = T::zero();
                }
            } else {
                v = T::zero();
            }
            proof {
                assert(v == controlled_entry(g@, n as nat, c as nat, t as nat, i as int, j as int));
                assert(v.wf());
            }
            let _ = m.set(i, j, v);
            j = j + 1;
        }
        i = i + 1;
    }
    proof {
        assert(m@ =~~= controlled_operator(g@, n as nat, c as nat, t as nat));
    }
    m
}

/// Builds the SWAP permutation operator.
#[verifier::loop_isolation(false)]
fn expand_swap<T: Scalar>(n: usize, a: usize, b: usize) -> (r: Matrix<T>)
    requires
        a < n,
        b < n,
        pow2(n as nat) * pow2(n as nat) <= usize::MAX,
    ensures
        r.wf(),
        r.spec_rows() == pow2(n as nat),
        r.spec_cols() == pow2(n as nat),
        r@ == swap_operator::<T>(n as nat, a as nat, b as nat),
{
    proof {
        lemma_state_space(n as nat);
        T::law_wf_zero();
        T::law_wf_one();
    }
    let big = pow2_usize(n);
    let mut m = Matrix::new_with_default_elems(big, big);
    let mut j: usize = 0;
    while j < big
        invariant
            j <= big,
            m.wf(),
            m.spec_rows() == big,
            m.spec_cols() == big,
            forall|p: int, w: int|
                0 <= p < big && 0 <= w < j ==> m@[p][w] == (if p == swap_image(
                    w,
                    a as nat,
                    b as nat,
                    n as nat,
                ) {
                    T::spec_one()
                } else {
                    T::spec_zero()
                }),
            forall|p: int, w: int|
                0 <= p < big && j <= w < big ==> m@[p][w] == T::spec_zero(),
        decreases big - j,
    {
        let ba = qubit_bit_exec(j, a, n);
        let bb = qubit_bit_exec(j, b, n);
        let im: usize = if ba == bb {
            j
        } else {
            flip_qubit_exec(flip_qubit_exec(j, a, n), b, n)
        };
        proof {
            assert(im == swap_image(j as int, a as nat, b as nat, n as nat));
        }
        let _ = m.set(im, j, T::one());
        j = j + 1;
    }
    proof {
        assert(m@ =~~= swap_operator::<T>(n as nat, a as nat, b as nat));
    }
    m
}

/// Builds the Toffoli permutation operator.
#[verifier::loop_isolation(false)]
fn expand_toffoli<T: Scalar>(n: usize, ca: usize, cb: usize, t: usize) -> (r: Matrix<T>)
    requires
        ca < n,
        cb < n,
        t < n,
        pow2(n as nat) * pow2(n as nat) <= usize::MAX,
    ensures
        r.wf(),
        r.spec_rows() == pow2(n as nat),
        r.spec_cols() == pow2(n as nat),
        r@ == toffoli_operator::<T>(n as nat, ca as nat, cb as nat, t as nat),
{
    proof {
        lemma_state_space(n as nat);
        T::law_wf_zero();
        T::law_wf_one();
    }
    let big = pow2_usize(n);
    let mut m = Matrix::new_with_default_elems(big, big);
    let mut j: usize = 0;
    while j < big
        invariant
            j <= big,
            m.wf(),
            m.spec_rows() == big,
            m.spec_cols() == big,
            forall|p: int, w: int|
                0 <= p < big && 0 <= w < j ==> m@[p][w] == (if p == toffoli_image(
                    w,
                    ca as nat,
                    cb as nat,
                    t as nat,
                    n as nat,
                ) {
                    T::spec_one()
                } else {
                    T::spec_zero()
                }),
            forall|p: int, w: int|
                0 <= p < big && j <= w < big ==> m@[p][w] == T::spec_zero(),
        decreases big - j,
    {
        let b1 = qubit_bit_exec(j, ca, n);
        let b2 = qubit_bit_exec(j, cb, n);
        let im: usize = if b1 && b2 {
            flip_qubit_exec(j, t, n)
        } else {
            j
        };
        proof {
            assert(im == toffoli_image(j as int, ca as nat, cb as nat, t as nat, n as nat));
        }
        let _ = m.set(im, j, T::one());
        j = j + 1;
    }
    proof {
        assert(m@ =~~= toffoli_operator::<T>(n as nat, ca as nat, cb as nat, t as nat));
    }
    m
}

/// Builds the Fredkin permutation operator.
#[verifier::loop_isolation(false)]
fn expand_fredkin<T: Scalar>(n: usize, c: usize, ta: usize, tb: usize) -> (r: Matrix<T>)
    requires
        c < n,
        ta < n,
        tb < n,
        pow2(n as nat) * pow2(n as nat) <= usize::MAX,
    ensures
        r.wf(),
        r.spec_rows() == pow2(n as nat),
        r.spec_cols() == pow2(n as nat),
        r@ == fredkin_operator::<T>(n as nat, c as nat, ta as nat, tb as nat),
{
    proof {
        lemma_state_space(n as nat);
        T::law_wf_zero();
        T::law_wf_one();
    }
    let big = pow2_usize(n);
    let mut m = Matrix::new_with_default_elems(big, big);
    let mut j: usize = 0;
    while j < big
        invariant
            j <= big,
            m.wf(),
            m.spec_rows() == big,
            m.spec_cols() == big,
            forall|p: int, w: int|
                0 <= p < big && 0 <= w < j ==> m@[p][w] == (if p == fredkin_image(
                    w,
                    c as nat,
                    ta as nat,
                    tb as nat,
                    n as nat,
                ) {
                    T::spec_one()
                } else {
                    T::spec_zero()
                }),
            forall|p: int, w: int|
                0 <= p < big && j <= w < big ==> m@[p][w] == T::spec_zero(),
        decreases big - j,
    {
        let bc = qubit_bit_exec(j, c, n);
        let b1 = qubit_bit_exec(j, ta, n);
        let b2 = qubit_bit_exec(j, tb, n);
        let im: usize = if bc && b1 != b2 {
            flip_qubit_exec(flip_qubit_exec(j, ta, n), tb, n)
        } else {
            j
        };
        proof {
            assert(im == fredkin_image(j as int, c as nat, ta as nat, tb as nat, n as nat));
        }
        let _ = m.set(im, j, T::one());
        j = j + 1;
    }
    proof {
        assert(m@ =~~= fredkin_operator::<T>(n as nat, c as nat, ta as nat, tb as nat));
    }
    m
}

/// Applies a full operator to a statevector by left-multiplication.
pub(crate) fn mul_state<T: Scalar>(op: Matrix<T>, state: Matrix<T>, n: usize) -> (r: Matrix<T>)
    requires
        op.wf(),
        state.wf(),
        op.spec_rows() == pow2(n as nat),
        op.spec_cols() == pow2(n as nat),
        state.spec_rows() == pow2(n as nat),
        state.spec_cols() == 1,
        pow2(n as nat) * pow2(n as nat) <= usize::MAX,
    ensures
        r.wf(),
        r.spec_rows() == pow2(n as nat),
        r.spec_cols() == 1,
        r@ == spec_dot(op@, state@, 1),
{
    proof {
        lemma_state_space(n as nat);
        assert(pow2(n as nat) * 1 == pow2(n as nat)) by (nonlinear_arith);
    }
    match op.dot_product(&state) {
        Ok(v) => v,
        Err(_) => {
            proof {
                assert(false);
            }
            state
        },
    }
}

/// The 2 by 2 matrix a single-qubit instruction denotes, or
/// [`Error::UnsupportedInstruction`] for any other instruction kind.
fn single_qubit_matrix<T: Scalar>(i: &Instruction<T>) -> (r: Result<Matrix<T>, Error>)
    requires
        scalars_wf_instruction(*i),
    ensures
        r is Ok <==> is_single_qubit(*i),
        r is Ok ==> {
            &&& r->Ok_0.wf()
            &&& r->Ok_0.spec_rows() == 2
            &&& r->Ok_0.spec_cols() == 2
            &&& r->Ok_0@ == gate2_spec(*i)
        },
        r is Err ==> r == Result::<Matrix<T>, Error>::Err(Error::UnsupportedInstruction),
{
    match i {
        Instruction::Identity(_) => Ok(gates::identity2()),
        Instruction::PauliX(_) => Ok(gates::pauli_x()),
        Instruction::PauliY(_) => Ok(gates::pauli_y()),
        Instruction::PauliZ(_) => Ok(gates::pauli_z()),
        Instruction::Hadamard(_) => Ok(gates::hadamard()),
        Instruction::Phase { phase, .. } => Ok(gates::phase_shift(*phase)),
        Instruction::T(_) => Ok(gates::t()),
        Instruction::RotationX { phase, .. } => Ok(gates::rotation_x(*phase)),
        Instruction::RotationY { phase, .. } => Ok(gates::rotation_y(*phase)),
        Instruction::RotationZ { phase, .. } => Ok(gates::rotation_z(*phase)),
        _ => Err(Error::UnsupportedInstruction),
    }
}

/// Applies one instruction to the statevector, with the instruction's
/// local qubit `q` acting on the global qubit `qm[q]`.
#[verifier::loop_isolation(false)]
fn apply_instruction<T: Scalar>(
    state: Matrix<T>,
    instr: &Instruction<T>,
    qm: &Vec<usize>,
    n: usize,
) -> (r: Result<Matrix<T>, Error>)
    requires
        state.wf(),
        state.spec_rows() == pow2(n as nat),
        state.spec_cols() == 1,
        wf_instruction(*instr, qm@.len() as nat),
        scalars_wf_instruction(*instr),
        map_wf(qm@, n as nat),
        pow2(n as nat) * pow2(n as nat) <= usize::MAX,
    ensures
        supported_instruction(*instr) ==> {
            &&& r is Ok
            &&& r->Ok_0.wf()
            &&& r->Ok_0.spec_rows() == pow2(n as nat)
            &&& r->Ok_0.spec_cols() == 1
            &&& r->Ok_0@ == spec_apply(state@, *instr, qm@, n as nat)
        },
        !supported_instruction(*instr) ==> r == Result::<Matrix<T>, Error>::Err(
            Error::UnsupportedInstruction,
        ),
    decreases *instr,
{
    match instr {
        Instruction::Identity(_) => Ok(state),
        Instruction::PauliX(q) => {
            let g = gates::pauli_x::<T>();
            let op = expand_single(&g, n, qm[*q]);
            Ok(mul_state(op, state, n))
        },
        Instruction::PauliY(q) => {
            let g = gates::pauli_y::<T>();
            let op = expand_single(&g, n, qm[*q]);
            Ok(mul_state(op, state, n))
        },
        Instruction::PauliZ(q) => {
            let g = gates::pauli_z::<T>();
            let op = expand_single(&g, n, qm[*q]);
            Ok(mul_state(op, state, n))
        },
        Instruction::Hadamard(q) => {
            let g = gates::hadamard::<T>();
            let op = expand_single(&g, n, qm[*q]);
            Ok(mul_state(op, state, n))
        },
        Instruction::Phase { qubit, phase } => {
            let g = gates::phase_shift::<T>(*phase);
            let op = expand_single(&g, n, qm[*qubit]);
            Ok(mul_state(op, state, n))
        },
        Instruction::T(q) => {
            let g = gates::t::<T>();
            let op = expand_single(&g, n, qm[*q]);
            Ok(mul_state(op, state, n))
        },
        Instruction::RotationX { qubit, phase } => {
            let g = gates::rotation_x::<T>(*phase);
            let op = expand_single(&g, n, qm[*qubit]);
            Ok(mul_state(op, state, n))
        },
        Instruction::RotationY { qubit, phase } => {
            let g = gates::rotation_y::<T>(*phase);
            let op = expand_single(&g, n, qm[*qubit]);
            Ok(mul_state(op, state, n))
        },
        Instruction::RotationZ { qubit, phase } => {
            let g = gates::rotation_z::<T>(*phase);
            let op = expand_single(&g, n, qm[*qubit]);
            Ok(mul_state(op, state, n))
        },
        Instruction::ControlledNot { control, target } => {
            let g = gates::pauli_x::<T>();
            let op = expand_controlled(&g, n, qm[*control], qm[*target]);
            Ok(mul_state(op, state, n))
        },
        Instruction::ControlledU { gate, control, target } => {
            match single_qubit_matrix(&**gate) {
                Ok(g) => {
                    let op = expand_controlled(&g, n, qm[*control], qm[*target]);
                    Ok(mul_state(op, state, n))
                },
                Err(e) => Err(e),
            }
        },
        Instruction::SWAP(a, b) => {
            let op = expand_swap::<T>(n, qm[*a], qm[*b]);
            Ok(mul_state(op, state, n))
        },
        Instruction::Toffoli { control_a, control_b, target } => {
            let op = expand_toffoli::<T>(n, qm[*control_a], qm[*control_b], qm[*target]);
            Ok(mul_state(op, state, n))
        },
        Instruction::Fredkin { control, target_a, target_b } => {
            let op = expand_fredkin::<T>(n, qm[*control], qm[*target_a], qm[*target_b]);
            Ok(mul_state(op, state, n))
        },
        Instruction::Custom { name: _, circuit, input_qubits } => {
            proof {
                lemma_circuit_fields(circuit);
                crate::quantum_circuit::lemma_scalars_wf_sequence_iff(
                    circuit.spec_instructions(),
                );
                lemma_supported_sequence_iff(circuit.spec_instructions());
            }
            let mut composed: Vec<usize> = Vec::new();
            let iq_len = input_qubits.len();
            let mut k: usize = 0;
            while k < iq_len
                invariant
                    k <= iq_len,
                    composed@.len() == k,
                    forall|p: int| 0 <= p < k ==> composed@[p] == qm@[input_qubits@[p] as int],
                decreases iq_len - k,
            {
                composed.push(qm[input_qubits[k]]);
                k = k + 1;
            }
            proof {
                assert(composed@ =~= compose_map(qm@, input_qubits@));
                assert(map_wf(composed@, n as nat));
            }
            let inner = &circuit.instructions;
            let ilen = inner.len();
            let mut st = state;
            let mut j: usize = 0;
            while j < ilen
                invariant
                    j <= ilen,
                    st.wf(),
                    st.spec_rows() == pow2(n as nat),
                    st.spec_cols() == 1,
                    st@ == spec_run(
                        state@,
                        circuit.spec_instructions().subrange(0, j as int),
                        composed@,
                        n as nat,
                    ),
                    forall|p: int|
                        0 <= p < j ==> supported_instruction(
                            #[trigger] circuit.spec_instructions()[p],
                        ),
                decreases ilen - j,
            {
                proof {
                    assert(decreases_to!(*instr => inner@[j as int]));
                    // the composed map may be longer than the nested
                    // width when the mapping carries surplus entries
                    crate::quantum_circuit::lemma_wf_instruction_widen(
                        circuit.spec_instructions()[j as int],
                        circuit.spec_qubits(),
                        composed@.len() as nat,
                    );
                }
                match apply_instruction(st, &inner[j], &composed, n) {
                    Ok(v) => {
                        proof {
                            let pre = circuit.spec_instructions().subrange(0, j as int);
                            let cur = circuit.spec_instructions().subrange(0, j + 1);
                            assert(cur.drop_last() =~= pre);
                            assert(cur.last() == circuit.spec_instructions()[j as int]);
                            lemma_run_snoc(state@, cur, composed@, n as nat);
                        }
                        st = v;
                    },
                    Err(e) => {
                        proof {
                            assert(!supported_instruction(circuit.spec_instructions()[j as int]));
                            assert(!supported_instruction(*instr));
                        }
                        return Err(e);
                    },
                }
                j = j + 1;
            }
            proof {
                assert(circuit.spec_instructions().subrange(0, ilen as int)
                    =~= circuit.spec_instructions());
                assert(supported_sequence(circuit.spec_instructions()));
            }
            Ok(st)
        },
    }
}

impl<T: Scalar> Backend<T> for StateVectorBackend {
    type Output = Result<Matrix<T>, Error>;

    /// Executes the circuit and returns the final statevector: the
    /// column of 2^n amplitudes after every instruction's operator has
    /// been applied in order.  Fails with
    /// [`Error::UnsupportedInstruction`] exactly when the circuit holds
    /// (possibly inside a composite gate) a controlled gate whose inner
    /// gate is not single-qubit.
    #[verifier::loop_isolation(false)]
    fn execute(circuit: QuantumCircuit<T>) -> (r: Result<Matrix<T>, Error>)
        ensures
            supported_sequence(circuit.spec_instructions()) ==> {
                &&& r is Ok
                &&& r->Ok_0.wf()
                &&& r->Ok_0.spec_rows() == pow2(circuit.spec_qubits())
                &&& r->Ok_0.spec_cols() == 1
                &&& r->Ok_0@ == spec_execute(circuit)
            },
            !supported_sequence(circuit.spec_instructions()) ==> r == Result::<
                Matrix<T>,
                Error,
            >::Err(Error::UnsupportedInstruction),
    {
        let n = circuit.qubits();
        proof {
            lemma_state_space(n as nat);
            T::law_wf_one();
            crate::quantum_circuit::lemma_scalars_wf_sequence_iff(circuit.spec_instructions());
            lemma_supported_sequence_iff(circuit.spec_instructions());
        }
        let big = pow2_usize(n);
        let mut state = Matrix::new_with_default_elems(big, 1);
        proof {
            assert(big * 1 == big) by (nonlinear_arith);
        }
        let _ = state.set(0, 0, T::one());
        proof {
            assert(state@ =~~= basis_state::<T>(pow2(n as nat)));
        }
        let mut qm: Vec<usize> = Vec::new();
        let mut k: usize = 0;
        while k < n
            invariant
                k <= n,
                qm@.len() == k,
                forall|p: int| 0 <= p < k ==> qm@[p] == p as usize,
            decreases n - k,
        {
            qm.push(k);
            k = k + 1;
        }
        proof {
            assert(qm@ =~= identity_map(n as nat));
            assert(map_wf(qm@, n as nat));
        }
        let instrs = circuit.instructions();
        let ilen = instrs.len();
        let mut st = state;
        let mut j: usize = 0;
        while j < ilen
            invariant
                j <= ilen,
                st.wf(),
                st.spec_rows() == pow2(n as nat),
                st.spec_cols() == 1,
                st@ == spec_run(
                    basis_state::<T>(pow2(n as nat)),
                    circuit.spec_instructions().subrange(0, j as int),
                    qm@,
                    n as nat,
                ),
                forall|p: int|
                    0 <= p < j ==> supported_instruction(
                        #[trigger] circuit.spec_instructions()[p],
                    ),
            decreases ilen - j,
        {
            match apply_instruction(st, &instrs[j], &qm, n) {
                Ok(v) => {
                    proof {
                        let pre = circuit.spec_instructions().subrange(0, j as int);
                        let cur = circuit.spec_instructions().subrange(0, j + 1);
                        assert(cur.drop_last() =~= pre);
                        assert(cur.last() == circuit.spec_instructions()[j as int]);
                        lemma_run_snoc(
                            basis_state::<T>(pow2(n as nat)),
                            cur,
                            qm@,
                            n as nat,
                        );
                    }
                    st = v;
                },
                Err(e) => {
                    proof {
                        assert(!supported_instruction(circuit.spec_instructions()[j as int]));
                    }
                    return Err(e);
                },
            }
            j = j + 1;
        }
        proof {
            assert(circuit.spec_instructions().subrange(0, ilen as int)
                =~= circuit.spec_instructions());
            assert(supported_sequence(circuit.spec_instructions()));
        }
        Ok(st)
    }
}


/// A circuit with no instructions yields the initial statevector: 2^n
/// amplitudes with one at index 0 (the all-zero basis state) and zero
/// everywhere else.
pub proof fn lemma_empty_circuit_execution<T: Scalar>(c: QuantumCircuit<T>)
    requires
        c.spec_instructions().len() == 0,
    ensures
        spec_execute(c).len() == pow2(c.spec_qubits()),
        spec_execute(c)[0] == seq![T::spec_one()],
        forall|i: int|
            1 <= i < pow2(c.spec_qubits()) ==> spec_execute(c)[i] == seq![T::spec_zero()],
{
    lemma_pow2_pos(c.spec_qubits());
}

/// `b` is `a` with every qubit reference rewritten through `iq`: the
/// instruction a composite gate's inner instruction `a` stands for in
/// the outer circuit.  Gate parameters and nested circuits are carried
/// over unchanged; a nested composite gate only has its own qubit
/// mapping rewritten.
pub open spec fn is_remapped_instruction<T: Scalar>(
    a: Instruction<T>,
    b: Instruction<T>,
    iq: Seq<usize>,
) -> bool {
    match (a, b) {
        (Instruction::Identity(q1), Instruction::Identity(q2)) => q1 < iq.len() && q2 == iq[q1 as int],
        (Instruction::PauliX(q1), Instruction::PauliX(q2)) => q1 < iq.len() && q2 == iq[q1 as int],
        (Instruction::PauliY(q1), Instruction::PauliY(q2)) => q1 < iq.len() && q2 == iq[q1 as int],
        (Instruction::PauliZ(q1), Instruction::PauliZ(q2)) => q1 < iq.len() && q2 == iq[q1 as int],
        (Instruction::Hadamard(q1), Instruction::Hadamard(q2)) => q1 < iq.len() && q2 == iq[q1 as int],
        (
            Instruction::Phase { qubit: q1, phase: p1 },
            Instruction::Phase { qubit: q2, phase: p2 },
        ) => q1 < iq.len() && q2 == iq[q1 as int] && p1 == p2,
        (Instruction::T(q1), Instruction::T(q2)) => q1 < iq.len() && q2 == iq[q1 as int],
        (
            Instruction::RotationX { qubit: q1, phase: p1 },
            Instruction::RotationX { qubit: q2, phase: p2 },
        ) => q1 < iq.len() && q2 == iq[q1 as int] && p1 == p2,
        (
            Instruction::RotationY { qubit: q1, phase: p1 },
            Instruction::RotationY { qubit: q2, phase: p2 },
        ) => q1 < iq.len() && q2 == iq[q1 as int] && p1 == p2,
        (
            Instruction::RotationZ { qubit: q1, phase: p1 },
            Instruction::RotationZ { qubit: q2, phase: p2 },
        ) => q1 < iq.len() && q2 == iq[q1 as int] && p1 == p2,
        (
            Instruction::ControlledNot { control: c1, target: t1 },
            Instruction::ControlledNot { control: c2, target: t2 },
        ) => c1 < iq.len() && t1 < iq.len() && c2 == iq[c1 as int] && t2 == iq[t1 as int],
        (
            Instruction::ControlledU { gate: g1, control: c1, target: t1 },
            Instruction::ControlledU { gate: g2, control: c2, target: t2 },
        ) => g1 == g2 && c1 < iq.len() && t1 < iq.len() && c2 == iq[c1 as int] && t2 == iq[t1 as int],
        (Instruction::SWAP(u1, v1), Instruction::SWAP(u2, v2)) => u1 < iq.len() && v1 < iq.len()
            && u2 == iq[u1 as int] && v2 == iq[v1 as int],
        (
            Instruction::Toffoli { control_a: u1, control_b: v1, target: t1 },
            Instruction::Toffoli { control_a: u2, control_b: v2, target: t2 },
        ) => u1 < iq.len() && v1 < iq.len() && t1 < iq.len() && u2 == iq[u1 as int] && v2 == iq[v1 as int] && t2 == iq[t1 as int],
        (
            Instruction::Fredkin { control: u1, target_a: v1, target_b: t1 },
            Instruction::Fredkin { control: u2, target_a: v2, target_b: t2 },
        ) => u1 < iq.len() && v1 < iq.len() && t1 < iq.len() && u2 == iq[u1 as int] && v2 == iq[v1 as int] && t2 == iq[t1 as int],
        (
            Instruction::Custom { name: n1, circuit: c1, input_qubits: i1 },
            Instruction::Custom { name: n2, circuit: c2, input_qubits: i2 },
        ) => n1 == n2 && c1 == c2 && i1@.len() == i2@.len() && forall|k: int|
            0 <= k < i1@.len() ==> (#[trigger] i1@[k]) < iq.len() && i2@[k] == iq[i1@[k] as int],
        _ => false,
    }
}

/// `s2` is `s1` with every qubit reference rewritten through `iq`,
/// instruction by instruction.
pub open spec fn is_remapped_sequence<T: Scalar>(
    s1: Seq<Instruction<T>>,
    s2: Seq<Instruction<T>>,
    iq: Seq<usize>,
) -> bool {
    s1.len() == s2.len() && forall|k: int|
        0 <= k < s1.len() ==> is_remapped_instruction(#[trigger] s1[k], s2[k], iq)
}

/// One instruction behaves under the composed qubit map exactly as its
/// remapped form behaves under the outer map.
proof fn lemma_remapped_apply<T: Scalar>(
    state: Seq<Seq<T>>,
    a: Instruction<T>,
    b: Instruction<T>,
    iq: Seq<usize>,
    qm: Seq<usize>,
    n: nat,
)
    requires
        is_remapped_instruction(a, b, iq),
    ensures
        spec_apply(state, a, compose_map(qm, iq), n) == spec_apply(state, b, qm, n),
{
    if a is Custom {
        let i1 = a->Custom_input_qubits;
        let i2 = b->Custom_input_qubits;
        assert(compose_map(compose_map(qm, iq), i1@) =~= compose_map(qm, i2@)) by {
            assert forall|k: int| 0 <= k < i1@.len() implies compose_map(
                compose_map(qm, iq),
                i1@,
            )[k] == compose_map(qm, i2@)[k] by {
                assert(i1@[k] < iq.len());
            }
        }
    }
}

/// A sequence of instructions behaves under the composed qubit map
/// exactly as its remapped form behaves under the outer map.
proof fn lemma_remapped_run<T: Scalar>(
    state: Seq<Seq<T>>,
    s1: Seq<Instruction<T>>,
    s2: Seq<Instruction<T>>,
    iq: Seq<usize>,
    qm: Seq<usize>,
    n: nat,
)
    requires
        is_remapped_sequence(s1, s2, iq),
    ensures
        spec_run(state, s1, compose_map(qm, iq), n) == spec_run(state, s2, qm, n),
    decreases s1.len(),
{
    if s1.len() > 0 {
        lemma_remapped_apply(state, s1[0], s2[0], iq, qm, n);
        assert forall|k: int| 0 <= k < s1.drop_first().len() implies is_remapped_instruction(
            #[trigger] s1.drop_first()[k],
            s2.drop_first()[k],
            iq,
        ) by {
            assert(s1.drop_first()[k] == s1[k + 1]);
            assert(s2.drop_first()[k] == s2[k + 1]);
        }
        lemma_remapped_run(
            spec_apply(state, s1[0], compose_map(qm, iq), n),
            s1.drop_first(),
            s2.drop_first(),
            iq,
            qm,
            n,
        );
    }
}

/// Running a concatenation runs the two halves in order.
pub proof fn lemma_run_append<T: Scalar>(
    state: Seq<Seq<T>>,
    s1: Seq<Instruction<T>>,
    s2: Seq<Instruction<T>>,
    qm: Seq<usize>,
    n: nat,
)
    ensures
        spec_run(state, s1 + s2, qm, n) == spec_run(spec_run(state, s1, qm, n), s2, qm, n),
    decreases s1.len(),
{
    if s1.len() == 0 {
        assert(s1 + s2 =~= s2);
    } else {
        assert((s1 + s2)[0] == s1[0]);
        assert((s1 + s2).drop_first() =~= s1.drop_first() + s2);
        lemma_run_append(spec_apply(state, s1[0], qm, n), s1.drop_first(), s2, qm, n);
    }
}

/// Executing a composite instruction produces the same statevector as
/// executing its remapped inner instructions in its place.
pub proof fn lemma_custom_matches_inlined<T: Scalar>(
    state: Seq<Seq<T>>,
    i: Instruction<T>,
    inlined: Seq<Instruction<T>>,
    qm: Seq<usize>,
    n: nat,
)
    requires
        i is Custom,
        is_remapped_sequence(
            i->Custom_circuit.spec_instructions(),
            inlined,
            i->Custom_input_qubits@,
        ),
    ensures
        spec_apply(state, i, qm, n) == spec_run(state, inlined, qm, n),
{
    lemma_remapped_run(
        state,
        i->Custom_circuit.spec_instructions(),
        inlined,
        i->Custom_input_qubits@,
        qm,
        n,
    );
}

/// Executing a sequence holding a composite instruction produces the
/// same statevector as executing the sequence with the composite
/// instruction replaced by its remapped inner instructions.
pub proof fn lemma_custom_inlined_in_sequence<T: Scalar>(
    state: Seq<Seq<T>>,
    pre: Seq<Instruction<T>>,
    i: Instruction<T>,
    inlined: Seq<Instruction<T>>,
    post: Seq<Instruction<T>>,
    qm: Seq<usize>,
    n: nat,
)
    requires
        i is Custom,
        is_remapped_sequence(
            i->Custom_circuit.spec_instructions(),
            inlined,
            i->Custom_input_qubits@,
        ),
    ensures
        spec_run(state, pre + seq![i] + post, qm, n) == spec_run(state, pre + inlined + post, qm, n),
{
    let st1 = spec_run(state, pre, qm, n);
    lemma_run_append(state, pre, seq![i] + post, qm, n);
    assert(pre + seq![i] + post =~= pre + (seq![i] + post));
    lemma_run_append(st1, seq![i], post, qm, n);
    assert((seq![i] + post).drop_first() =~= post);
    assert((seq![i] + post)[0] == i);
    lemma_run_append(st1, seq![i] + post, Seq::<Instruction<T>>::empty(), qm, n);
    // left side: run(st1, [i] + post) == run(apply(st1, i), post)
    lemma_custom_matches_inlined(st1, i, inlined, qm, n);
    // right side
    lemma_run_append(state, pre, inlined + post, qm, n);
    assert(pre + inlined + post =~= pre + (inlined + post));
    lemma_run_append(st1, inlined, post, qm, n);
}

/// Running one more instruction applies it to the state the others
/// produced.
pub proof fn lemma_run_snoc<T: Scalar>(
    state: Seq<Seq<T>>,
    instrs: Seq<Instruction<T>>,
    qm: Seq<usize>,
    n: nat,
)
    requires
        instrs.len() > 0,
    ensures
        spec_run(state, instrs, qm, n) == spec_apply(
            spec_run(state, instrs.drop_last(), qm, n),
            instrs.last(),
            qm,
            n,
        ),
    decreases instrs.len(),
{
    reveal_with_fuel(spec_run, 3);
    if instrs.len() == 1 {
        assert(instrs.drop_last() =~= Seq::<Instruction<T>>::empty());
        assert(instrs.drop_first() =~= Seq::<Instruction<T>>::empty());
        assert(instrs[0] == instrs.last());
    } else {
        let st1 = spec_apply(state, instrs[0], qm, n);
        lemma_run_snoc(st1, instrs.drop_first(), qm, n);
        assert(instrs.drop_first().drop_last() =~= instrs.drop_last().drop_first());
        assert(instrs.drop_first().last() == instrs.last());
        assert(instrs.drop_last()[0] == instrs[0]);
    }
}

} // verus!
