//! The circuit model: an ordered instruction sequence over a fixed qubit
//! count.  Every append validates the instruction eagerly — including,
//! for user-defined composite gates, every entry of the qubit mapping and
//! recursively every instruction of the nested circuit against that
//! circuit's own qubit count — so a malformed circuit never reaches an
//! execution backend.  A failed append leaves the circuit unchanged.

use crate::complex::Scalar;
use crate::error::Error;
use vstd::prelude::*;

verus! {

/// One gate application.  Qubit indices refer to the circuit the
/// instruction is added to; qubit 0 is the most significant bit of a
/// basis-state index.
#[derive(Debug, PartialEq)]
pub enum Instruction<S> {
    /// The identity gate: leaves the state unchanged.
    Identity(usize),
    /// The Pauli-X (bit flip) gate.
    PauliX(usize),
    /// The Pauli-Y gate.
    PauliY(usize),
    /// The Pauli-Z (phase flip) gate.
    PauliZ(usize),
    /// The Hadamard gate: sends the basis states to equal-weight
    /// superpositions.
    Hadamard(usize),
    /// The phase gate: multiplies the amplitude of `|1>` by
    /// `e^(i * phase)`.
    Phase { qubit: usize, phase: S },
    /// The T gate: the phase gate for an eighth turn.
    T(usize),
    /// Rotation around the X axis by `phase`.
    RotationX { qubit: usize, phase: S },
    /// Rotation around the Y axis by `phase`.
    RotationY { qubit: usize, phase: S },
    /// Rotation around the Z axis by `phase`.
    RotationZ { qubit: usize, phase: S },
    /// The controlled-NOT gate: flips `target` where `control` is `|1>`.
    ControlledNot { control: usize, target: usize },
    /// A controlled single-qubit gate: applies `gate` (whose own qubit
    /// index is ignored) to `target` where `control` is `|1>`.
    ControlledU { gate: Box<Instruction<S>>, control: usize, target: usize },
    /// Exchanges the states of two qubits.
    SWAP(usize, usize),
    /// The Toffoli gate: flips `target` where both controls are `|1>`.
    Toffoli { control_a: usize, control_b: usize, target: usize },
    /// The Fredkin gate: swaps the two targets where `control` is `|1>`.
    Fredkin { control: usize, target_a: usize, target_b: usize },
    /// A user-defined composite gate: the instructions of `circuit`,
    /// with the nested circuit's qubit `k` standing for the outer qubit
    /// `input_qubits[k]`.
    Custom { name: String, circuit: QuantumCircuit<S>, input_qubits: Vec<usize> },
}

/// An ordered instruction sequence over a fixed qubit count.
#[derive(Debug, PartialEq)]
pub struct QuantumCircuit<S> {
    pub(crate) qubits: usize,
    pub(crate) instructions: Vec<Instruction<S>>,
}

/// Every qubit index the instruction references is below `n`; a
/// composite gate maps every wire of its nested circuit to an entry of
/// `input_qubits` (surplus entries beyond the nested width are checked
/// but never read), every entry is below `n`, and the nested circuit is
/// valid over its own qubit count.  The inner gate of a controlled gate
/// is a gate description, not a qubit reference, so its own qubit index
/// is not constrained.
pub open spec fn wf_instruction<S>(i: Instruction<S>, n: nat) -> bool
    decreases i,
{
    match i {
        Instruction::Identity(q) => q < n,
        Instruction::PauliX(q) => q < n,
        Instruction::PauliY(q) => q < n,
        Instruction::PauliZ(q) => q < n,
        Instruction::Hadamard(q) => q < n,
        Instruction::Phase { qubit, .. } => qubit < n,
        Instruction::T(q) => q < n,
        Instruction::RotationX { qubit, .. } => qubit < n,
        Instruction::RotationY { qubit, .. } => qubit < n,
        Instruction::RotationZ { qubit, .. } => qubit < n,
        Instruction::ControlledNot { control, target } => control < n && target < n,
        Instruction::ControlledU { control, target, .. } => control < n && target < n,
        Instruction::SWAP(a, b) => a < n && b < n,
        Instruction::Toffoli { control_a, control_b, target } => control_a < n && control_b < n
            && target < n,
        Instruction::Fredkin { control, target_a, target_b } => control < n && target_a < n
            && target_b < n,
        Instruction::Custom { circuit, input_qubits, .. } => {
            &&& input_qubits@.len() >= circuit.spec_qubits()
            &&& forall|k: int| 0 <= k < input_qubits@.len() ==> input_qubits@[k] < n
            &&& forall|k: int|
                0 <= k < circuit.spec_instructions().len() ==> wf_instruction(
                    #[trigger] circuit.spec_instructions()[k],
                    circuit.spec_qubits(),
                )
        },
    }
}

impl<S> QuantumCircuit<S> {
    /// The circuit's qubit count.
    pub closed spec fn spec_qubits(&self) -> nat {
        self.qubits as nat
    }

    /// The circuit's instruction sequence.
    pub closed spec fn spec_instructions(&self) -> Seq<Instruction<S>> {
        self.instructions@
    }

    /// Every instruction references only qubits below the circuit's
    /// qubit count, recursively through composite gates.
    pub open spec fn wf(&self) -> bool {
        forall|k: int|
            0 <= k < self.spec_instructions().len() ==> wf_instruction(
                #[trigger] self.spec_instructions()[k],
                self.spec_qubits(),
            )
    }

    /// Constructs an empty circuit over `qubits` qubits.
    pub fn new(qubits: usize) -> (r: QuantumCircuit<S>)
        ensures
            r.spec_qubits() == qubits,
            r.spec_instructions() =~= Seq::<Instruction<S>>::empty(),
            r.wf(),
    {
        QuantumCircuit { qubits, instructions: Vec::new() }
    }

    /// Appends `instruction` after validating every qubit index it
    /// references.  On failure the circuit is unchanged and the error
    /// carries the first offending qubit index met in traversal order
    /// and the chain of enclosing custom-gate names leading to it.
    pub fn add(&mut self, instruction: Instruction<S>) -> (r: Result<(), Error>)
        requires
            old(self).wf(),
        ensures
            final(self).wf(),
            final(self).spec_qubits() == old(self).spec_qubits(),
            wf_instruction(instruction, old(self).spec_qubits()) ==> {
                &&& r is Ok
                &&& final(self).spec_instructions() == old(self).spec_instructions().push(
                    instruction,
                )
            },
            !wf_instruction(instruction, old(self).spec_qubits()) ==> {
                &&& r is Err
                &&& r->Err_0 is InvalidQubitIndex
                &&& r->Err_0->InvalidQubitIndex_qubit == report_qubit(
                    instruction,
                    old(self).spec_qubits(),
                )
                &&& r->Err_0->InvalidQubitIndex_gate_names@ == report_chain(
                    instruction,
                    old(self).spec_qubits(),
                )
                &&& final(self).spec_instructions() == old(self).spec_instructions()
            },
    {
        match validate_instruction(&instruction, self.qubits) {
            Ok(()) => {
                self.instructions.push(instruction);
                proof {
                    assert forall|k: int|
                        0 <= k < self.spec_instructions().len() implies wf_instruction(
                        #[trigger] self.spec_instructions()[k],
                        self.spec_qubits(),
                    ) by {
                        if k < old(self).spec_instructions().len() {
                            assert(self.spec_instructions()[k]
                                == old(self).spec_instructions()[k]);
                        } else {
                            assert(self.spec_instructions()[k] == instruction);
                        }
                    }
                }
                Ok(())
            },
            Err(e) => Err(e),
        }
    }

    /// The qubit count.
    pub fn qubits(&self) -> (r: usize)
        ensures
            r == self.spec_qubits(),
    {
        self.qubits
    }

    /// The instruction sequence.
    pub fn instructions(&self) -> (r: &Vec<Instruction<S>>)
        ensures
            r@ == self.spec_instructions(),
    {
        &self.instructions
    }
}

/// Every phase parameter the instruction carries is a well-formed
/// scalar, recursively through controlled and composite gates.
pub open spec fn scalars_wf_instruction<S: Scalar>(i: Instruction<S>) -> bool
    decreases i,
    via scalars_wf_instruction_dec::<S>
{
    match i {
        Instruction::Phase { phase, .. } => phase.wf(),
        Instruction::RotationX { phase, .. } => phase.wf(),
        Instruction::RotationY { phase, .. } => phase.wf(),
        Instruction::RotationZ { phase, .. } => phase.wf(),
        Instruction::ControlledU { gate, .. } => scalars_wf_instruction(*gate),
        Instruction::Custom { circuit, .. } => scalars_wf_sequence(circuit.spec_instructions()),
        _ => true,
    }
}

/// Every phase parameter in the sequence is a well-formed scalar.
pub open spec fn scalars_wf_sequence<S: Scalar>(s: Seq<Instruction<S>>) -> bool
    decreases s,
{
    s.len() == 0 || (scalars_wf_instruction(s[0]) && scalars_wf_sequence(s.drop_first()))
}

#[via_fn]
proof fn scalars_wf_instruction_dec<S: Scalar>(i: Instruction<S>) {
    if i is Custom {
        assert(decreases_to!(i => i->Custom_circuit.instructions@));
    }
}

/// A sequence-level scalar well-formedness claim is the conjunction of
/// the per-instruction claims.
pub proof fn lemma_scalars_wf_sequence_iff<S: Scalar>(s: Seq<Instruction<S>>)
    ensures
        scalars_wf_sequence(s) <==> (forall|k: int|
            0 <= k < s.len() ==> scalars_wf_instruction(#[trigger] s[k])),
    decreases s.len(),
{
    if s.len() > 0 {
        lemma_scalars_wf_sequence_iff(s.drop_first());
        assert forall|k: int|
            0 <= k < s.len() && scalars_wf_instruction(s[0]) && scalars_wf_sequence(
                s.drop_first(),
            ) implies scalars_wf_instruction(#[trigger] s[k]) by {
            if k > 0 {
                assert(s.drop_first()[k - 1] == s[k]);
            }
        }
        if forall|k: int| 0 <= k < s.len() ==> scalars_wf_instruction(#[trigger] s[k]) {
            assert forall|k: int|
                0 <= k < s.drop_first().len() implies scalars_wf_instruction(
                #[trigger] s.drop_first()[k],
            ) by {
                assert(s.drop_first()[k] == s[k + 1]);
            }
        }
    }
}

/// Within the crate, the specification accessors are the fields.
pub(crate) proof fn lemma_circuit_fields<S>(c: &QuantumCircuit<S>)
    ensures
        c.spec_qubits() == c.qubits as nat,
        c.spec_instructions() == c.instructions@,
{
}

/// A circuit's instruction sequence stands structurally below the
/// circuit itself, so recursion that steps from a composite gate into
/// the instructions of its nested circuit terminates.
pub proof fn lemma_instructions_below<S>(c: QuantumCircuit<S>)
    ensures
        decreases_to!(c => c.spec_instructions()),
{
    assert(decreases_to!(c => c.instructions@));
}

/// Validity against a qubit count carries over to any larger count:
/// only the instruction's own operand indices and mapping entries are
/// measured against the count, and the nested-circuit checks do not
/// mention it.
pub proof fn lemma_wf_instruction_widen<S>(i: Instruction<S>, n1: nat, n2: nat)
    requires
        wf_instruction(i, n1),
        n1 <= n2,
    ensures
        wf_instruction(i, n2),
{
}

/// The first position at or after `k` whose mapping entry is at or
/// beyond `n`, or the mapping's length when every entry from `k` on is
/// in range.
pub open spec fn first_oob_from(iq: Seq<usize>, n: nat, k: int) -> int
    decreases iq.len() - k,
{
    if k < 0 || k >= iq.len() {
        iq.len() as int
    } else if !(iq[k] < n) {
        k
    } else {
        first_oob_from(iq, n, k + 1)
    }
}

/// The qubit index a failed validation reports, following the
/// validator's traversal order: operands in declaration order; for a
/// composite gate first the mapping entries, then — when the mapping is
/// shorter than the nested circuit — the first unmapped nested wire,
/// then the report of the first invalid nested instruction.  Meaningful
/// only when the instruction is not well formed against `n`.
pub open spec fn report_qubit<S>(i: Instruction<S>, n: nat) -> usize
    decreases i,
    via report_qubit_dec::<S>
{
    match i {
        Instruction::Identity(q) => q,
        Instruction::PauliX(q) => q,
        Instruction::PauliY(q) => q,
        Instruction::PauliZ(q) => q,
        Instruction::Hadamard(q) => q,
        Instruction::Phase { qubit, .. } => qubit,
        Instruction::T(q) => q,
        Instruction::RotationX { qubit, .. } => qubit,
        Instruction::RotationY { qubit, .. } => qubit,
        Instruction::RotationZ { qubit, .. } => qubit,
        Instruction::ControlledNot { control, target } => if !(control < n) {
            control
        } else {
            target
        },
        Instruction::ControlledU { control, target, .. } => if !(control < n) {
            control
        } else {
            target
        },
        Instruction::SWAP(a, b) => if !(a < n) {
            a
        } else {
            b
        },
        Instruction::Toffoli { control_a, control_b, target } => if !(control_a < n) {
            control_a
        } else if !(control_b < n) {
            control_b
        } else {
            target
        },
        Instruction::Fredkin { control, target_a, target_b } => if !(control < n) {
            control
        } else if !(target_a < n) {
            target_a
        } else {
            target_b
        },
        Instruction::Custom { circuit, input_qubits, .. } => {
            let k = first_oob_from(input_qubits@, n, 0);
            if k < input_qubits@.len() {
                input_qubits@[k]
            } else if input_qubits@.len() < circuit.spec_qubits() {
                input_qubits@.len() as usize
            } else {
                report_qubit_seq(circuit.spec_instructions(), circuit.spec_qubits())
            }
        },
    }
}

/// The qubit index the first invalid instruction of the sequence
/// reports, or zero when every instruction is well formed.
pub open spec fn report_qubit_seq<S>(s: Seq<Instruction<S>>, m: nat) -> usize
    decreases s,
{
    if s.len() == 0 {
        0
    } else if !wf_instruction(s[0], m) {
        report_qubit(s[0], m)
    } else {
        report_qubit_seq(s.drop_first(), m)
    }
}

#[via_fn]
proof fn report_qubit_dec<S>(i: Instruction<S>, n: nat) {
    if i is Custom {
        assert(decreases_to!(i => i->Custom_circuit.instructions@));
    }
}

/// The chain of custom-gate names a failed validation reports: the
/// names of the composite gates entered on the way to the offending
/// index, outermost first.  Meaningful only when the instruction is not
/// well formed against `n`.
pub open spec fn report_chain<S>(i: Instruction<S>, n: nat) -> Seq<String>
    decreases i,
    via report_chain_dec::<S>
{
    match i {
        Instruction::Custom { name, circuit, input_qubits } => {
            let k = first_oob_from(input_qubits@, n, 0);
            if k < input_qubits@.len() || input_qubits@.len() < circuit.spec_qubits() {
                seq![name]
            } else {
                seq![name] + report_chain_seq(circuit.spec_instructions(), circuit.spec_qubits())
            }
        },
        _ => Seq::<String>::empty(),
    }
}

/// The name chain the first invalid instruction of the sequence
/// reports, or the empty chain when every instruction is well formed.
pub open spec fn report_chain_seq<S>(s: Seq<Instruction<S>>, m: nat) -> Seq<String>
    decreases s,
{
    if s.len() == 0 {
        Seq::<String>::empty()
    } else if !wf_instruction(s[0], m) {
        report_chain(s[0], m)
    } else {
        report_chain_seq(s.drop_first(), m)
    }
}

#[via_fn]
proof fn report_chain_dec<S>(i: Instruction<S>, n: nat) {
    if i is Custom {
        assert(decreases_to!(i => i->Custom_circuit.instructions@));
    }
}

/// When everything before `k` is in range and `k`'s entry is not, `k`
/// is the first out-of-range position.
proof fn lemma_first_oob_at(iq: Seq<usize>, n: nat, j: int, k: int)
    requires
        0 <= j <= k < iq.len(),
        forall|p: int| j <= p < k ==> iq[p] < n,
        !(iq[k] < n),
    ensures
        first_oob_from(iq, n, j) == k,
    decreases k - j,
{
    if j < k {
        lemma_first_oob_at(iq, n, j + 1, k);
    }
}

/// When every entry from `j` on is in range, no out-of-range position
/// exists.
proof fn lemma_first_oob_none(iq: Seq<usize>, n: nat, j: int)
    requires
        0 <= j <= iq.len(),
        forall|p: int| j <= p < iq.len() ==> iq[p] < n,
    ensures
        first_oob_from(iq, n, j) == iq.len(),
    decreases iq.len() - j,
{
    if j < iq.len() {
        lemma_first_oob_none(iq, n, j + 1);
    }
}

/// When everything before `j` is well formed and `j`'s instruction is
/// not, the sequence reports what position `j` reports.
proof fn lemma_report_seq_at<S>(s: Seq<Instruction<S>>, m: nat, j: int)
    requires
        0 <= j < s.len(),
        forall|p: int| 0 <= p < j ==> wf_instruction(#[trigger] s[p], m),
        !wf_instruction(s[j], m),
    ensures
        report_qubit_seq(s, m) == report_qubit(s[j], m),
        report_chain_seq(s, m) == report_chain(s[j], m),
    decreases j,
{
    if j > 0 {
        assert forall|p: int| 0 <= p < j - 1 implies wf_instruction(
            #[trigger] s.drop_first()[p],
            m,
        ) by {
            assert(s.drop_first()[p] == s[p + 1]);
        }
        assert(s.drop_first()[j - 1] == s[j]);
        lemma_report_seq_at(s.drop_first(), m, j - 1);
    }
}

/// Validates one instruction against a circuit width of `qubits`:
/// returns `Ok` exactly when the instruction is well formed, and
/// otherwise an [`Error::InvalidQubitIndex`] carrying the first
/// offending qubit index met in traversal order and the chain of
/// custom-gate names leading to it.
#[verifier::loop_isolation(false)]
fn validate_instruction<S>(instruction: &Instruction<S>, qubits: usize) -> (r: Result<(), Error>)
    ensures
        r is Ok <==> wf_instruction(*instruction, qubits as nat),
        r is Err ==> {
            &&& r->Err_0 is InvalidQubitIndex
            &&& r->Err_0->InvalidQubitIndex_qubit == report_qubit(*instruction, qubits as nat)
            &&& r->Err_0->InvalidQubitIndex_gate_names@ == report_chain(
                *instruction,
                qubits as nat,
            )
        },
    decreases *instruction,
{
    match instruction {
        Instruction::Identity(q) => validate_input_qubit(*q, qubits),
        Instruction::PauliX(q) => validate_input_qubit(*q, qubits),
        Instruction::PauliY(q) => validate_input_qubit(*q, qubits),
        Instruction::PauliZ(q) => validate_input_qubit(*q, qubits),
        Instruction::Hadamard(q) => validate_input_qubit(*q, qubits),
        Instruction::Phase { qubit, .. } => validate_input_qubit(*qubit, qubits),
        Instruction::T(q) => validate_input_qubit(*q, qubits),
        Instruction::RotationX { qubit, .. } => validate_input_qubit(*qubit, qubits),
        Instruction::RotationY { qubit, .. } => validate_input_qubit(*qubit, qubits),
        Instruction::RotationZ { qubit, .. } => validate_input_qubit(*qubit, qubits),
        Instruction::ControlledNot { control, target } => {
            match validate_input_qubit(*control, qubits) {
                Ok(()) => validate_input_qubit(*target, qubits),
                Err(e) => Err(e),
            }
        },
        Instruction::ControlledU { control, target, .. } => {
            match validate_input_qubit(*control, qubits) {
                Ok(()) => validate_input_qubit(*target, qubits),
                Err(e) => Err(e),
            }
        },
        Instruction::SWAP(a, b) => {
            match validate_input_qubit(*a, qubits) {
                Ok(()) => validate_input_qubit(*b, qubits),
                Err(e) => Err(e),
            }
        },
        Instruction::Toffoli { control_a, control_b, target } => {
            match validate_input_qubit(*control_a, qubits) {
                Ok(()) => match validate_input_qubit(*control_b, qubits) {
                    Ok(()) => validate_input_qubit(*target, qubits),
                    Err(e) => Err(e),
                },
                Err(e) => Err(e),
            }
        },
        Instruction::Fredkin { control, target_a, target_b } => {
            match validate_input_qubit(*control, qubits) {
                Ok(()) => match validate_input_qubit(*target_a, qubits) {
                    Ok(()) => validate_input_qubit(*target_b, qubits),
                    Err(e) => Err(e),
                },
                Err(e) => Err(e),
            }
        },
        Instruction::Custom { name, circuit, input_qubits } => {
            proof {
                assert(instruction->Custom_circuit == *circuit);
                assert(instruction->Custom_input_qubits == *input_qubits);
                assert(instruction->Custom_name == *name);
            }
            let mut k: usize = 0;
            let len = input_qubits.len();
            while k < len
                invariant
                    k <= len,
                    forall|p: int| 0 <= p < k ==> input_qubits@[p] < qubits,
                decreases len - k,
            {
                if input_qubits[k] >= qubits {
                    let mut gate_names: Vec<String> = Vec::new();
                    gate_names.push(name.clone());
                    proof {
                        assert(0 <= k < input_qubits@.len() && !(input_qubits@[k as int]
                            < qubits as nat));
                        assert(!wf_instruction(*instruction, qubits as nat));
                        lemma_first_oob_at(input_qubits@, qubits as nat, 0, k as int);
                        assert(gate_names@ =~= seq![*name]);
                    }
                    return Err(
                        Error::InvalidQubitIndex { qubit: input_qubits[k], gate_names },
                    );
                }
                k = k + 1;
            }
            proof {
                lemma_first_oob_none(input_qubits@, qubits as nat, 0);
            }
            if input_qubits.len() < circuit.qubits {
                // a nested wire without an outer qubit: report the
                // first unmapped nested wire
                let mut gate_names: Vec<String> = Vec::new();
                gate_names.push(name.clone());
                proof {
                    assert(!wf_instruction(*instruction, qubits as nat));
                    assert(gate_names@ =~= seq![*name]);
                }
                return Err(
                    Error::InvalidQubitIndex { qubit: input_qubits.len(), gate_names },
                );
            }
            let inner = &circuit.instructions;
            let mut j: usize = 0;
            let ilen = inner.len();
            while j < ilen
                invariant
                    j <= ilen,
                    forall|p: int|
                        0 <= p < j ==> wf_instruction(
                            #[trigger] inner@[p],
                            circuit.qubits as nat,
                        ),
                decreases ilen - j,
            {
                proof {
                    assert(decreases_to!(*instruction => inner@[j as int]));
                }
                match validate_instruction(&inner[j], circuit.qubits) {
                    Ok(()) => {},
                    Err(e) => {
                        proof {
                            assert(0 <= j < circuit.spec_instructions().len() && !wf_instruction(
                                circuit.spec_instructions()[j as int],
                                circuit.spec_qubits(),
                            ));
                            assert(!wf_instruction(*instruction, qubits as nat));
                            lemma_report_seq_at(
                                circuit.spec_instructions(),
                                circuit.spec_qubits(),
                                j as int,
                            );
                        }
                        match e {
                            Error::InvalidQubitIndex { qubit: bad, gate_names: mut chain } => {
                                chain.insert(0, name.clone());
                                proof {
                                    assert(chain@ =~= seq![*name] + report_chain(
                                        circuit.spec_instructions()[j as int],
                                        circuit.spec_qubits(),
                                    ));
                                }
                                return Err(
                                    Error::InvalidQubitIndex { qubit: bad, gate_names: chain },
                                );
                            },
                            other => {
                                proof {
                                    assert(false);
                                }
                                return Err(other);
                            },
                        }
                    },
                }
                j = j + 1;
            }
            Ok(())
        },
    }
}

/// Validates one referenced qubit index against the circuit width; a
/// failure reports that index with an empty name chain.
fn validate_input_qubit(qubit: usize, qubits: usize) -> (r: Result<(), Error>)
    ensures
        r is Ok <==> qubit < qubits,
        r is Err ==> {
            &&& r->Err_0 is InvalidQubitIndex
            &&& r->Err_0->InvalidQubitIndex_qubit == qubit
            &&& r->Err_0->InvalidQubitIndex_gate_names@ == Seq::<String>::empty()
        },
{
    if qubit < qubits {
        Ok(())
    } else {
        let gate_names: Vec<String> = Vec::new();
        proof {
            assert(gate_names@ =~= Seq::<String>::empty());
        }
        Err(Error::InvalidQubitIndex { qubit, gate_names })
    }
}

/// Renders a quantum circuit in some textual or graphical form.
pub trait CircuitVisualizer<S> {
    /// Visualizes the given quantum circuit.
    fn visualize_circuit(circuit: QuantumCircuit<S>);
}

} // verus!
