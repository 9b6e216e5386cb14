//! Quantum gates.
//!
//! Angles and matrix entries are IEEE-754 doubles held by their bit
//! patterns (`f64::to_bits`), so that the library computes on them exactly
//! and the numeric work (matrices, simulation) stays with the caller.
use vstd::prelude::*;

verus! {

/// The index of a qubit in a circuit.
pub type QubitIndex = usize;

/// A complex matrix entry: the bit patterns of its real and imaginary parts.
#[derive(Debug, Clone, Copy, PartialEq, Eq, Structural)]
pub struct Amplitude {
    pub re: u64,
    pub im: u64,
}

/// The kind of a gate; angles are the bit patterns of doubles.
#[derive(Debug, Clone)]
pub enum GateType {
    Identity,
    PauliX,
    PauliY,
    PauliZ,
    Hadamard,
    Phase(u64),
    RX(u64),
    RY(u64),
    RZ(u64),
    T,
    S,
    CNOT,
    CZ,
    SWAP,
    CPhase(u64),
    Toffoli,
    Fredkin,
    Custom(Vec<Amplitude>),
}

/// The mathematical counterpart of [`GateType`].
pub enum SpecGateType {
    Identity,
    PauliX,
    PauliY,
    PauliZ,
    Hadamard,
    Phase(u64),
    RX(u64),
    RY(u64),
    RZ(u64),
    T,
    S,
    CNOT,
    CZ,
    SWAP,
    CPhase(u64),
    Toffoli,
    Fredkin,
    Custom(Seq<Amplitude>),
}

impl View for GateType {
    type V = SpecGateType;

    open spec fn view(&self) -> SpecGateType {
        match self {
            GateType::Identity => SpecGateType::Identity,
            GateType::PauliX => SpecGateType::PauliX,
            GateType::PauliY => SpecGateType::PauliY,
            GateType::PauliZ => SpecGateType::PauliZ,
            GateType::Hadamard => SpecGateType::Hadamard,
            GateType::Phase(a) => SpecGateType::Phase(*a),
            GateType::RX(a) => SpecGateType::RX(*a),
            GateType::RY(a) => SpecGateType::RY(*a),
            GateType::RZ(a) => SpecGateType::RZ(*a),
            GateType::T => SpecGateType::T,
            GateType::S => SpecGateType::S,
            GateType::CNOT => SpecGateType::CNOT,
            GateType::CZ => SpecGateType::CZ,
            GateType::SWAP => SpecGateType::SWAP,
            GateType::CPhase(a) => SpecGateType::CPhase(*a),
            GateType::Toffoli => SpecGateType::Toffoli,
            GateType::Fredkin => SpecGateType::Fredkin,
            GateType::Custom(m) => SpecGateType::Custom(m@),
        }
    }
}

/// A gate applied to some qubits.
#[derive(Debug, Clone)]
pub struct QuantumGate {
    pub gate_type: GateType,
    pub qubits: Vec<QubitIndex>,
    pub is_unitary: bool,
}

/// The mathematical counterpart of [`QuantumGate`].
pub struct SpecGate {
    pub kind: SpecGateType,
    pub qubits: Seq<QubitIndex>,
    pub is_unitary: bool,
}

impl View for QuantumGate {
    type V = SpecGate;

    open spec fn view(&self) -> SpecGate {
        SpecGate { kind: self.gate_type@, qubits: self.qubits@, is_unitary: self.is_unitary }
    }
}

/// A unitary gate of kind `kind` on `qubits`.
pub open spec fn gate(kind: SpecGateType, qubits: Seq<QubitIndex>) -> SpecGate {
    SpecGate { kind, qubits, is_unitary: true }
}

pub open spec fn h_gate(q: QubitIndex) -> SpecGate {
    gate(SpecGateType::Hadamard, seq![q])
}

pub open spec fn x_gate(q: QubitIndex) -> SpecGate {
    gate(SpecGateType::PauliX, seq![q])
}

pub open spec fn z_gate(q: QubitIndex) -> SpecGate {
    gate(SpecGateType::PauliZ, seq![q])
}

pub open spec fn rz_gate(q: QubitIndex, angle: u64) -> SpecGate {
    gate(SpecGateType::RZ(angle), seq![q])
}

pub open spec fn cnot_gate(c: QubitIndex, t: QubitIndex) -> SpecGate {
    gate(SpecGateType::CNOT, seq![c, t])
}

pub open spec fn cz_gate(c: QubitIndex, t: QubitIndex) -> SpecGate {
    gate(SpecGateType::CZ, seq![c, t])
}

pub open spec fn swap_gate(a: QubitIndex, b: QubitIndex) -> SpecGate {
    gate(SpecGateType::SWAP, seq![a, b])
}

/// The number of entries of the matrix of a gate on `n` qubits,
/// `(2^n)^2`.
pub open spec fn matrix_entries(n: nat) -> nat {
    vstd::arithmetic::power2::pow2(n) * vstd::arithmetic::power2::pow2(n)
}

impl GateType {
    /// A copy with the same view.
    pub fn duplicate(&self) -> (r: GateType)
        ensures
            r@ == self@,
    {
        match self {
            GateType::Identity => GateType::Identity,
            GateType::PauliX => GateType::PauliX,
            GateType::PauliY => GateType::PauliY,
            GateType::PauliZ => GateType::PauliZ,
            GateType::Hadamard => GateType::Hadamard,
            GateType::Phase(a) => GateType::Phase(*a),
            GateType::RX(a) => GateType::RX(*a),
            GateType::RY(a) => GateType::RY(*a),
            GateType::RZ(a) => GateType::RZ(*a),
            GateType::T => GateType::T,
            GateType::S => GateType::S,
            GateType::CNOT => GateType::CNOT,
            GateType::CZ => GateType::CZ,
            GateType::SWAP => GateType::SWAP,
            GateType::CPhase(a) => GateType::CPhase(*a),
            GateType::Toffoli => GateType::Toffoli,
            GateType::Fredkin => GateType::Fredkin,
            GateType::Custom(m) => GateType::Custom(copy_amplitudes(m)),
        }
    }
}

fn copy_amplitudes(m: &Vec<Amplitude>) -> (r: Vec<Amplitude>)
    ensures
        r@ == m@,
{
    let mut r: Vec<Amplitude> = Vec::new();
    for i in 0..m.len()
        invariant
            r@ == m@.subrange(0, i as int),
    {
        r.push(m[i]);
        assert(r@ =~= m@.subrange(0, i + 1));
    }
    assert(m@.subrange(0, m.len() as int) =~= m@);
    r
}

pub fn copy_qubits(q: &Vec<QubitIndex>) -> (r: Vec<QubitIndex>)
    ensures
        r@ == q@,
{
    let mut r: Vec<QubitIndex> = Vec::new();
    for i in 0..q.len()
        invariant
            r@ == q@.subrange(0, i as int),
    {
        r.push(q[i]);
        assert(r@ =~= q@.subrange(0, i + 1));
    }
    assert(q@.subrange(0, q.len() as int) =~= q@);
    r
}

fn qubit_list1(a: QubitIndex) -> (v: Vec<QubitIndex>)
    ensures
        v@ == seq![a],
{
    let mut v = Vec::new();
    v.push(a);
    assert(v@ =~= seq![a]);
    v
}

fn qubit_list2(a: QubitIndex, b: QubitIndex) -> (v: Vec<QubitIndex>)
    ensures
        v@ == seq![a, b],
{
    let mut v = Vec::new();
    v.push(a);
    v.push(b);
    assert(v@ =~= seq![a, b]);
    v
}

fn qubit_list3(a: QubitIndex, b: QubitIndex, c: QubitIndex) -> (v: Vec<QubitIndex>)
    ensures
        v@ == seq![a, b, c],
{
    let mut v = Vec::new();
    v.push(a);
    v.push(b);
    v.push(c);
    assert(v@ =~= seq![a, b, c]);
    v
}

impl QuantumGate {
    /// A copy with the same view.
    pub fn duplicate(&self) -> (r: QuantumGate)
        ensures
            r@ == self@,
    {
        QuantumGate { gate_type: self.gate_type.duplicate(), qubits: copy_qubits(&self.qubits), is_unitary: self.is_unitary }
    }

    pub fn identity(qubit: QubitIndex) -> (g: QuantumGate)
        ensures
            g@ == gate(SpecGateType::Identity, seq![qubit]),
    {
        QuantumGate { gate_type: GateType::Identity, qubits: qubit_list1(qubit), is_unitary: true }
    }

    pub fn pauli_x(qubit: QubitIndex) -> (g: QuantumGate)
        ensures
            g@ == x_gate(qubit),
    {
        QuantumGate { gate_type: GateType::PauliX, qubits: qubit_list1(qubit), is_unitary: true }
    }

    pub fn pauli_y(qubit: QubitIndex) -> (g: QuantumGate)
        ensures
            g@ == gate(SpecGateType::PauliY, seq![qubit]),
    {
        QuantumGate { gate_type: GateType::PauliY, qubits: qubit_list1(qubit), is_unitary: true }
    }

    pub fn pauli_z(qubit: QubitIndex) -> (g: QuantumGate)
        ensures
            g@ == z_gate(qubit),
    {
        QuantumGate { gate_type: GateType::PauliZ, qubits: qubit_list1(qubit), is_unitary: true }
    }

    pub fn hadamard(qubit: QubitIndex) -> (g: QuantumGate)
        ensures
            g@ == h_gate(qubit),
    {
        QuantumGate { gate_type: GateType::Hadamard, qubits: qubit_list1(qubit), is_unitary: true }
    }

    pub fn t_gate(qubit: QubitIndex) -> (g: QuantumGate)
        ensures
            g@ == gate(SpecGateType::T, seq![qubit]),
    {
        QuantumGate { gate_type: GateType::T, qubits: qubit_list1(qubit), is_unitary: true }
    }

    pub fn s_gate(qubit: QubitIndex) -> (g: QuantumGate)
        ensures
            g@ == gate(SpecGateType::S, seq![qubit]),
    {
        QuantumGate { gate_type: GateType::S, qubits: qubit_list1(qubit), is_unitary: true }
    }

    /// A phase gate; `phase` is the bit pattern of the angle.
    pub fn phase_gate(qubit: QubitIndex, phase: u64) -> (g: QuantumGate)
        ensures
            g@ == gate(SpecGateType::Phase(phase), seq![qubit]),
    {
        QuantumGate { gate_type: GateType::Phase(phase), qubits: qubit_list1(qubit), is_unitary: true }
    }

    pub fn rx(qubit: QubitIndex, angle: u64) -> (g: QuantumGate)
        ensures
            g@ == gate(SpecGateType::RX(angle), seq![qubit]),
    {
        QuantumGate { gate_type: GateType::RX(angle), qubits: qubit_list1(qubit), is_unitary: true }
    }

    pub fn ry(qubit: QubitIndex, angle: u64) -> (g: QuantumGate)
        ensures
            g@ == gate(SpecGateType::RY(angle), seq![qubit]),
    {
        QuantumGate { gate_type: GateType::RY(angle), qubits: qubit_list1(qubit), is_unitary: true }
    }

    pub fn rz(qubit: QubitIndex, angle: u64) -> (g: QuantumGate)
        ensures
            g@ == rz_gate(qubit, angle),
    {
        QuantumGate { gate_type: GateType::RZ(angle), qubits: qubit_list1(qubit), is_unitary: true }
    }

    pub fn cnot(control: QubitIndex, target: QubitIndex) -> (g: QuantumGate)
        ensures
            g@ == cnot_gate(control, target),
    {
        QuantumGate { gate_type: GateType::CNOT, qubits: qubit_list2(control, target), is_unitary: true }
    }

    pub fn cz(control: QubitIndex, target: QubitIndex) -> (g: QuantumGate)
        ensures
            g@ == cz_gate(control, target),
    {
        QuantumGate { gate_type: GateType::CZ, qubits: qubit_list2(control, target), is_unitary: true }
    }

    pub fn swap(qubit1: QubitIndex, qubit2: QubitIndex) -> (g: QuantumGate)
        ensures
            g@ == swap_gate(qubit1, qubit2),
    {
        QuantumGate { gate_type: GateType::SWAP, qubits: qubit_list2(qubit1, qubit2), is_unitary: true }
    }

    pub fn controlled_phase(control: QubitIndex, target: QubitIndex, phase: u64) -> (g: QuantumGate)
        ensures
            g@ == gate(SpecGateType::CPhase(phase), seq![control, target]),
    {
        QuantumGate { gate_type: GateType::CPhase(phase), qubits: qubit_list2(control, target), is_unitary: true }
    }

    pub fn toffoli(control1: QubitIndex, control2: QubitIndex, target: QubitIndex) -> (g: QuantumGate)
        ensures
            g@ == gate(SpecGateType::Toffoli, seq![control1, control2, target]),
    {
        QuantumGate { gate_type: GateType::Toffoli, qubits: qubit_list3(control1, control2, target), is_unitary: true }
    }

    pub fn fredkin(control: QubitIndex, target1: QubitIndex, target2: QubitIndex) -> (g: QuantumGate)
        ensures
            g@ == gate(SpecGateType::Fredkin, seq![control, target1, target2]),
    {
        QuantumGate { gate_type: GateType::Fredkin, qubits: qubit_list3(control, target1, target2), is_unitary: true }
    }

    /// A gate from its matrix, given row by row; the matrix of a gate on `n`
    /// qubits has `(2^n)^2` entries. The matrix is not checked for being
    /// unitary: such a gate counts as unitary.
    pub fn custom_gate(qubits: Vec<QubitIndex>, matrix: Vec<Amplitude>) -> (r: Result<QuantumGate, CustomGateError>)
        ensures
            match r {
                Ok(g) => matrix@.len() == matrix_entries(qubits@.len())
                    && g@ == gate(SpecGateType::Custom(matrix@), qubits@),
                Err(e) => matrix@.len() != matrix_entries(qubits@.len())
                    && e == (CustomGateError { matrix_len: matrix@.len() as usize, qubit_count: qubits@.len() as usize }),
            },
    {
        let n = qubits.len();
        let ok = if n >= 32 {
            // (2^n)^2 is at least 2^64, more entries than any vector holds.
            proof {
                lemma_pow2_ge_32(n as nat);
                assert(matrix_entries(n as nat) >= 0x1_0000_0000 * 0x1_0000_0000) by (nonlinear_arith)
                    requires
                        vstd::arithmetic::power2::pow2(n as nat) >= 0x1_0000_0000,
                        matrix_entries(n as nat) == vstd::arithmetic::power2::pow2(n as nat) * vstd::arithmetic::power2::pow2(n as nat),
                ;
            }
            false
        } else {
            let size: u64 = 1u64 << (n as u64);
            proof {
                lemma_shl_pow2(n as u64);
                assert(size * size <= 0x1_0000_0000 * 0x1_0000_0000) by (nonlinear_arith)
                    requires size <= 0x8000_0000;
            }
            let entries: u128 = (size as u128) * (size as u128);
            (matrix.len() as u128) == entries
        };
        if ok {
            Ok(QuantumGate { gate_type: GateType::Custom(copy_amplitudes(&matrix)), qubits, is_unitary: true })
        } else {
            Err(CustomGateError { matrix_len: matrix.len(), qubit_count: n })
        }
    }

    /// Whether this is a `PauliX`, `PauliY`, `PauliZ` or `Hadamard` gate, the
    /// gates that two in a row on one qubit cancel.
    pub fn is_self_inverse(&self) -> (b: bool)
        ensures
            b == is_self_inverse_kind(self.gate_type@),
    {
        match self.gate_type {
            GateType::PauliX => true,
            GateType::PauliY => true,
            GateType::PauliZ => true,
            GateType::Hadamard => true,
            _ => false,
        }
    }
}

pub open spec fn is_self_inverse_kind(k: SpecGateType) -> bool {
    k is PauliX || k is PauliY || k is PauliZ || k is Hadamard
}

/// Whether two gate kinds are the same self-inverse kind.
pub open spec fn cancels(a: SpecGateType, b: SpecGateType) -> bool {
    ||| (a is PauliX && b is PauliX)
    ||| (a is PauliY && b is PauliY)
    ||| (a is PauliZ && b is PauliZ)
    ||| (a is Hadamard && b is Hadamard)
}

/// Two gate kinds cancel exactly when they are the same kind and that kind
/// is its own inverse: X, Y, Z and the Hadamard gate. Cancelling is
/// symmetric.
pub proof fn law_cancels_self_inverse(a: SpecGateType, b: SpecGateType)
    ensures
        cancels(a, b) <==> (a == b && is_self_inverse_kind(a)),
        is_self_inverse_kind(a) <==> (a is PauliX || a is PauliY || a is PauliZ || a is Hadamard),
        cancels(a, b) <==> cancels(b, a),
{
}

/// The refusal of a custom gate whose matrix does not have `(2^n)^2`
/// entries for its `n` qubits.
#[derive(Debug, Clone, Copy, PartialEq, Eq, Structural)]
pub struct CustomGateError {
    pub matrix_len: usize,
    pub qubit_count: usize,
}

proof fn lemma_pow2_ge_32(n: nat)
    requires
        n >= 32,
    ensures
        vstd::arithmetic::power2::pow2(n) >= 0x1_0000_0000,
{
    vstd::arithmetic::power2::lemma2_to64();
    if n > 32 {
        vstd::arithmetic::power2::lemma_pow2_strictly_increases(32, n);
    }
}

proof fn lemma_shl_pow2(n: u64)
    requires
        n < 32,
    ensures
        (1u64 << n) as int == vstd::arithmetic::power2::pow2(n as nat),
        vstd::arithmetic::power2::pow2(n as nat) <= 0x8000_0000,
{
    vstd::arithmetic::power2::lemma2_to64();
    if n < 31 {
        vstd::arithmetic::power2::lemma_pow2_strictly_increases(n as nat, 31);
    }
    vstd::bits::lemma_u64_shl_is_mul(1, n);
}

} // verus!
