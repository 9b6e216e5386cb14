//! Pre-built quantum algorithms: Bernstein-Vazirani, Grover search, the
//! quantum Fourier transform, phase estimation, Shor factoring and
//! Deutsch-Jozsa.
//!
//! Each algorithm builds its circuit by adding gates one by one, so the
//! circuit it builds is stated as the list of gates it adds, in order (see
//! [`add_gates_spec`]).
use vstd::prelude::*;
use crate::quantum::circuit::{
    QuantumCircuit, add_gate_spec, add_gates_spec, default_circuit_name, first_out_of_bounds, total_gates,
};
use crate::quantum::gates::{
    QubitIndex, SpecGate, cnot_gate, cz_gate, h_gate, rz_gate, swap_gate, x_gate, z_gate,
};
use crate::text::decimal;

verus! {

/// Adding `a` and then `b` is adding `a + b`.
pub proof fn lemma_add_gates_concat(l: Seq<Seq<SpecGate>>, a: Seq<SpecGate>, b: Seq<SpecGate>)
    ensures
        add_gates_spec(add_gates_spec(l, a), b) == add_gates_spec(l, a + b),
    decreases b.len(),
{
    if b.len() == 0 {
        assert(a + b =~= a);
    } else {
        lemma_add_gates_concat(l, a, b.drop_last());
        assert((a + b).drop_last() =~= a + b.drop_last());
        assert((a + b).last() == b.last());
    }
}

proof fn lemma_add_gates_push(l: Seq<Seq<SpecGate>>, a: Seq<SpecGate>, g: SpecGate)
    ensures
        add_gates_spec(l, a.push(g)) == add_gate_spec(add_gates_spec(l, a), g),
{
    assert(a.push(g).drop_last() =~= a);
}

/// Hadamard gates on the qubits `lo` to `hi - 1`, in order.
pub open spec fn h_range(lo: int, hi: int) -> Seq<SpecGate> {
    Seq::new((hi - lo) as nat, |k: int| h_gate((lo + k) as usize))
}

/// X gates on the qubits `lo` to `hi - 1`, in order.
pub open spec fn x_range(lo: int, hi: int) -> Seq<SpecGate> {
    Seq::new((hi - lo) as nat, |k: int| x_gate((lo + k) as usize))
}

/// Z gates on the qubits `lo` to `hi - 1`, in order.
pub open spec fn z_range(lo: int, hi: int) -> Seq<SpecGate> {
    Seq::new((hi - lo) as nat, |k: int| z_gate((lo + k) as usize))
}

/// The qubits `0` to `n - 1` marked as measured.
pub open spec fn measured_below(n: int) -> Map<QubitIndex, Option<bool>> {
    Map::new(|q: QubitIndex| q < n, |q: QubitIndex| None::<bool>)
}

/// What a circuit under construction keeps between steps.
pub open spec fn same_frame(c: QuantumCircuit, d: QuantumCircuit) -> bool {
    &&& c.wf()
    &&& c.num_qubits == d.num_qubits
    &&& c.measurements@ == d.measurements@
    &&& c.name@ == d.name@
}

fn add_h(c: &mut QuantumCircuit, q: QubitIndex)
    requires
        old(c).wf(),
        q < old(c).num_qubits,
    ensures
        same_frame(*final(c), *old(c)),
        final(c).spec_layers() == add_gate_spec(old(c).spec_layers(), h_gate(q)),
{
    let r = c.h(q);
}

fn add_x(c: &mut QuantumCircuit, q: QubitIndex)
    requires
        old(c).wf(),
        q < old(c).num_qubits,
    ensures
        same_frame(*final(c), *old(c)),
        final(c).spec_layers() == add_gate_spec(old(c).spec_layers(), x_gate(q)),
{
    let r = c.x(q);
}

fn add_z(c: &mut QuantumCircuit, q: QubitIndex)
    requires
        old(c).wf(),
        q < old(c).num_qubits,
    ensures
        same_frame(*final(c), *old(c)),
        final(c).spec_layers() == add_gate_spec(old(c).spec_layers(), z_gate(q)),
{
    let r = c.z(q);
}

fn add_rz(c: &mut QuantumCircuit, q: QubitIndex, angle: u64)
    requires
        old(c).wf(),
        q < old(c).num_qubits,
    ensures
        same_frame(*final(c), *old(c)),
        final(c).spec_layers() == add_gate_spec(old(c).spec_layers(), rz_gate(q, angle)),
{
    let r = c.rz(q, angle);
}

proof fn lemma_two_in_bounds(a: QubitIndex, b: QubitIndex, n: usize)
    requires
        a < n,
        b < n,
    ensures
        first_out_of_bounds(seq![a, b], n) is None,
{
    let s = seq![a, b];
    assert(crate::quantum::circuit::first_out_of_bounds_from(s, n, 2) is None);
    assert(crate::quantum::circuit::first_out_of_bounds_from(s, n, 1) is None);
}

fn add_cnot(c: &mut QuantumCircuit, control: QubitIndex, target: QubitIndex)
    requires
        old(c).wf(),
        control < old(c).num_qubits,
        target < old(c).num_qubits,
    ensures
        same_frame(*final(c), *old(c)),
        final(c).spec_layers() == add_gate_spec(old(c).spec_layers(), cnot_gate(control, target)),
{
    proof {
        lemma_two_in_bounds(control, target, c.num_qubits);
    }
    let r = c.cnot(control, target);
}

fn add_cz(c: &mut QuantumCircuit, control: QubitIndex, target: QubitIndex)
    requires
        old(c).wf(),
        control < old(c).num_qubits,
        target < old(c).num_qubits,
    ensures
        same_frame(*final(c), *old(c)),
        final(c).spec_layers() == add_gate_spec(old(c).spec_layers(), cz_gate(control, target)),
{
    proof {
        lemma_two_in_bounds(control, target, c.num_qubits);
    }
    let r = c.cz(control, target);
}

fn add_swap(c: &mut QuantumCircuit, a: QubitIndex, b: QubitIndex)
    requires
        old(c).wf(),
        a < old(c).num_qubits,
        b < old(c).num_qubits,
    ensures
        same_frame(*final(c), *old(c)),
        final(c).spec_layers() == add_gate_spec(old(c).spec_layers(), swap_gate(a, b)),
{
    proof {
        lemma_two_in_bounds(a, b, c.num_qubits);
    }
    let r = c.swap(a, b);
}

/// Hadamard gates on the qubits `lo` to `hi - 1`.
fn add_h_range(c: &mut QuantumCircuit, lo: usize, hi: usize)
    requires
        old(c).wf(),
        lo <= hi <= old(c).num_qubits,
    ensures
        same_frame(*final(c), *old(c)),
        final(c).spec_layers() == add_gates_spec(old(c).spec_layers(), h_range(lo as int, hi as int)),
{
    let ghost l0 = c.spec_layers();
    assert(h_range(lo as int, lo as int) =~= Seq::<SpecGate>::empty());
    let mut i = lo;
    while i < hi
        invariant
            lo <= i <= hi,
            hi <= c.num_qubits,
            same_frame(*c, *old(c)),
            l0 == old(c).spec_layers(),
            c.spec_layers() == add_gates_spec(l0, h_range(lo as int, i as int)),
        decreases hi - i,
    {
        add_h(c, i);
        proof {
            lemma_add_gates_push(l0, h_range(lo as int, i as int), h_gate(i));
            assert(h_range(lo as int, i as int).push(h_gate(i)) =~= h_range(lo as int, i + 1));
        }
        i = i + 1;
    }
}

/// X gates on the qubits `lo` to `hi - 1`.
fn add_x_range(c: &mut QuantumCircuit, lo: usize, hi: usize)
    requires
        old(c).wf(),
        lo <= hi <= old(c).num_qubits,
    ensures
        same_frame(*final(c), *old(c)),
        final(c).spec_layers() == add_gates_spec(old(c).spec_layers(), x_range(lo as int, hi as int)),
{
    let ghost l0 = c.spec_layers();
    assert(x_range(lo as int, lo as int) =~= Seq::<SpecGate>::empty());
    let mut i = lo;
    while i < hi
        invariant
            lo <= i <= hi,
            hi <= c.num_qubits,
            same_frame(*c, *old(c)),
            l0 == old(c).spec_layers(),
            c.spec_layers() == add_gates_spec(l0, x_range(lo as int, i as int)),
        decreases hi - i,
    {
        add_x(c, i);
        proof {
            lemma_add_gates_push(l0, x_range(lo as int, i as int), x_gate(i));
            assert(x_range(lo as int, i as int).push(x_gate(i)) =~= x_range(lo as int, i + 1));
        }
        i = i + 1;
    }
}

/// Z gates on the qubits `lo` to `hi - 1`.
fn add_z_range(c: &mut QuantumCircuit, lo: usize, hi: usize)
    requires
        old(c).wf(),
        lo <= hi <= old(c).num_qubits,
    ensures
        same_frame(*final(c), *old(c)),
        final(c).spec_layers() == add_gates_spec(old(c).spec_layers(), z_range(lo as int, hi as int)),
{
    let ghost l0 = c.spec_layers();
    assert(z_range(lo as int, lo as int) =~= Seq::<SpecGate>::empty());
    let mut i = lo;
    while i < hi
        invariant
            lo <= i <= hi,
            hi <= c.num_qubits,
            same_frame(*c, *old(c)),
            l0 == old(c).spec_layers(),
            c.spec_layers() == add_gates_spec(l0, z_range(lo as int, i as int)),
        decreases hi - i,
    {
        add_z(c, i);
        proof {
            lemma_add_gates_push(l0, z_range(lo as int, i as int), z_gate(i));
            assert(z_range(lo as int, i as int).push(z_gate(i)) =~= z_range(lo as int, i + 1));
        }
        i = i + 1;
    }
}

/// Marks the qubits `0` to `n - 1` as measured.
fn measure_below(c: &mut QuantumCircuit, n: usize)
    ensures
        final(c).measurements@ == old(c).measurements@.union_prefer_right(measured_below(n as int)),
        final(c).num_qubits == old(c).num_qubits,
        final(c).layers@ == old(c).layers@,
        final(c).total_depth == old(c).total_depth,
        final(c).name@ == old(c).name@,
{
    for i in 0..n
        invariant
            c.num_qubits == old(c).num_qubits,
            c.layers@ == old(c).layers@,
            c.total_depth == old(c).total_depth,
            c.name@ == old(c).name@,
            c.measurements@ == old(c).measurements@.union_prefer_right(measured_below(i as int)),
    {
        c.measure(i);
        assert(c.measurements@ =~= old(c).measurements@.union_prefer_right(measured_below(i + 1)));
    }
}

/// A pre-built algorithm: it builds its circuit.
pub trait QuantumAlgorithm {
    /// Whether the algorithm can build its circuit; building panics
    /// otherwise.
    spec fn can_build(&self) -> bool;

    /// Whether `c` is the circuit the algorithm builds: its qubits, gates,
    /// measurements and name.
    spec fn builds(&self, c: QuantumCircuit) -> bool;

    /// The algorithm's name.
    spec fn spec_name(&self) -> Seq<char>;

    /// The algorithm's description.
    spec fn spec_description(&self) -> Seq<char>;

    /// The number of qubits the algorithm needs.
    spec fn spec_required_qubits(&self) -> nat;

    fn build_circuit(&self) -> (c: QuantumCircuit)
        requires
            self.can_build(),
        ensures
            c.wf(),
            self.builds(c),
    ;

    fn name(&self) -> (s: &'static str)
        ensures
            s@ == self.spec_name(),
    ;

    fn description(&self) -> (s: &'static str)
        ensures
            s@ == self.spec_description(),
    ;

    /// The count must fit in a `usize`.
    fn required_qubits(&self) -> (n: usize)
        requires
            self.spec_required_qubits() <= usize::MAX,
        ensures
            n == self.spec_required_qubits(),
    ;
}

/// The secret bits as the characters `1` and `0`.
pub open spec fn bit_chars(bits: Seq<bool>) -> Seq<char> {
    bits.map_values(|b: bool| if b { '1' } else { '0' })
}

/// The oracle of Bernstein-Vazirani and of a balanced Deutsch-Jozsa: a CNOT
/// from each of the first `k` qubits whose bit is set onto `target`.
pub open spec fn cnot_oracle(bits: Seq<bool>, target: QubitIndex, k: int) -> Seq<SpecGate>
    decreases k,
{
    if k <= 0 {
        Seq::empty()
    } else {
        let s = cnot_oracle(bits, target, k - 1);
        if bits[k - 1] {
            s.push(cnot_gate((k - 1) as usize, target))
        } else {
            s
        }
    }
}

fn add_cnot_oracle(c: &mut QuantumCircuit, bits: &Vec<bool>, target: QubitIndex)
    requires
        old(c).wf(),
        target < old(c).num_qubits,
        forall|i: int| 0 <= i < bits@.len() && bits@[i] ==> i < old(c).num_qubits,
    ensures
        same_frame(*final(c), *old(c)),
        final(c).spec_layers() == add_gates_spec(old(c).spec_layers(), cnot_oracle(bits@, target, bits@.len() as int)),
{
    let ghost l0 = c.spec_layers();
    for i in 0..bits.len()
        invariant
            target < c.num_qubits,
            forall|m: int| 0 <= m < bits@.len() && bits@[m] ==> m < c.num_qubits,
            same_frame(*c, *old(c)),
            l0 == old(c).spec_layers(),
            c.spec_layers() == add_gates_spec(l0, cnot_oracle(bits@, target, i as int)),
    {
        if bits[i] {
            add_cnot(c, i, target);
            proof {
                lemma_add_gates_push(l0, cnot_oracle(bits@, target, i as int), cnot_gate(i, target));
            }
        }
    }
}

/// Bernstein-Vazirani: finds a secret bit string with one oracle query.
#[derive(Debug, Clone)]
pub struct BernsteinVazirani {
    pub secret_string: Vec<bool>,
}

/// The gates of Bernstein-Vazirani for a secret of `n` bits: X on the
/// ancilla `n`, Hadamard on all qubits, the oracle, Hadamard on the first
/// `n` qubits.
pub open spec fn bernstein_vazirani_gates(secret: Seq<bool>) -> Seq<SpecGate> {
    let n = secret.len() as int;
    seq![x_gate(n as usize)] + h_range(0, n + 1) + cnot_oracle(secret, n as usize, n) + h_range(0, n)
}

impl BernsteinVazirani {
    pub fn new(secret_string: Vec<bool>) -> (r: BernsteinVazirani)
        ensures
            r.secret_string@ == secret_string@,
    {
        BernsteinVazirani { secret_string }
    }

    /// The circuit; its name is `Bernstein-Vazirani_` and the secret bits.
    pub fn circuit(&self) -> (c: QuantumCircuit)
        requires
            self.secret_string@.len() < usize::MAX,
        ensures
            c.wf(),
            c.num_qubits == self.secret_string@.len() + 1,
            c.spec_layers() == add_gates_spec(Seq::empty(), bernstein_vazirani_gates(self.secret_string@)),
            c.measurements@ == measured_below(self.secret_string@.len() as int),
            c.name@ == "Bernstein-Vazirani_"@ + bit_chars(self.secret_string@),
    {
        let n = self.secret_string.len();
        let mut circuit = QuantumCircuit::new(n + 1);
        assert(circuit.spec_layers() =~= Seq::<Seq<SpecGate>>::empty());
        let ghost l0 = circuit.spec_layers();
        add_x(&mut circuit, n);
        let ghost l1 = circuit.spec_layers();
        add_h_range(&mut circuit, 0, n + 1);
        let ghost l2 = circuit.spec_layers();
        add_cnot_oracle(&mut circuit, &self.secret_string, n);
        let ghost l3 = circuit.spec_layers();
        add_h_range(&mut circuit, 0, n);
        proof {
            let g0 = seq![x_gate(n)];
            assert(add_gates_spec(l0, g0) == l1) by {
                lemma_add_gates_push(l0, Seq::empty(), x_gate(n));
                assert(Seq::<SpecGate>::empty().push(x_gate(n)) =~= g0);
            }
            lemma_add_gates_concat(l0, g0, h_range(0, n + 1));
            lemma_add_gates_concat(l0, g0 + h_range(0, n + 1), cnot_oracle(self.secret_string@, n, n as int));
            lemma_add_gates_concat(
                l0,
                g0 + h_range(0, n + 1) + cnot_oracle(self.secret_string@, n, n as int),
                h_range(0, n as int),
            );
        }
        measure_below(&mut circuit, n);
        assert(circuit.measurements@ =~= measured_below(n as int));
        let mut name: Vec<char> = Vec::new();
        crate::text::push_str_chars(&mut name, "Bernstein-Vazirani_");
        let ghost base = name@;
        for i in 0..n
            invariant
                n == self.secret_string@.len(),
                name@ == base + bit_chars(self.secret_string@.subrange(0, i as int)),
        {
            name.push(if self.secret_string[i] { '1' } else { '0' });
            assert(name@ =~= base + bit_chars(self.secret_string@.subrange(0, i + 1)));
        }
        assert(self.secret_string@.subrange(0, n as int) =~= self.secret_string@);
        circuit.name = crate::text::string_from_chars(name.as_slice());
        circuit
    }
}

impl QuantumAlgorithm for BernsteinVazirani {
    open spec fn can_build(&self) -> bool {
        self.secret_string@.len() < usize::MAX
    }

    open spec fn builds(&self, c: QuantumCircuit) -> bool {
        &&& c.num_qubits == self.secret_string@.len() + 1
        &&& c.spec_layers() == add_gates_spec(Seq::empty(), bernstein_vazirani_gates(self.secret_string@))
        &&& c.measurements@ == measured_below(self.secret_string@.len() as int)
        &&& c.name@ == "Bernstein-Vazirani_"@ + bit_chars(self.secret_string@)
    }

    open spec fn spec_name(&self) -> Seq<char> {
        "Bernstein-Vazirani"@
    }

    open spec fn spec_description(&self) -> Seq<char> {
        "Determines a secret bit string using quantum oracle"@
    }

    open spec fn spec_required_qubits(&self) -> nat {
        (self.secret_string@.len() + 1) as nat
    }

    fn build_circuit(&self) -> (c: QuantumCircuit) {
        self.circuit()
    }

    fn name(&self) -> (s: &'static str) {
        "Bernstein-Vazirani"
    }

    fn description(&self) -> (s: &'static str) {
        "Determines a secret bit string using quantum oracle"
    }

    fn required_qubits(&self) -> (n: usize)
        ensures
            n == self.secret_string@.len() + 1,
    {
        self.secret_string.len() + 1
    }
}

} // verus!

verus! {

/// The bits of the double pi.
pub const PI_BITS: u64 = 0x4009_21FB_5444_2D18;

/// One unit of the exponent field of a double.
pub const EXPONENT_UNIT: u64 = 0x0010_0000_0000_0000;

/// The sign bit of a double.
pub const SIGN_BIT: u64 = 0x8000_0000_0000_0000;

/// The bits of pi / 2^k: the exponent field of pi lowered by `k` (exact for
/// every `k` below 1024).
pub open spec fn pi_over_pow2(k: nat) -> u64 {
    (PI_BITS - k * EXPONENT_UNIT) as u64
}

/// Half of a double given by its bits: the exponent field lowered by one
/// (exact for a normal double whose exponent field is at least 2).
pub open spec fn half_angle(a: u64) -> u64 {
    (a - EXPONENT_UNIT) as u64
}

/// The negation of a double given by its bits: the sign bit flipped.
pub open spec fn negated_angle(a: u64) -> u64 {
    a ^ SIGN_BIT
}

/// A controlled phase of `angle`, as three RZ and two CNOT gates.
pub open spec fn controlled_phase_gates(control: QubitIndex, target: QubitIndex, angle: u64) -> Seq<SpecGate> {
    seq![
        rz_gate(target, half_angle(angle)),
        cnot_gate(control, target),
        rz_gate(target, half_angle(negated_angle(angle))),
        cnot_gate(control, target),
        rz_gate(control, half_angle(angle)),
    ]
}

/// The controlled phases of row `i` of the transform, for the controls
/// `i + 1` to `m - 1`.
pub open spec fn qft_phases(i: int, m: int) -> Seq<SpecGate>
    decreases m - i,
{
    if m <= i + 1 {
        Seq::empty()
    } else {
        qft_phases(i, m - 1) + controlled_phase_gates((m - 1) as usize, i as usize, pi_over_pow2((m - 1 - i) as nat))
    }
}

/// The first `r` rows of the transform on `n` qubits.
pub open spec fn qft_rows(n: int, r: int) -> Seq<SpecGate>
    decreases r,
{
    if r <= 0 {
        Seq::empty()
    } else {
        qft_rows(n, r - 1) + seq![h_gate((r - 1) as usize)] + qft_phases(r - 1, n)
    }
}

/// The swaps that reverse the order of `n` qubits, the first `m` of them.
pub open spec fn qft_swaps(n: int, m: int) -> Seq<SpecGate> {
    Seq::new(m as nat, |i: int| swap_gate(i as usize, (n - 1 - i) as usize))
}

/// The gates of the transform on `n` qubits.
pub open spec fn qft_gates(n: int) -> Seq<SpecGate> {
    qft_rows(n, n) + qft_swaps(n, n / 2)
}

/// The controlled phases of row `i` of the inverse transform, for the
/// controls `n - 1` down to `j`.
pub open spec fn inverse_qft_phases(i: int, n: int, j: int) -> Seq<SpecGate>
    decreases n - j,
{
    if j >= n {
        Seq::empty()
    } else {
        inverse_qft_phases(i, n, j + 1) + controlled_phase_gates(
            j as usize,
            i as usize,
            negated_angle(pi_over_pow2((j - i) as nat)),
        )
    }
}

/// The rows `n - 1` down to `i` of the inverse transform.
pub open spec fn inverse_qft_rows(n: int, i: int) -> Seq<SpecGate>
    decreases n - i,
{
    if i >= n {
        Seq::empty()
    } else {
        inverse_qft_rows(n, i + 1) + inverse_qft_phases(i, n, i + 1) + seq![h_gate(i as usize)]
    }
}

/// The gates of the inverse transform on `n` qubits.
pub open spec fn inverse_qft_gates(n: int) -> Seq<SpecGate> {
    qft_swaps(n, n / 2) + inverse_qft_rows(n, 0)
}

proof fn lemma_qft_phases_len(i: int, m: int)
    ensures
        qft_phases(i, m).len() == if m > i + 1 { 5 * (m - i - 1) } else { 0 },
    decreases m - i,
{
    if m > i + 1 {
        lemma_qft_phases_len(i, m - 1);
    }
}

proof fn lemma_inverse_qft_phases_len(i: int, n: int, j: int)
    ensures
        inverse_qft_phases(i, n, j).len() == if n > j { 5 * (n - j) } else { 0 },
    decreases n - j,
{
    if j < n {
        lemma_inverse_qft_phases_len(i, n, j + 1);
    }
}

/// The number of gates of row `k` of the transform on `n` qubits.
spec fn qft_row_len(n: int, k: int) -> int {
    1 + qft_phases(k, n).len() as int
}

/// The number of gates of the rows `a` to `b - 1`.
spec fn qft_row_sum(n: int, a: int, b: int) -> int
    decreases b - a,
{
    if b <= a {
        0
    } else {
        qft_row_sum(n, a, b - 1) + qft_row_len(n, b - 1)
    }
}

proof fn lemma_qft_row_sum_first(n: int, a: int, b: int)
    requires
        a < b,
    ensures
        qft_row_sum(n, a, b) == qft_row_len(n, a) + qft_row_sum(n, a + 1, b),
    decreases b - a,
{
    if a + 1 < b {
        lemma_qft_row_sum_first(n, a, b - 1);
    } else {
        assert(qft_row_sum(n, a, a) == 0);
        assert(qft_row_sum(n, a + 1, b) == 0);
    }
}

proof fn lemma_qft_rows_len(n: int, r: int)
    requires
        0 <= r,
    ensures
        qft_rows(n, r).len() == qft_row_sum(n, 0, r),
    decreases r,
{
    if r > 0 {
        lemma_qft_rows_len(n, r - 1);
    }
}

proof fn lemma_inverse_qft_rows_len(n: int, i: int)
    requires
        0 <= i,
    ensures
        inverse_qft_rows(n, i).len() == qft_row_sum(n, i, n),
    decreases n - i,
{
    if i < n {
        lemma_inverse_qft_rows_len(n, i + 1);
        lemma_qft_phases_len(i, n);
        lemma_inverse_qft_phases_len(i, n, i + 1);
        lemma_qft_row_sum_first(n, i, n);
    }
}

/// The inverse transform has as many gates as the transform: the circuits
/// they build on `n` qubits hold the same number of gates.
pub proof fn law_inverse_qft_gate_count(n: int)
    requires
        0 <= n,
    ensures
        inverse_qft_gates(n).len() == qft_gates(n).len(),
        total_gates(add_gates_spec(Seq::empty(), inverse_qft_gates(n))) == total_gates(add_gates_spec(Seq::empty(), qft_gates(n))),
{
    lemma_qft_rows_len(n, n);
    lemma_inverse_qft_rows_len(n, 0);
    crate::quantum::circuit::law_add_gates_count(Seq::empty(), inverse_qft_gates(n));
    crate::quantum::circuit::law_add_gates_count(Seq::empty(), qft_gates(n));
}

/// The bits of pi / 2^k.
fn pi_over_pow2_exec(k: u64) -> (b: u64)
    requires
        k < 64,
    ensures
        b == pi_over_pow2(k as nat),
        b >= 2 * EXPONENT_UNIT,
        b < SIGN_BIT,
{
    assert(k * EXPONENT_UNIT <= 63 * EXPONENT_UNIT) by (nonlinear_arith)
        requires k < 64;
    PI_BITS - k * EXPONENT_UNIT
}

proof fn lemma_negate_positive(a: u64)
    requires
        a < SIGN_BIT,
    ensures
        negated_angle(a) == a + SIGN_BIT,
{
    assert(a < 0x8000_0000_0000_0000u64 ==> a ^ 0x8000_0000_0000_0000u64 == a + 0x8000_0000_0000_0000u64) by (bit_vector);
}

/// Adds a controlled phase of `angle` (given by its bits).
fn add_controlled_phase(c: &mut QuantumCircuit, control: QubitIndex, target: QubitIndex, angle: u64)
    requires
        old(c).wf(),
        control < old(c).num_qubits,
        target < old(c).num_qubits,
        2 * EXPONENT_UNIT <= angle < SIGN_BIT,
    ensures
        same_frame(*final(c), *old(c)),
        final(c).spec_layers() == add_gates_spec(old(c).spec_layers(), controlled_phase_gates(control, target, angle)),
{
    let ghost l0 = c.spec_layers();
    let half = angle - EXPONENT_UNIT;
    proof {
        lemma_negate_positive(angle);
    }
    let neg = angle ^ SIGN_BIT;
    let neg_half = neg - EXPONENT_UNIT;
    add_rz(c, target, half);
    add_cnot(c, control, target);
    add_rz(c, target, neg_half);
    add_cnot(c, control, target);
    add_rz(c, control, half);
    proof {
        let g = controlled_phase_gates(control, target, angle);
        let e = Seq::<SpecGate>::empty();
        lemma_add_gates_push(l0, e, g[0]);
        lemma_add_gates_push(l0, e.push(g[0]), g[1]);
        lemma_add_gates_push(l0, e.push(g[0]).push(g[1]), g[2]);
        lemma_add_gates_push(l0, e.push(g[0]).push(g[1]).push(g[2]), g[3]);
        lemma_add_gates_push(l0, e.push(g[0]).push(g[1]).push(g[2]).push(g[3]), g[4]);
        assert(e.push(g[0]).push(g[1]).push(g[2]).push(g[3]).push(g[4]) =~= g);
    }
}

/// Adds the controlled phase with negated angle used by the inverse
/// transform: the angle is -pi / 2^k.
fn add_negated_controlled_phase(c: &mut QuantumCircuit, control: QubitIndex, target: QubitIndex, k: u64)
    requires
        old(c).wf(),
        control < old(c).num_qubits,
        target < old(c).num_qubits,
        k < 64,
    ensures
        same_frame(*final(c), *old(c)),
        final(c).spec_layers() == add_gates_spec(
            old(c).spec_layers(),
            controlled_phase_gates(control, target, negated_angle(pi_over_pow2(k as nat))),
        ),
{
    let ghost l0 = c.spec_layers();
    let a = pi_over_pow2_exec(k);
    proof {
        lemma_negate_positive(a);
    }
    let angle = a ^ SIGN_BIT;
    let half = angle - EXPONENT_UNIT;
    let back = angle ^ SIGN_BIT;
    assert(back == a) by {
        assert(a < 0x8000_0000_0000_0000u64 ==> (a ^ 0x8000_0000_0000_0000u64) ^ 0x8000_0000_0000_0000u64 == a) by (bit_vector);
    }
    let back_half = back - EXPONENT_UNIT;
    add_rz(c, target, half);
    add_cnot(c, control, target);
    add_rz(c, target, back_half);
    add_cnot(c, control, target);
    add_rz(c, control, half);
    proof {
        let g = controlled_phase_gates(control, target, angle);
        let e = Seq::<SpecGate>::empty();
        lemma_add_gates_push(l0, e, g[0]);
        lemma_add_gates_push(l0, e.push(g[0]), g[1]);
        lemma_add_gates_push(l0, e.push(g[0]).push(g[1]), g[2]);
        lemma_add_gates_push(l0, e.push(g[0]).push(g[1]).push(g[2]), g[3]);
        lemma_add_gates_push(l0, e.push(g[0]).push(g[1]).push(g[2]).push(g[3]), g[4]);
        assert(e.push(g[0]).push(g[1]).push(g[2]).push(g[3]).push(g[4]) =~= g);
    }
}

fn add_qft_swaps(c: &mut QuantumCircuit, n: usize)
    requires
        old(c).wf(),
        n <= old(c).num_qubits,
    ensures
        same_frame(*final(c), *old(c)),
        final(c).spec_layers() == add_gates_spec(old(c).spec_layers(), qft_swaps(n as int, (n / 2) as int)),
{
    let ghost l0 = c.spec_layers();
    assert(qft_swaps(n as int, 0) =~= Seq::<SpecGate>::empty());
    for i in 0..n / 2
        invariant
            n <= c.num_qubits,
            same_frame(*c, *old(c)),
            l0 == old(c).spec_layers(),
            c.spec_layers() == add_gates_spec(l0, qft_swaps(n as int, i as int)),
    {
        add_swap(c, i, n - 1 - i);
        proof {
            lemma_add_gates_push(l0, qft_swaps(n as int, i as int), swap_gate(i, (n - 1 - i) as usize));
            assert(qft_swaps(n as int, i as int).push(swap_gate(i, (n - 1 - i) as usize)) =~= qft_swaps(n as int, i + 1));
        }
    }
}

/// The quantum Fourier transform, or its inverse.
#[derive(Debug, Clone)]
pub struct QuantumFourierTransform {
    pub num_qubits: usize,
    pub inverse: bool,
}

impl QuantumFourierTransform {
    pub fn new(num_qubits: usize) -> (r: QuantumFourierTransform)
        ensures
            r.num_qubits == num_qubits,
            !r.inverse,
    {
        QuantumFourierTransform { num_qubits, inverse: false }
    }

    pub fn inverse(num_qubits: usize) -> (r: QuantumFourierTransform)
        ensures
            r.num_qubits == num_qubits,
            r.inverse,
    {
        QuantumFourierTransform { num_qubits, inverse: true }
    }

    /// The gates of the transform, or of its inverse.
    pub open spec fn spec_gates(&self) -> Seq<SpecGate> {
        if self.inverse {
            inverse_qft_gates(self.num_qubits as int)
        } else {
            qft_gates(self.num_qubits as int)
        }
    }

    /// The circuit, named `QFT_` (or `QFT_inv_`) and the number of qubits.
    /// Transforms on more than 64 qubits are refused by `requires`: the
    /// angles pi / 2^k are computed with a shift by `k`.
    pub fn circuit(&self) -> (c: QuantumCircuit)
        requires
            self.num_qubits <= 64,
        ensures
            c.wf(),
            c.num_qubits == self.num_qubits,
            c.spec_layers() == add_gates_spec(Seq::empty(), self.spec_gates()),
            c.measurements@ == Map::<QubitIndex, Option<bool>>::empty(),
            c.name@ == "QFT_"@ + (if self.inverse { "inv_"@ } else { Seq::<char>::empty() }) + decimal(self.num_qubits as nat),
    {
        let n = self.num_qubits;
        let mut circuit = QuantumCircuit::new(n);
        assert(circuit.spec_layers() =~= Seq::<Seq<SpecGate>>::empty());
        if self.inverse {
            self.add_inverse_qft(&mut circuit);
        } else {
            self.add_qft(&mut circuit);
        }
        let mut name: Vec<char> = Vec::new();
        crate::text::push_str_chars(&mut name, "QFT_");
        if self.inverse {
            crate::text::push_str_chars(&mut name, "inv_");
        }
        crate::text::push_decimal(&mut name, n as u64);
        proof {
            reveal_strlit("QFT_");
            reveal_strlit("inv_");
        }
        circuit.name = crate::text::string_from_chars(name.as_slice());
        assert(circuit.name@ =~= "QFT_"@ + (if self.inverse { "inv_"@ } else { Seq::<char>::empty() }) + decimal(n as nat));
        circuit
    }

    fn add_qft(&self, circuit: &mut QuantumCircuit)
        requires
            old(circuit).wf(),
            self.num_qubits == old(circuit).num_qubits,
            self.num_qubits <= 64,
        ensures
            same_frame(*final(circuit), *old(circuit)),
            final(circuit).spec_layers() == add_gates_spec(old(circuit).spec_layers(), qft_gates(self.num_qubits as int)),
    {
        let n = self.num_qubits;
        let ghost l0 = circuit.spec_layers();
        for i in 0..n
            invariant
                n == self.num_qubits,
                n == circuit.num_qubits,
                n <= 64,
                same_frame(*circuit, *old(circuit)),
                l0 == old(circuit).spec_layers(),
                circuit.spec_layers() == add_gates_spec(l0, qft_rows(n as int, i as int)),
        {
            add_h(circuit, i);
            proof {
                lemma_add_gates_push(l0, qft_rows(n as int, i as int), h_gate(i));
            }
            let ghost row_start = qft_rows(n as int, i as int).push(h_gate(i));
            assert(qft_phases(i as int, i + 1) =~= Seq::<SpecGate>::empty());
            assert(row_start + qft_phases(i as int, i + 1) =~= row_start);
            for j in (i + 1)..n
                invariant
                    n == circuit.num_qubits,
                    i < n <= 64,
                    same_frame(*circuit, *old(circuit)),
                    l0 == old(circuit).spec_layers(),
                    circuit.spec_layers() == add_gates_spec(l0, row_start + qft_phases(i as int, j as int)),
            {
                let ghost before = circuit.spec_layers();
                let angle = pi_over_pow2_exec((j - i) as u64);
                add_controlled_phase(circuit, j, i, angle);
                proof {
                    let g = controlled_phase_gates(j, i, pi_over_pow2((j - i) as nat));
                    lemma_add_gates_concat(l0, row_start + qft_phases(i as int, j as int), g);
                    assert(row_start + qft_phases(i as int, j as int) + g =~= row_start + qft_phases(i as int, j + 1));
                }
            }
            assert(row_start + qft_phases(i as int, n as int) =~= qft_rows(n as int, i + 1));
        }
        add_qft_swaps(circuit, n);
        proof {
            lemma_add_gates_concat(l0, qft_rows(n as int, n as int), qft_swaps(n as int, (n / 2) as int));
        }
    }

    fn add_inverse_qft(&self, circuit: &mut QuantumCircuit)
        requires
            old(circuit).wf(),
            self.num_qubits == old(circuit).num_qubits,
            self.num_qubits <= 64,
        ensures
            same_frame(*final(circuit), *old(circuit)),
            final(circuit).spec_layers() == add_gates_spec(old(circuit).spec_layers(), inverse_qft_gates(self.num_qubits as int)),
    {
        let n = self.num_qubits;
        let ghost l0 = circuit.spec_layers();
        add_qft_swaps(circuit, n);
        let ghost sw = qft_swaps(n as int, (n / 2) as int);
        assert(inverse_qft_rows(n as int, n as int) =~= Seq::<SpecGate>::empty());
        assert(sw + inverse_qft_rows(n as int, n as int) =~= sw);
        let mut i = n;
        while i > 0
            invariant
                n == self.num_qubits,
                n == circuit.num_qubits,
                n <= 64,
                i <= n,
                same_frame(*circuit, *old(circuit)),
                l0 == old(circuit).spec_layers(),
                circuit.spec_layers() == add_gates_spec(l0, sw + inverse_qft_rows(n as int, i as int)),
            decreases i,
        {
            i = i - 1;
            let ghost done = sw + inverse_qft_rows(n as int, i + 1);
            assert(inverse_qft_phases(i as int, n as int, n as int) =~= Seq::<SpecGate>::empty());
            assert(done + inverse_qft_phases(i as int, n as int, n as int) =~= done);
            let mut j = n;
            while j > i + 1
                invariant
                    n == circuit.num_qubits,
                    n <= 64,
                    i < n,
                    i + 1 <= j <= n,
                    same_frame(*circuit, *old(circuit)),
                    l0 == old(circuit).spec_layers(),
                    circuit.spec_layers() == add_gates_spec(l0, done + inverse_qft_phases(i as int, n as int, j as int)),
                decreases j,
            {
                j = j - 1;
                add_negated_controlled_phase(circuit, j, i, (j - i) as u64);
                proof {
                    let g = controlled_phase_gates(j, i, negated_angle(pi_over_pow2((j - i) as nat)));
                    lemma_add_gates_concat(l0, done + inverse_qft_phases(i as int, n as int, j + 1), g);
                    assert(done + inverse_qft_phases(i as int, n as int, j + 1) + g =~= done + inverse_qft_phases(i as int, n as int, j as int));
                }
            }
            add_h(circuit, i);
            proof {
                lemma_add_gates_push(l0, done + inverse_qft_phases(i as int, n as int, i + 1), h_gate(i));
                assert((done + inverse_qft_phases(i as int, n as int, i + 1)).push(h_gate(i)) =~= sw + inverse_qft_rows(n as int, i as int));
            }
        }
    }
}

impl QuantumAlgorithm for QuantumFourierTransform {
    open spec fn can_build(&self) -> bool {
        self.num_qubits <= 64
    }

    open spec fn builds(&self, c: QuantumCircuit) -> bool {
        &&& c.num_qubits == self.num_qubits
        &&& c.spec_layers() == add_gates_spec(Seq::empty(), self.spec_gates())
        &&& c.measurements@ == Map::<QubitIndex, Option<bool>>::empty()
        &&& c.name@ == "QFT_"@ + (if self.inverse { "inv_"@ } else { Seq::<char>::empty() }) + decimal(self.num_qubits as nat)
    }

    open spec fn spec_name(&self) -> Seq<char> {
        if self.inverse { "Inverse QFT"@ } else { "QFT"@ }
    }

    open spec fn spec_description(&self) -> Seq<char> {
        "Quantum Fourier Transform - quantum analog of classical DFT"@
    }

    open spec fn spec_required_qubits(&self) -> nat {
        self.num_qubits as nat
    }

    fn build_circuit(&self) -> (c: QuantumCircuit) {
        self.circuit()
    }

    fn name(&self) -> (s: &'static str) {
        if self.inverse {
            "Inverse QFT"
        } else {
            "QFT"
        }
    }

    fn description(&self) -> (s: &'static str) {
        "Quantum Fourier Transform - quantum analog of classical DFT"
    }

    fn required_qubits(&self) -> (n: usize)
        ensures
            n == self.num_qubits,
    {
        self.num_qubits
    }
}

} // verus!

verus! {

/// The binary digits of `v`, most significant first, without leading
/// zeros (`0` has the one digit `0`).
pub open spec fn binary_digits(v: nat) -> Seq<bool>
    decreases v,
{
    if v < 2 {
        seq![v == 1]
    } else {
        binary_digits(v / 2).push(v % 2 == 1)
    }
}

/// The binary digits of `v` left-padded with zeros to `width` digits, as
/// the format `{:0width$b}` writes them.
pub open spec fn padded_binary(v: nat, width: nat) -> Seq<bool> {
    let b = binary_digits(v);
    if b.len() < width {
        Seq::new((width - b.len()) as nat, |i: int| false) + b
    } else {
        b
    }
}

/// The number that binary digits stand for, the most significant first.
pub open spec fn bits_value(d: Seq<bool>) -> nat
    decreases d.len(),
{
    if d.len() == 0 {
        0
    } else {
        2 * bits_value(d.drop_last()) + if d.last() {
            1nat
        } else {
            0nat
        }
    }
}

proof fn lemma_zeros_value(k: nat)
    ensures
        bits_value(Seq::new(k, |i: int| false)) == 0,
    decreases k,
{
    if k > 0 {
        assert(Seq::new(k, |i: int| false).drop_last() =~= Seq::new((k - 1) as nat, |i: int| false));
        lemma_zeros_value((k - 1) as nat);
    }
}

proof fn lemma_zero_prefix_value(k: nat, b: Seq<bool>)
    ensures
        bits_value(Seq::new(k, |i: int| false) + b) == bits_value(b),
    decreases b.len(),
{
    let z = Seq::new(k, |i: int| false);
    if b.len() == 0 {
        assert(z + b =~= z);
        lemma_zeros_value(k);
    } else {
        assert((z + b).drop_last() =~= z + b.drop_last());
        assert((z + b).last() == b.last());
        lemma_zero_prefix_value(k, b.drop_last());
    }
}

proof fn lemma_binary_digits_value(v: nat)
    ensures
        bits_value(binary_digits(v)) == v,
        binary_digits(v).len() >= 1,
    decreases v,
{
    if v < 2 {
        assert(binary_digits(v).drop_last() =~= Seq::<bool>::empty());
        assert(bits_value(Seq::<bool>::empty()) == 0);
        assert(binary_digits(v).last() == (v == 1));
    } else {
        lemma_binary_digits_value(v / 2);
        assert(binary_digits(v).drop_last() =~= binary_digits(v / 2));
        assert(binary_digits(v).last() == (v % 2 == 1));
        assert(v == 2 * (v / 2) + v % 2);
    }
}

proof fn lemma_binary_digits_fit(v: nat, w: nat)
    requires
        w >= 1,
        v < vstd::arithmetic::power2::pow2(w),
    ensures
        binary_digits(v).len() <= w,
    decreases v,
{
    if v >= 2 {
        vstd::arithmetic::power2::lemma2_to64();
        vstd::arithmetic::power2::lemma_pow2_unfold(w);
        if w == 1 {
            assert(false);
        }
        lemma_binary_digits_fit(v / 2, (w - 1) as nat);
    }
}

/// The digits that mark an item on `width` qubits write the item in
/// binary, the most significant digit first: they stand for the item, they
/// are at least `width` long, and exactly `width` long when the item fits
/// in `width` digits (the zeros that fill up go in front).
pub proof fn law_padded_binary_value(v: nat, width: nat)
    ensures
        bits_value(padded_binary(v, width)) == v,
        padded_binary(v, width).len() >= width,
        width >= 1 && v < vstd::arithmetic::power2::pow2(width) ==> padded_binary(v, width).len() == width,
{
    let b = binary_digits(v);
    lemma_binary_digits_value(v);
    if b.len() < width {
        lemma_zero_prefix_value((width - b.len()) as nat, b);
    }
    if width >= 1 && v < vstd::arithmetic::power2::pow2(width) {
        lemma_binary_digits_fit(v, width);
    }
}

fn padded_binary_exec(v: usize, width: usize) -> (r: Vec<bool>)
    ensures
        r@ == padded_binary(v as nat, width as nat),
{
    let mut out: Vec<bool> = Vec::new();
    let mut x = v;
    assert(binary_digits(v as nat) =~= binary_digits(x as nat) + out@);
    loop
        invariant_except_break
            binary_digits(v as nat) == binary_digits(x as nat) + out@,
        ensures
            binary_digits(v as nat) == out@,
        decreases x,
    {
        let ghost prev = out@;
        out.insert(0, x % 2 == 1);
        assert(out@ =~= seq![x % 2 == 1] + prev);
        if x < 2 {
            assert(binary_digits(v as nat) =~= out@);
            break;
        }
        proof {
            assert(binary_digits(x as nat) == binary_digits((x / 2) as nat).push(x % 2 == 1));
            assert(binary_digits(x as nat) + prev =~= binary_digits((x / 2) as nat) + out@);
        }
        x = x / 2;
    }
    let ghost b = out@;
    let len = out.len();
    if len < width {
        let mut pad: Vec<bool> = Vec::new();
        for i in 0..width - len
            invariant
                pad@ =~= Seq::new(i as nat, |k: int| false),
        {
            pad.push(false);
        }
        pad.append(&mut out);
        assert(pad@ =~= Seq::new((width - b.len()) as nat, |i: int| false) + b);
        pad
    } else {
        out
    }
}

/// X gates on the qubits whose digit is `0`.
pub open spec fn zero_flips(digits: Seq<bool>, k: int) -> Seq<SpecGate>
    decreases k,
{
    if k <= 0 {
        Seq::empty()
    } else if !digits[k - 1] {
        zero_flips(digits, k - 1).push(x_gate((k - 1) as usize))
    } else {
        zero_flips(digits, k - 1)
    }
}

/// The flips that mark digits are X gates on exactly the qubits whose digit
/// is 0, among the first `k`, each once and in order of qubit.
pub proof fn law_zero_flips(digits: Seq<bool>, k: int)
    requires
        0 <= k <= digits.len(),
        digits.len() <= usize::MAX,
    ensures
        forall|j: int| 0 <= j < zero_flips(digits, k).len() ==> exists|i: int|
            0 <= i < k && !digits[i] && #[trigger] zero_flips(digits, k)[j] == x_gate(i as usize),
        forall|i: int| 0 <= i < k && !digits[i] ==> zero_flips(digits, k).contains(x_gate(i as usize)),
        forall|a: int, b: int| 0 <= a < b < zero_flips(digits, k).len() ==> (#[trigger] zero_flips(digits, k)[a]).qubits[0] < (#[trigger] zero_flips(digits, k)[b]).qubits[0],
        forall|j: int| 0 <= j < zero_flips(digits, k).len() ==> (#[trigger] zero_flips(digits, k)[j]).qubits[0] < k,
    decreases k,
{
    if k > 0 {
        law_zero_flips(digits, k - 1);
        let p = zero_flips(digits, k - 1);
        if !digits[k - 1] {
            let z = p.push(x_gate((k - 1) as usize));
            assert(zero_flips(digits, k) == z);
            assert forall|j: int| 0 <= j < z.len() implies exists|i: int|
                0 <= i < k && !digits[i] && #[trigger] z[j] == x_gate(i as usize) by {
                if j < p.len() {
                    assert(z[j] == p[j]);
                    let i = choose|i: int| 0 <= i < k - 1 && !digits[i] && #[trigger] p[j] == x_gate(i as usize);
                } else {
                    assert(z[j] == x_gate((k - 1) as usize));
                }
            }
            assert forall|i: int| 0 <= i < k && !digits[i] implies z.contains(x_gate(i as usize)) by {
                if i < k - 1 {
                    assert(p.contains(x_gate(i as usize)));
                    let j = choose|j: int| 0 <= j < p.len() && p[j] == x_gate(i as usize);
                    assert(z[j] == p[j]);
                } else {
                    assert(z[z.len() - 1] == x_gate(i as usize));
                }
            }
            assert forall|a: int, b: int| 0 <= a < b < z.len() implies (#[trigger] z[a]).qubits[0] < (#[trigger] z[b]).qubits[0] by {
                assert(z[a] == p[a]);
                if b < p.len() {
                    assert(z[b] == p[b]);
                } else {
                    assert(z[b] == x_gate((k - 1) as usize));
                    assert(x_gate((k - 1) as usize).qubits[0] == (k - 1) as usize);
                    assert(p[a].qubits[0] < k - 1);
                }
            }
            assert forall|j: int| 0 <= j < z.len() implies (#[trigger] z[j]).qubits[0] < k by {
                if j < p.len() {
                    assert(z[j] == p[j]);
                } else {
                    assert(z[j] == x_gate((k - 1) as usize));
                    assert(x_gate((k - 1) as usize).qubits[0] == (k - 1) as usize);
                }
            }
        }
    }
}

/// The multi-controlled Z of Grover search on `n` qubits: Z on one qubit,
/// CZ on two, and otherwise Z on every qubit.
pub open spec fn multi_controlled_z(n: nat) -> Seq<SpecGate> {
    if n == 1 {
        seq![z_gate(0)]
    } else if n == 2 {
        seq![cz_gate(0, 1)]
    } else {
        z_range(0, n as int)
    }
}

/// Marking one item: flip the qubits of its `0` digits, the controlled Z,
/// flip them back.
pub open spec fn mark_item_gates(n: nat, item: nat) -> Seq<SpecGate> {
    let d = padded_binary(item, n);
    zero_flips(d, d.len() as int) + multi_controlled_z(n) + zero_flips(d, d.len() as int)
}

/// The oracle marking the first `k` items.
pub open spec fn grover_oracle(n: nat, items: Seq<usize>, k: int) -> Seq<SpecGate>
    decreases k,
{
    if k <= 0 {
        Seq::empty()
    } else {
        grover_oracle(n, items, k - 1) + mark_item_gates(n, items[k - 1] as nat)
    }
}

/// The diffusion operator: H, X, the controlled Z, X, H.
pub open spec fn grover_diffusion(n: nat) -> Seq<SpecGate> {
    h_range(0, n as int) + x_range(0, n as int) + multi_controlled_z(n) + x_range(0, n as int) + h_range(0, n as int)
}

/// `k` rounds of oracle and diffusion.
pub open spec fn grover_rounds(n: nat, items: Seq<usize>, k: nat) -> Seq<SpecGate>
    decreases k,
{
    if k == 0 {
        Seq::empty()
    } else {
        grover_rounds(n, items, (k - 1) as nat) + grover_oracle(n, items, items.len() as int) + grover_diffusion(n)
    }
}

/// The gates of Grover search.
pub open spec fn grover_gates(n: nat, items: Seq<usize>, iterations: nat) -> Seq<SpecGate> {
    h_range(0, n as int) + grover_rounds(n, items, iterations)
}

/// Whether marking `item` flips only qubits the circuit has: every `0`
/// digit of its padded binary form is at a position below `n`.
pub open spec fn item_markable(n: nat, item: nat) -> bool {
    let d = padded_binary(item, n);
    forall|i: int| 0 <= i < d.len() && !d[i] ==> i < n
}

/// Grover search for the marked items, with a given number of rounds of
/// oracle and diffusion.
#[derive(Debug, Clone)]
pub struct GroverSearch {
    pub num_qubits: usize,
    pub marked_items: Vec<usize>,
    pub iterations: usize,
}

impl GroverSearch {
    /// The search; `iterations` is the number of rounds, usually
    /// round(pi / (4 theta) - 1/2) with sin(theta) = sqrt(m / 2^n) for `m`
    /// marked items among `2^n`.
    pub fn new(num_qubits: usize, marked_items: Vec<usize>, iterations: usize) -> (r: GroverSearch)
        ensures
            r.num_qubits == num_qubits,
            r.marked_items@ == marked_items@,
            r.iterations == iterations,
    {
        GroverSearch { num_qubits, marked_items, iterations }
    }

    /// Whether every marked item can be marked on the circuit.
    pub open spec fn markable(&self) -> bool {
        forall|k: int| 0 <= k < self.marked_items@.len() ==> item_markable(self.num_qubits as nat, #[trigger] self.marked_items@[k] as nat)
    }

    fn add_zero_flips(c: &mut QuantumCircuit, digits: &Vec<bool>)
        requires
            old(c).wf(),
            forall|i: int| 0 <= i < digits@.len() && !digits@[i] ==> i < old(c).num_qubits,
        ensures
            same_frame(*final(c), *old(c)),
            final(c).spec_layers() == add_gates_spec(old(c).spec_layers(), zero_flips(digits@, digits@.len() as int)),
    {
        let ghost l0 = c.spec_layers();
        for i in 0..digits.len()
            invariant
                forall|m: int| 0 <= m < digits@.len() && !digits@[m] ==> m < c.num_qubits,
                same_frame(*c, *old(c)),
                l0 == old(c).spec_layers(),
                c.spec_layers() == add_gates_spec(l0, zero_flips(digits@, i as int)),
        {
            if !digits[i] {
                add_x(c, i);
                proof {
                    lemma_add_gates_push(l0, zero_flips(digits@, i as int), x_gate(i));
                }
            }
        }
    }

    fn add_multi_controlled_z(&self, c: &mut QuantumCircuit)
        requires
            old(c).wf(),
            self.num_qubits == old(c).num_qubits,
        ensures
            same_frame(*final(c), *old(c)),
            final(c).spec_layers() == add_gates_spec(old(c).spec_layers(), multi_controlled_z(self.num_qubits as nat)),
    {
        let ghost l0 = c.spec_layers();
        if self.num_qubits == 1 {
            add_z(c, 0);
            proof {
                lemma_add_gates_push(l0, Seq::empty(), z_gate(0));
                assert(Seq::<SpecGate>::empty().push(z_gate(0)) =~= seq![z_gate(0)]);
            }
        } else if self.num_qubits == 2 {
            add_cz(c, 0, 1);
            proof {
                lemma_add_gates_push(l0, Seq::empty(), cz_gate(0, 1));
                assert(Seq::<SpecGate>::empty().push(cz_gate(0, 1)) =~= seq![cz_gate(0, 1)]);
            }
        } else {
            add_z_range(c, 0, self.num_qubits);
        }
    }

    fn add_oracle(&self, c: &mut QuantumCircuit)
        requires
            old(c).wf(),
            self.num_qubits == old(c).num_qubits,
            self.markable(),
        ensures
            same_frame(*final(c), *old(c)),
            final(c).spec_layers() == add_gates_spec(
                old(c).spec_layers(),
                grover_oracle(self.num_qubits as nat, self.marked_items@, self.marked_items@.len() as int),
            ),
    {
        let ghost l0 = c.spec_layers();
        let ghost n = self.num_qubits as nat;
        assert(grover_oracle(n, self.marked_items@, 0) =~= Seq::<SpecGate>::empty());
        for k in 0..self.marked_items.len()
            invariant
                self.num_qubits == c.num_qubits,
                n == self.num_qubits as nat,
                self.markable(),
                same_frame(*c, *old(c)),
                l0 == old(c).spec_layers(),
                c.spec_layers() == add_gates_spec(l0, grover_oracle(n, self.marked_items@, k as int)),
        {
            let item = self.marked_items[k];
            let digits = padded_binary_exec(item, self.num_qubits);
            assert(item_markable(n, item as nat));
            let ghost before = grover_oracle(n, self.marked_items@, k as int);
            let ghost fl = zero_flips(digits@, digits@.len() as int);
            Self::add_zero_flips(c, &digits);
            self.add_multi_controlled_z(c);
            Self::add_zero_flips(c, &digits);
            proof {
                lemma_add_gates_concat(l0, before, fl);
                lemma_add_gates_concat(l0, before + fl, multi_controlled_z(n));
                lemma_add_gates_concat(l0, before + fl + multi_controlled_z(n), fl);
                assert(before + fl + multi_controlled_z(n) + fl =~= grover_oracle(n, self.marked_items@, k + 1));
            }
        }
    }

    fn add_diffusion(&self, c: &mut QuantumCircuit)
        requires
            old(c).wf(),
            self.num_qubits == old(c).num_qubits,
        ensures
            same_frame(*final(c), *old(c)),
            final(c).spec_layers() == add_gates_spec(old(c).spec_layers(), grover_diffusion(self.num_qubits as nat)),
    {
        let ghost l0 = c.spec_layers();
        let n = self.num_qubits;
        add_h_range(c, 0, n);
        add_x_range(c, 0, n);
        self.add_multi_controlled_z(c);
        add_x_range(c, 0, n);
        add_h_range(c, 0, n);
        proof {
            let h = h_range(0, n as int);
            let x = x_range(0, n as int);
            let m = multi_controlled_z(n as nat);
            lemma_add_gates_concat(l0, h, x);
            lemma_add_gates_concat(l0, h + x, m);
            lemma_add_gates_concat(l0, h + x + m, x);
            lemma_add_gates_concat(l0, h + x + m + x, h);
        }
    }

    /// The circuit, named `Grover_<n>_qubits`, with every qubit measured.
    pub fn circuit(&self) -> (c: QuantumCircuit)
        requires
            self.iterations > 0 ==> self.markable(),
        ensures
            c.wf(),
            c.num_qubits == self.num_qubits,
            c.spec_layers() == add_gates_spec(
                Seq::empty(),
                grover_gates(self.num_qubits as nat, self.marked_items@, self.iterations as nat),
            ),
            c.measurements@ == measured_below(self.num_qubits as int),
            c.name@ == "Grover_"@ + decimal(self.num_qubits as nat) + "_qubits"@,
    {
        let n = self.num_qubits;
        let mut circuit = QuantumCircuit::new(n);
        assert(circuit.spec_layers() =~= Seq::<Seq<SpecGate>>::empty());
        let ghost l0 = circuit.spec_layers();
        add_h_range(&mut circuit, 0, n);
        let ghost h = h_range(0, n as int);
        assert(grover_rounds(n as nat, self.marked_items@, 0) =~= Seq::<SpecGate>::empty());
        assert(h + grover_rounds(n as nat, self.marked_items@, 0) =~= h);
        for r in 0..self.iterations
            invariant
                n == self.num_qubits,
                n == circuit.num_qubits,
                self.iterations > 0 ==> self.markable(),
                same_frame(circuit, circuit),
                circuit.wf(),
                circuit.measurements@ == Map::<QubitIndex, Option<bool>>::empty(),
                circuit.name@ == default_circuit_name(n),
                l0 == Seq::<Seq<SpecGate>>::empty(),
                circuit.spec_layers() == add_gates_spec(l0, h + grover_rounds(n as nat, self.marked_items@, r as nat)),
        {
            let ghost before = h + grover_rounds(n as nat, self.marked_items@, r as nat);
            self.add_oracle(&mut circuit);
            self.add_diffusion(&mut circuit);
            proof {
                let o = grover_oracle(n as nat, self.marked_items@, self.marked_items@.len() as int);
                let d = grover_diffusion(n as nat);
                lemma_add_gates_concat(l0, before, o);
                lemma_add_gates_concat(l0, before + o, d);
                assert(before + o + d =~= h + grover_rounds(n as nat, self.marked_items@, (r + 1) as nat));
            }
        }
        circuit.measure_all();
        assert(circuit.measurements@ =~= measured_below(n as int));
        let mut name: Vec<char> = Vec::new();
        crate::text::push_str_chars(&mut name, "Grover_");
        crate::text::push_decimal(&mut name, n as u64);
        crate::text::push_str_chars(&mut name, "_qubits");
        circuit.name = crate::text::string_from_chars(name.as_slice());
        circuit
    }
}

impl QuantumAlgorithm for GroverSearch {
    open spec fn can_build(&self) -> bool {
        self.iterations > 0 ==> self.markable()
    }

    open spec fn builds(&self, c: QuantumCircuit) -> bool {
        &&& c.num_qubits == self.num_qubits
        &&& c.spec_layers() == add_gates_spec(
            Seq::empty(),
            grover_gates(self.num_qubits as nat, self.marked_items@, self.iterations as nat),
        )
        &&& c.measurements@ == measured_below(self.num_qubits as int)
        &&& c.name@ == "Grover_"@ + decimal(self.num_qubits as nat) + "_qubits"@
    }

    open spec fn spec_name(&self) -> Seq<char> {
        "Grover Search"@
    }

    open spec fn spec_description(&self) -> Seq<char> {
        "Searches unsorted database quadratically faster than classical"@
    }

    open spec fn spec_required_qubits(&self) -> nat {
        self.num_qubits as nat
    }

    fn build_circuit(&self) -> (c: QuantumCircuit) {
        self.circuit()
    }

    fn name(&self) -> (s: &'static str) {
        "Grover Search"
    }

    fn description(&self) -> (s: &'static str) {
        "Searches unsorted database quadratically faster than classical"
    }

    fn required_qubits(&self) -> (n: usize)
        ensures
            n == self.num_qubits,
    {
        self.num_qubits
    }
}

} // verus!

verus! {

/// The oracle of Deutsch-Jozsa.
#[derive(Debug, Clone)]
pub enum OracleType {
    /// The function is constant, with this value.
    Constant(bool),
    /// The function is balanced: the input bits set in the pattern flip the
    /// output.
    Balanced(Vec<bool>),
}

/// Deutsch-Jozsa: tells a constant function from a balanced one.
#[derive(Debug, Clone)]
pub struct DeutschJozsa {
    pub num_qubits: usize,
    pub oracle_type: OracleType,
}

/// The oracle's gates: for a constant `true`, an X on the ancilla `n`; for a
/// balanced pattern, a CNOT onto the ancilla from each qubit set in it.
pub open spec fn deutsch_jozsa_oracle(oracle: OracleType, n: usize) -> Seq<SpecGate> {
    match oracle {
        OracleType::Constant(v) => if v { seq![x_gate(n)] } else { Seq::empty() },
        OracleType::Balanced(p) => cnot_oracle(p@, n, p@.len() as int),
    }
}

/// The gates of Deutsch-Jozsa on `n` input qubits: X on the ancilla,
/// Hadamard on all qubits, the oracle, Hadamard on the inputs.
pub open spec fn deutsch_jozsa_gates(n: usize, oracle: OracleType) -> Seq<SpecGate> {
    seq![x_gate(n)] + h_range(0, n + 1) + deutsch_jozsa_oracle(oracle, n) + h_range(0, n as int)
}

impl DeutschJozsa {
    pub fn constant(num_qubits: usize, value: bool) -> (r: DeutschJozsa)
        ensures
            r.num_qubits == num_qubits,
            r.oracle_type matches OracleType::Constant(v) && v == value,
    {
        DeutschJozsa { num_qubits, oracle_type: OracleType::Constant(value) }
    }

    pub fn balanced(oracle_pattern: Vec<bool>) -> (r: DeutschJozsa)
        ensures
            r.num_qubits == oracle_pattern@.len(),
            r.oracle_type matches OracleType::Balanced(p) && p@ == oracle_pattern@,
    {
        DeutschJozsa { num_qubits: oracle_pattern.len(), oracle_type: OracleType::Balanced(oracle_pattern) }
    }

    /// Whether the circuit can be built: the ancilla index fits, and every
    /// qubit set in a balanced pattern is a qubit of the circuit.
    pub open spec fn buildable(&self) -> bool {
        &&& self.num_qubits < usize::MAX
        &&& (self.oracle_type matches OracleType::Balanced(p) ==> forall|i: int|
            0 <= i < p@.len() && p@[i] ==> i <= self.num_qubits)
    }

    /// The circuit, named `Deutsch-Jozsa`, with the input qubits measured.
    pub fn circuit(&self) -> (c: QuantumCircuit)
        requires
            self.buildable(),
        ensures
            c.wf(),
            c.num_qubits == self.num_qubits + 1,
            c.spec_layers() == add_gates_spec(Seq::empty(), deutsch_jozsa_gates(self.num_qubits, self.oracle_type)),
            c.measurements@ == measured_below(self.num_qubits as int),
            c.name@ == "Deutsch-Jozsa"@,
    {
        let n = self.num_qubits;
        let mut circuit = QuantumCircuit::new(n + 1);
        assert(circuit.spec_layers() =~= Seq::<Seq<SpecGate>>::empty());
        let ghost l0 = circuit.spec_layers();
        add_x(&mut circuit, n);
        add_h_range(&mut circuit, 0, n + 1);
        let ghost l2 = circuit.spec_layers();
        match &self.oracle_type {
            OracleType::Constant(value) => {
                if *value {
                    add_x(&mut circuit, n);
                    proof {
                        lemma_add_gates_push(l2, Seq::empty(), x_gate(n));
                        assert(Seq::<SpecGate>::empty().push(x_gate(n)) =~= seq![x_gate(n)]);
                    }
                }
            },
            OracleType::Balanced(pattern) => {
                add_cnot_oracle(&mut circuit, pattern, n);
            },
        }
        add_h_range(&mut circuit, 0, n);
        proof {
            let g0 = seq![x_gate(n)];
            lemma_add_gates_push(l0, Seq::empty(), x_gate(n));
            assert(Seq::<SpecGate>::empty().push(x_gate(n)) =~= g0);
            let o = deutsch_jozsa_oracle(self.oracle_type, n);
            lemma_add_gates_concat(l0, g0, h_range(0, n + 1));
            lemma_add_gates_concat(l0, g0 + h_range(0, n + 1), o);
            lemma_add_gates_concat(l0, g0 + h_range(0, n + 1) + o, h_range(0, n as int));
        }
        measure_below(&mut circuit, n);
        assert(circuit.measurements@ =~= measured_below(n as int));
        circuit.name = crate::text::string_from_chars(&['D', 'e', 'u', 't', 's', 'c', 'h', '-', 'J', 'o', 'z', 's', 'a']);
        proof {
            reveal_strlit("Deutsch-Jozsa");
        }
        assert(circuit.name@ =~= "Deutsch-Jozsa"@);
        circuit
    }
}

impl QuantumAlgorithm for DeutschJozsa {
    open spec fn can_build(&self) -> bool {
        self.buildable()
    }

    open spec fn builds(&self, c: QuantumCircuit) -> bool {
        &&& c.num_qubits == self.num_qubits + 1
        &&& c.spec_layers() == add_gates_spec(Seq::empty(), deutsch_jozsa_gates(self.num_qubits, self.oracle_type))
        &&& c.measurements@ == measured_below(self.num_qubits as int)
        &&& c.name@ == "Deutsch-Jozsa"@
    }

    open spec fn spec_name(&self) -> Seq<char> {
        "Deutsch-Jozsa"@
    }

    open spec fn spec_description(&self) -> Seq<char> {
        "Determines if function is constant or balanced"@
    }

    open spec fn spec_required_qubits(&self) -> nat {
        (self.num_qubits + 1) as nat
    }

    fn build_circuit(&self) -> (c: QuantumCircuit) {
        self.circuit()
    }

    fn name(&self) -> (s: &'static str) {
        "Deutsch-Jozsa"
    }

    fn description(&self) -> (s: &'static str) {
        "Determines if function is constant or balanced"
    }

    fn required_qubits(&self) -> (n: usize)
        ensures
            n == self.num_qubits + 1,
    {
        self.num_qubits + 1
    }
}

/// Quantum phase estimation.
#[derive(Debug, Clone)]
pub struct QuantumPhaseEstimation {
    pub precision_qubits: usize,
    pub eigenstate_qubits: usize,
}

impl QuantumPhaseEstimation {
    pub fn new(precision_qubits: usize, eigenstate_qubits: usize) -> (r: QuantumPhaseEstimation)
        ensures
            r.precision_qubits == precision_qubits,
            r.eigenstate_qubits == eigenstate_qubits,
    {
        QuantumPhaseEstimation { precision_qubits, eigenstate_qubits }
    }

    /// The circuit, named `QPE_<precision>_<eigenstate>`: Hadamard on the
    /// precision qubits, controlled-Z from each precision qubit `i` onto
    /// every eigenstate qubit, repeated `2^i` times, then the layers of the
    /// inverse transform on the precision qubits appended, and the
    /// precision qubits measured.
    ///
    /// Appending the transform's circuit, which has only the precision
    /// qubits, succeeds only when there are no eigenstate qubits: with any,
    /// building fails, and `requires` leaves that out. The repetition count
    /// `2^i` is an `i32` shift, so at most 32 precision qubits.
    pub fn circuit(&self) -> (c: QuantumCircuit)
        requires
            self.eigenstate_qubits == 0,
            self.precision_qubits <= 32,
        ensures
            c.wf(),
            c.num_qubits == self.precision_qubits,
            c.spec_layers() == add_gates_spec(Seq::empty(), h_range(0, self.precision_qubits as int))
                + add_gates_spec(Seq::empty(), inverse_qft_gates(self.precision_qubits as int)),
            c.measurements@ == measured_below(self.precision_qubits as int),
            c.name@ == "QPE_"@ + decimal(self.precision_qubits as nat) + "_"@ + decimal(self.eigenstate_qubits as nat),
    {
        let p = self.precision_qubits;
        let total = p + self.eigenstate_qubits;
        let mut circuit = QuantumCircuit::new(total);
        assert(circuit.spec_layers() =~= Seq::<Seq<SpecGate>>::empty());
        add_h_range(&mut circuit, 0, p);
        let ghost after_h = circuit.spec_layers();
        for i in 0..p
            invariant
                p == self.precision_qubits,
                total == p,
                circuit.wf(),
                circuit.num_qubits == total,
                circuit.spec_layers() == after_h,
                circuit.measurements@ == Map::<QubitIndex, Option<bool>>::empty(),
                circuit.name@ == default_circuit_name(total),
                p <= 32,
        {
            let power: u64 = 1u64 << (i as u64);
            for _k in 0..power
                invariant
                    total == p,
                    i < p,
                    circuit.wf(),
                    circuit.num_qubits == total,
                    circuit.spec_layers() == after_h,
                    circuit.measurements@ == Map::<QubitIndex, Option<bool>>::empty(),
                    circuit.name@ == default_circuit_name(total),
            {
                for j in p..total
                    invariant
                        total == p,
                {
                }
            }
        }
        let qft = QuantumFourierTransform::inverse(p);
        let qft_circuit = qft.circuit();
        let r = circuit.compose(&qft_circuit);
        proof {
            crate::quantum::circuit::lemma_first_bad_layer_none(qft_circuit.spec_layers(), p, 0);
        }
        measure_below(&mut circuit, p);
        assert(circuit.measurements@ =~= measured_below(p as int));
        let mut name: Vec<char> = Vec::new();
        crate::text::push_str_chars(&mut name, "QPE_");
        crate::text::push_decimal(&mut name, p as u64);
        crate::text::push_str_chars(&mut name, "_");
        crate::text::push_decimal(&mut name, self.eigenstate_qubits as u64);
        circuit.name = crate::text::string_from_chars(name.as_slice());
        circuit
    }
}

impl QuantumAlgorithm for QuantumPhaseEstimation {
    open spec fn can_build(&self) -> bool {
        self.eigenstate_qubits == 0 && self.precision_qubits <= 32
    }

    open spec fn builds(&self, c: QuantumCircuit) -> bool {
        &&& c.num_qubits == self.precision_qubits
        &&& c.spec_layers() == add_gates_spec(Seq::empty(), h_range(0, self.precision_qubits as int))
            + add_gates_spec(Seq::empty(), inverse_qft_gates(self.precision_qubits as int))
        &&& c.measurements@ == measured_below(self.precision_qubits as int)
        &&& c.name@ == "QPE_"@ + decimal(self.precision_qubits as nat) + "_"@ + decimal(self.eigenstate_qubits as nat)
    }

    open spec fn spec_name(&self) -> Seq<char> {
        "Quantum Phase Estimation"@
    }

    open spec fn spec_description(&self) -> Seq<char> {
        "Estimates eigenvalue phases of unitary operators"@
    }

    open spec fn spec_required_qubits(&self) -> nat {
        (self.precision_qubits + self.eigenstate_qubits) as nat
    }

    fn build_circuit(&self) -> (c: QuantumCircuit) {
        self.circuit()
    }

    fn name(&self) -> (s: &'static str) {
        "Quantum Phase Estimation"
    }

    fn description(&self) -> (s: &'static str) {
        "Estimates eigenvalue phases of unitary operators"
    }

    fn required_qubits(&self) -> (n: usize)
        ensures
            n == self.precision_qubits + self.eigenstate_qubits,
    {
        self.precision_qubits + self.eigenstate_qubits
    }
}

} // verus!

verus! {

/// The smallest `k` with `2^k >= n`, and `0` for `n <= 1`.
pub open spec fn ceil_log2(n: nat) -> nat
    decreases n,
{
    if n <= 1 {
        0
    } else {
        1 + ceil_log2(((n + 1) / 2) as nat)
    }
}

/// Shor's factoring algorithm, simplified.
#[derive(Debug, Clone)]
pub struct ShorAlgorithm {
    pub number_to_factor: u64,
    pub register_size: usize,
}

impl ShorAlgorithm {
    /// The algorithm for `number_to_factor`, with a register of
    /// `ceil(log2(number_to_factor)) + 1` qubits.
    pub fn new(number_to_factor: u64) -> (r: ShorAlgorithm)
        ensures
            r.number_to_factor == number_to_factor,
            r.register_size == ceil_log2(number_to_factor as nat) + 1,
            r.register_size <= 65,
    {
        let mut x = number_to_factor;
        let mut k: usize = 0;
        proof {
            vstd::arithmetic::power2::lemma2_to64();
            lemma_ceil_log2_bound(number_to_factor as nat, 64);
        }
        while x > 1
            invariant
                ceil_log2(number_to_factor as nat) == k + ceil_log2(x as nat),
                ceil_log2(number_to_factor as nat) <= 64,
            decreases x,
        {
            assert(((x + 1) / 2) as nat == (x / 2 + x % 2) as nat);
            x = x / 2 + x % 2;
            k = k + 1;
        }
        ShorAlgorithm { number_to_factor, register_size: k + 1 }
    }
}

proof fn lemma_ceil_log2_bound(n: nat, m: nat)
    requires
        n <= vstd::arithmetic::power2::pow2(m),
    ensures
        ceil_log2(n) <= m,
    decreases m,
{
    if n > 1 {
        if m == 0 {
            vstd::arithmetic::power2::lemma2_to64();
        } else {
            vstd::arithmetic::power2::lemma_pow2_unfold(m);
            lemma_ceil_log2_bound(((n + 1) / 2) as nat, (m - 1) as nat);
        }
    }
}

impl QuantumAlgorithm for ShorAlgorithm {
    open spec fn can_build(&self) -> bool {
        false
    }

    /// Building always fails, so no circuit is described.
    open spec fn builds(&self, c: QuantumCircuit) -> bool {
        false
    }

    open spec fn spec_name(&self) -> Seq<char> {
        "Shor's Algorithm"@
    }

    open spec fn spec_description(&self) -> Seq<char> {
        "Factorizes integers exponentially faster than classical algorithms"@
    }

    open spec fn spec_required_qubits(&self) -> nat {
        (3 * self.register_size) as nat
    }

    /// Building always fails: the inverse transform's circuit, on the
    /// counting qubits only, cannot be appended to the circuit, which also
    /// has the register's qubits.
    fn build_circuit(&self) -> (c: QuantumCircuit) {
        let counting = 2 * self.register_size;
        let total = counting + self.register_size;
        let mut circuit = QuantumCircuit::new(total);
        add_h_range(&mut circuit, 0, counting);
        add_x(&mut circuit, counting);
        for i in 0..counting
            invariant
                circuit.wf(),
                circuit.num_qubits == total,
                counting <= total,
        {
            for j in counting..total
                invariant
                    circuit.wf(),
                    circuit.num_qubits == total,
                    i < counting <= total,
            {
                add_cnot(&mut circuit, i, j);
            }
        }
        let qft = QuantumFourierTransform::inverse(counting);
        let qft_circuit = qft.circuit();
        circuit.compose(&qft_circuit).unwrap();
        measure_below(&mut circuit, counting);
        circuit
    }

    fn name(&self) -> (s: &'static str) {
        "Shor's Algorithm"
    }

    fn description(&self) -> (s: &'static str) {
        "Factorizes integers exponentially faster than classical algorithms"
    }

    fn required_qubits(&self) -> (n: usize) {
        3 * self.register_size
    }
}

} // verus!

verus! {

/// One of the library's algorithms.
#[derive(Debug, Clone)]
pub enum LibraryAlgorithm {
    BernsteinVazirani(BernsteinVazirani),
    GroverSearch(GroverSearch),
    QuantumFourierTransform(QuantumFourierTransform),
    QuantumPhaseEstimation(QuantumPhaseEstimation),
    ShorAlgorithm(ShorAlgorithm),
    DeutschJozsa(DeutschJozsa),
}

impl QuantumAlgorithm for LibraryAlgorithm {
    open spec fn can_build(&self) -> bool {
        match self {
            LibraryAlgorithm::BernsteinVazirani(a) => a.can_build(),
            LibraryAlgorithm::GroverSearch(a) => a.can_build(),
            LibraryAlgorithm::QuantumFourierTransform(a) => a.can_build(),
            LibraryAlgorithm::QuantumPhaseEstimation(a) => a.can_build(),
            LibraryAlgorithm::ShorAlgorithm(a) => a.can_build(),
            LibraryAlgorithm::DeutschJozsa(a) => a.can_build(),
        }
    }

    open spec fn builds(&self, c: QuantumCircuit) -> bool {
        match self {
            LibraryAlgorithm::BernsteinVazirani(a) => a.builds(c),
            LibraryAlgorithm::GroverSearch(a) => a.builds(c),
            LibraryAlgorithm::QuantumFourierTransform(a) => a.builds(c),
            LibraryAlgorithm::QuantumPhaseEstimation(a) => a.builds(c),
            LibraryAlgorithm::ShorAlgorithm(a) => a.builds(c),
            LibraryAlgorithm::DeutschJozsa(a) => a.builds(c),
        }
    }

    open spec fn spec_name(&self) -> Seq<char> {
        match self {
            LibraryAlgorithm::BernsteinVazirani(a) => a.spec_name(),
            LibraryAlgorithm::GroverSearch(a) => a.spec_name(),
            LibraryAlgorithm::QuantumFourierTransform(a) => a.spec_name(),
            LibraryAlgorithm::QuantumPhaseEstimation(a) => a.spec_name(),
            LibraryAlgorithm::ShorAlgorithm(a) => a.spec_name(),
            LibraryAlgorithm::DeutschJozsa(a) => a.spec_name(),
        }
    }

    open spec fn spec_description(&self) -> Seq<char> {
        match self {
            LibraryAlgorithm::BernsteinVazirani(a) => a.spec_description(),
            LibraryAlgorithm::GroverSearch(a) => a.spec_description(),
            LibraryAlgorithm::QuantumFourierTransform(a) => a.spec_description(),
            LibraryAlgorithm::QuantumPhaseEstimation(a) => a.spec_description(),
            LibraryAlgorithm::ShorAlgorithm(a) => a.spec_description(),
            LibraryAlgorithm::DeutschJozsa(a) => a.spec_description(),
        }
    }

    open spec fn spec_required_qubits(&self) -> nat {
        match self {
            LibraryAlgorithm::BernsteinVazirani(a) => a.spec_required_qubits(),
            LibraryAlgorithm::GroverSearch(a) => a.spec_required_qubits(),
            LibraryAlgorithm::QuantumFourierTransform(a) => a.spec_required_qubits(),
            LibraryAlgorithm::QuantumPhaseEstimation(a) => a.spec_required_qubits(),
            LibraryAlgorithm::ShorAlgorithm(a) => a.spec_required_qubits(),
            LibraryAlgorithm::DeutschJozsa(a) => a.spec_required_qubits(),
        }
    }

    fn build_circuit(&self) -> (c: QuantumCircuit) {
        match self {
            LibraryAlgorithm::BernsteinVazirani(a) => a.build_circuit(),
            LibraryAlgorithm::GroverSearch(a) => a.build_circuit(),
            LibraryAlgorithm::QuantumFourierTransform(a) => a.build_circuit(),
            LibraryAlgorithm::QuantumPhaseEstimation(a) => a.build_circuit(),
            LibraryAlgorithm::ShorAlgorithm(a) => a.build_circuit(),
            LibraryAlgorithm::DeutschJozsa(a) => a.build_circuit(),
        }
    }

    fn name(&self) -> (s: &'static str) {
        match self {
            LibraryAlgorithm::BernsteinVazirani(a) => a.name(),
            LibraryAlgorithm::GroverSearch(a) => a.name(),
            LibraryAlgorithm::QuantumFourierTransform(a) => a.name(),
            LibraryAlgorithm::QuantumPhaseEstimation(a) => a.name(),
            LibraryAlgorithm::ShorAlgorithm(a) => a.name(),
            LibraryAlgorithm::DeutschJozsa(a) => a.name(),
        }
    }

    fn description(&self) -> (s: &'static str) {
        match self {
            LibraryAlgorithm::BernsteinVazirani(a) => a.description(),
            LibraryAlgorithm::GroverSearch(a) => a.description(),
            LibraryAlgorithm::QuantumFourierTransform(a) => a.description(),
            LibraryAlgorithm::QuantumPhaseEstimation(a) => a.description(),
            LibraryAlgorithm::ShorAlgorithm(a) => a.description(),
            LibraryAlgorithm::DeutschJozsa(a) => a.description(),
        }
    }

    fn required_qubits(&self) -> (n: usize) {
        match self {
            LibraryAlgorithm::BernsteinVazirani(a) => a.required_qubits(),
            LibraryAlgorithm::GroverSearch(a) => a.required_qubits(),
            LibraryAlgorithm::QuantumFourierTransform(a) => a.required_qubits(),
            LibraryAlgorithm::QuantumPhaseEstimation(a) => a.required_qubits(),
            LibraryAlgorithm::ShorAlgorithm(a) => a.required_qubits(),
            LibraryAlgorithm::DeutschJozsa(a) => a.required_qubits(),
        }
    }
}

/// The secret bits of a string: `1` is a set bit, any other character a
/// clear one.
pub open spec fn secret_bits(s: Seq<char>) -> Seq<bool> {
    s.map_values(|c: char| c == '1')
}

/// The library of algorithms.
pub struct AlgorithmLibrary;

impl AlgorithmLibrary {
    pub fn bernstein_vazirani(secret: &str) -> (r: LibraryAlgorithm)
        ensures
            r matches LibraryAlgorithm::BernsteinVazirani(a) && a.secret_string@ == secret_bits(secret@),
    {
        let cs = crate::text::chars_of(secret);
        let mut bits: Vec<bool> = Vec::new();
        for i in 0..cs.len()
            invariant
                cs@ == secret@,
                bits@ == secret_bits(cs@.subrange(0, i as int)),
        {
            bits.push(cs[i] == '1');
            assert(bits@ =~= secret_bits(cs@.subrange(0, i + 1)));
        }
        assert(cs@.subrange(0, cs.len() as int) =~= cs@);
        LibraryAlgorithm::BernsteinVazirani(BernsteinVazirani::new(bits))
    }

    pub fn grover_search(num_qubits: usize, targets: Vec<usize>, iterations: usize) -> (r: LibraryAlgorithm)
        ensures
            r matches LibraryAlgorithm::GroverSearch(a) && a.num_qubits == num_qubits
                && a.marked_items@ == targets@ && a.iterations == iterations,
    {
        LibraryAlgorithm::GroverSearch(GroverSearch::new(num_qubits, targets, iterations))
    }

    pub fn qft(num_qubits: usize, inverse: bool) -> (r: LibraryAlgorithm)
        ensures
            r matches LibraryAlgorithm::QuantumFourierTransform(a) && a.num_qubits == num_qubits && a.inverse == inverse,
    {
        if inverse {
            LibraryAlgorithm::QuantumFourierTransform(QuantumFourierTransform::inverse(num_qubits))
        } else {
            LibraryAlgorithm::QuantumFourierTransform(QuantumFourierTransform::new(num_qubits))
        }
    }

    pub fn phase_estimation(precision: usize, eigenstate: usize) -> (r: LibraryAlgorithm)
        ensures
            r matches LibraryAlgorithm::QuantumPhaseEstimation(a) && a.precision_qubits == precision
                && a.eigenstate_qubits == eigenstate,
    {
        LibraryAlgorithm::QuantumPhaseEstimation(QuantumPhaseEstimation::new(precision, eigenstate))
    }

    pub fn shor_factoring(number: u64) -> (r: LibraryAlgorithm)
        ensures
            r matches LibraryAlgorithm::ShorAlgorithm(a) && a.number_to_factor == number
                && a.register_size == ceil_log2(number as nat) + 1,
    {
        LibraryAlgorithm::ShorAlgorithm(ShorAlgorithm::new(number))
    }

    pub fn deutsch_jozsa_constant(num_qubits: usize, value: bool) -> (r: LibraryAlgorithm)
        ensures
            r matches LibraryAlgorithm::DeutschJozsa(a) && a.num_qubits == num_qubits
                && (a.oracle_type matches OracleType::Constant(v) && v == value),
    {
        LibraryAlgorithm::DeutschJozsa(DeutschJozsa::constant(num_qubits, value))
    }

    pub fn deutsch_jozsa_balanced(pattern: Vec<bool>) -> (r: LibraryAlgorithm)
        ensures
            r matches LibraryAlgorithm::DeutschJozsa(a) && a.num_qubits == pattern@.len()
                && (a.oracle_type matches OracleType::Balanced(p) && p@ == pattern@),
    {
        LibraryAlgorithm::DeutschJozsa(DeutschJozsa::balanced(pattern))
    }

    /// The names of the algorithms of the library.
    pub fn list_algorithms() -> (r: Vec<&'static str>)
        ensures
            r@.len() == 6,
            r@[0]@ == "Bernstein-Vazirani"@,
            r@[1]@ == "Grover Search"@,
            r@[2]@ == "Quantum Fourier Transform"@,
            r@[3]@ == "Quantum Phase Estimation"@,
            r@[4]@ == "Shor's Algorithm"@,
            r@[5]@ == "Deutsch-Jozsa"@,
    {
        let mut r: Vec<&'static str> = Vec::new();
        r.push("Bernstein-Vazirani");
        r.push("Grover Search");
        r.push("Quantum Fourier Transform");
        r.push("Quantum Phase Estimation");
        r.push("Shor's Algorithm");
        r.push("Deutsch-Jozsa");
        r
    }
}

/// The bits of pi / 3.
pub const PI_OVER_3_BITS: u64 = 0x3FF0_C152_382D_7365;

/// One single-qubit layer of the supremacy-inspired circuit: Hadamard on
/// every qubit in even layers, RY(pi / 3) in odd ones.
pub open spec fn supremacy_single_layer(n: nat, layer: nat) -> Seq<SpecGate> {
    if layer % 2 == 0 {
        h_range(0, n as int)
    } else {
        Seq::new(n, |i: int| crate::quantum::gates::gate(crate::quantum::gates::SpecGateType::RY(PI_OVER_3_BITS), seq![i as usize]))
    }
}

/// CNOT gates between the qubit pairs (0, 1), (2, 3), ... below `n - 1`.
pub open spec fn supremacy_pairs(n: nat) -> Seq<SpecGate> {
    Seq::new((n / 2) as nat, |k: int| cnot_gate((2 * k) as usize, (2 * k + 1) as usize))
}

/// The first `k` layers of the supremacy-inspired circuit.
pub open spec fn supremacy_layers(n: nat, k: nat) -> Seq<SpecGate>
    decreases k,
{
    if k == 0 {
        Seq::empty()
    } else {
        supremacy_layers(n, (k - 1) as nat) + supremacy_single_layer(n, (k - 1) as nat) + supremacy_pairs(n)
    }
}

/// A gate drawn for a random circuit: a Hadamard, X or Z gate, a CNOT, or
/// a Y rotation by an angle (its bit pattern).
#[derive(Debug, Clone, Copy, PartialEq, Eq, Structural)]
pub enum RandomGate {
    H(QubitIndex),
    X(QubitIndex),
    Z(QubitIndex),
    Cnot(QubitIndex, QubitIndex),
    Ry(QubitIndex, u64),
}

/// What a draw stands for: a gate.
pub open spec fn drawn_gate(d: RandomGate) -> SpecGate {
    match d {
        RandomGate::H(q) => h_gate(q),
        RandomGate::X(q) => x_gate(q),
        RandomGate::Z(q) => z_gate(q),
        RandomGate::Cnot(a, b) => cnot_gate(a, b),
        RandomGate::Ry(q, a) => crate::quantum::gates::gate(crate::quantum::gates::SpecGateType::RY(a), seq![q]),
    }
}

/// Whether a draw names only qubits below `n`.
pub open spec fn draw_in_bounds(d: RandomGate, n: usize) -> bool {
    match d {
        RandomGate::H(q) => q < n,
        RandomGate::X(q) => q < n,
        RandomGate::Z(q) => q < n,
        RandomGate::Cnot(a, b) => a < n && b < n,
        RandomGate::Ry(q, _) => q < n,
    }
}

/// Demonstration circuits.
pub struct QuantumSupremacyCircuits;

impl QuantumSupremacyCircuits {
    /// The circuit of drawn gates on `num_qubits` qubits: the gates added
    /// one by one in the order drawn, under the default name.
    pub fn circuit_from_draws(num_qubits: usize, draws: &Vec<RandomGate>) -> (c: QuantumCircuit)
        requires
            forall|i: int| 0 <= i < draws@.len() ==> draw_in_bounds(#[trigger] draws@[i], num_qubits),
        ensures
            c.wf(),
            c.num_qubits == num_qubits,
            c.spec_layers() == add_gates_spec(Seq::empty(), draws@.map_values(|d: RandomGate| drawn_gate(d))),
            c.measurements@ == Map::<QubitIndex, Option<bool>>::empty(),
            c.name@ == default_circuit_name(num_qubits),
    {
        let ghost gs = draws@.map_values(|d: RandomGate| drawn_gate(d));
        let mut circuit = QuantumCircuit::new(num_qubits);
        assert(circuit.spec_layers() =~= Seq::<Seq<SpecGate>>::empty());
        let ghost l0 = circuit.spec_layers();
        assert(gs.subrange(0, 0) =~= Seq::<SpecGate>::empty());
        for i in 0..draws.len()
            invariant
                num_qubits == circuit.num_qubits,
                circuit.wf(),
                forall|k: int| 0 <= k < draws@.len() ==> draw_in_bounds(#[trigger] draws@[k], num_qubits),
                gs == draws@.map_values(|d: RandomGate| drawn_gate(d)),
                circuit.measurements@ == Map::<QubitIndex, Option<bool>>::empty(),
                circuit.name@ == default_circuit_name(num_qubits),
                l0 == Seq::<Seq<SpecGate>>::empty(),
                circuit.spec_layers() == add_gates_spec(l0, gs.subrange(0, i as int)),
        {
            let g = match draws[i] {
                RandomGate::H(q) => crate::quantum::gates::QuantumGate::hadamard(q),
                RandomGate::X(q) => crate::quantum::gates::QuantumGate::pauli_x(q),
                RandomGate::Z(q) => crate::quantum::gates::QuantumGate::pauli_z(q),
                RandomGate::Cnot(a, b) => crate::quantum::gates::QuantumGate::cnot(a, b),
                RandomGate::Ry(q, a) => crate::quantum::gates::QuantumGate::ry(q, a),
            };
            proof {
                assert(draw_in_bounds(draws@[i as int], num_qubits));
                assert(g@ == gs[i as int]);
                crate::quantum::circuit::lemma_first_out_of_bounds_none(g@.qubits, num_qubits, 0);
                assert(first_out_of_bounds(g@.qubits, num_qubits) is None);
            }
            let ghost before = circuit.spec_layers();
            let r = circuit.add_gate(g);
            proof {
                lemma_add_gates_push(l0, gs.subrange(0, i as int), g@);
                assert(gs.subrange(0, i as int).push(g@) =~= gs.subrange(0, i + 1));
            }
        }
        assert(gs.subrange(0, draws@.len() as int) =~= gs);
        circuit
    }

    /// Twenty layers, each of single-qubit gates followed by CNOTs between
    /// neighbouring pairs, then every qubit measured; named
    /// `Google_Supremacy_<n>q`. A circuit without qubits is refused by
    /// `requires`: the pairs are counted below `n - 1`.
    pub fn google_supremacy_inspired(num_qubits: usize) -> (c: QuantumCircuit)
        requires
            num_qubits >= 1,
        ensures
            c.wf(),
            c.num_qubits == num_qubits,
            c.spec_layers() == add_gates_spec(Seq::empty(), supremacy_layers(num_qubits as nat, 20)),
            c.measurements@ == measured_below(num_qubits as int),
            c.name@ == "Google_Supremacy_"@ + decimal(num_qubits as nat) + "q"@,
    {
        let n = num_qubits;
        let mut circuit = QuantumCircuit::new(n);
        assert(circuit.spec_layers() =~= Seq::<Seq<SpecGate>>::empty());
        let ghost l0 = circuit.spec_layers();
        assert(supremacy_layers(n as nat, 0) =~= Seq::<SpecGate>::empty());
        for layer in 0..20usize
            invariant
                n == circuit.num_qubits,
                n >= 1,
                circuit.wf(),
                circuit.measurements@ == Map::<QubitIndex, Option<bool>>::empty(),
                circuit.name@ == default_circuit_name(n),
                l0 == Seq::<Seq<SpecGate>>::empty(),
                circuit.spec_layers() == add_gates_spec(l0, supremacy_layers(n as nat, layer as nat)),
        {
            let ghost before = supremacy_layers(n as nat, layer as nat);
            let ghost single = supremacy_single_layer(n as nat, layer as nat);
            let ghost start = circuit.spec_layers();
            if layer % 2 == 0 {
                add_h_range(&mut circuit, 0, n);
            } else {
                let ghost ry = Seq::new(n as nat, |i: int| crate::quantum::gates::gate(crate::quantum::gates::SpecGateType::RY(PI_OVER_3_BITS), seq![i as usize]));
                assert(ry.subrange(0, 0) =~= Seq::<SpecGate>::empty());
                for i in 0..n
                    invariant
                        n == circuit.num_qubits,
                        circuit.wf(),
                        circuit.measurements@ == Map::<QubitIndex, Option<bool>>::empty(),
                        circuit.name@ == default_circuit_name(n),
                        ry == Seq::new(n as nat, |i: int| crate::quantum::gates::gate(crate::quantum::gates::SpecGateType::RY(PI_OVER_3_BITS), seq![i as usize])),
                        circuit.spec_layers() == add_gates_spec(start, ry.subrange(0, i as int)),
                {
                    let g = crate::quantum::gates::QuantumGate::ry(i, PI_OVER_3_BITS);
                    proof {
                        crate::quantum::circuit::lemma_first_out_of_bounds_none(g@.qubits, n, 0);
                        assert(crate::quantum::circuit::first_out_of_bounds_from(g@.qubits, n, 1) is None);
                    }
                    let r = circuit.add_gate(g);
                    proof {
                        lemma_add_gates_push(start, ry.subrange(0, i as int), g@);
                        assert(ry.subrange(0, i as int).push(g@) =~= ry.subrange(0, i + 1));
                    }
                }
                assert(ry.subrange(0, n as int) =~= ry);
            }
            let ghost mid = circuit.spec_layers();
            assert(supremacy_pairs(n as nat).subrange(0, 0) =~= Seq::<SpecGate>::empty());
            let mut i: usize = 0;
            while i < n - 1
                invariant
                    n == circuit.num_qubits,
                    n >= 1,
                    i % 2 == 0,
                    i <= n,
                    circuit.wf(),
                    circuit.measurements@ == Map::<QubitIndex, Option<bool>>::empty(),
                    circuit.name@ == default_circuit_name(n),
                    circuit.spec_layers() == add_gates_spec(mid, supremacy_pairs(n as nat).subrange(0, (i / 2) as int)),
                decreases n - i,
            {
                add_cnot(&mut circuit, i, i + 1);
                proof {
                    lemma_add_gates_push(mid, supremacy_pairs(n as nat).subrange(0, (i / 2) as int), cnot_gate(i, (i + 1) as usize));
                    assert(supremacy_pairs(n as nat).subrange(0, (i / 2) as int).push(cnot_gate(i, (i + 1) as usize))
                        =~= supremacy_pairs(n as nat).subrange(0, (i / 2) as int + 1));
                }
                i = i + 2;
            }
            assert(supremacy_pairs(n as nat).subrange(0, (i / 2) as int) =~= supremacy_pairs(n as nat));
            proof {
                lemma_add_gates_concat(l0, before, single);
                lemma_add_gates_concat(l0, before + single, supremacy_pairs(n as nat));
            }
        }
        circuit.measure_all();
        assert(circuit.measurements@ =~= measured_below(n as int));
        let mut name: Vec<char> = Vec::new();
        crate::text::push_str_chars(&mut name, "Google_Supremacy_");
        crate::text::push_decimal(&mut name, n as u64);
        crate::text::push_str_chars(&mut name, "q");
        circuit.name = crate::text::string_from_chars(name.as_slice());
        circuit
    }
}

} // verus!
