//! Quantum circuits with layer management.
//!
//! A circuit is a sequence of layers, each a sequence of gates. A gate added
//! on its own joins the last layer when it shares no qubit with any gate
//! there, and opens a new layer otherwise.
use vstd::prelude::*;
use std::collections::HashMap;
use crate::text::decimal;
use crate::quantum::gates::{
    GateType, QuantumGate, QubitIndex, SpecGate, SpecGateType, cancels, copy_qubits,
    is_self_inverse_kind,
};

verus! {

broadcast use vstd::std_specs::hash::group_hash_axioms;

/// Whether no qubit of `qs` is in `used`.
pub open spec fn disjoint(qs: Seq<QubitIndex>, used: Seq<QubitIndex>) -> bool {
    forall|k: int| 0 <= k < qs.len() ==> !used.contains(#[trigger] qs[k])
}

/// The groups of gate indices that can run in parallel, from gate `k` on:
/// consecutive gates join the current group while they share no qubit with
/// it, and a gate that does opens the next group.
pub open spec fn parallel_groups_from(
    gs: Seq<Seq<QubitIndex>>,
    k: int,
    groups: Seq<Seq<usize>>,
    current: Seq<usize>,
    used: Seq<QubitIndex>,
) -> Seq<Seq<usize>>
    decreases gs.len() - k,
{
    if k < 0 || k >= gs.len() {
        if current.len() > 0 { groups.push(current) } else { groups }
    } else if disjoint(gs[k], used) {
        parallel_groups_from(gs, k + 1, groups, current.push(k as usize), used + gs[k])
    } else {
        parallel_groups_from(
            gs,
            k + 1,
            if current.len() > 0 { groups.push(current) } else { groups },
            seq![k as usize],
            gs[k],
        )
    }
}

/// The qubit lists of some gates.
pub open spec fn qubit_lists(gates: Seq<SpecGate>) -> Seq<Seq<QubitIndex>> {
    gates.map_values(|g: SpecGate| g.qubits)
}

pub open spec fn parallel_groups(gates: Seq<SpecGate>) -> Seq<Seq<usize>> {
    parallel_groups_from(qubit_lists(gates), 0, Seq::empty(), Seq::empty(), Seq::empty())
}

/// One layer of a circuit.
#[derive(Debug, Clone)]
pub struct CircuitLayer {
    pub gates: Vec<QuantumGate>,
    pub depth: usize,
    /// Groups of indices of gates that can run in parallel.
    pub parallel_gates: Vec<Vec<usize>>,
}

pub open spec fn view_gates(gates: Seq<QuantumGate>) -> Seq<SpecGate> {
    gates.map_values(|g: QuantumGate| g@)
}

pub open spec fn view_groups(groups: Seq<Vec<usize>>) -> Seq<Seq<usize>> {
    groups.map_values(|v: Vec<usize>| v@)
}

impl CircuitLayer {
    /// The gates of the layer.
    pub open spec fn spec_gates(&self) -> Seq<SpecGate> {
        view_gates(self.gates@)
    }

    /// Whether the parallel groups are those of the gates.
    pub open spec fn groups_current(&self) -> bool {
        view_groups(self.parallel_gates@) == parallel_groups(self.spec_gates())
    }

    pub fn new() -> (l: CircuitLayer)
        ensures
            l.spec_gates() == Seq::<SpecGate>::empty(),
            l.depth == 0,
            l.parallel_gates@ == Seq::<Vec<usize>>::empty(),
            l.groups_current(),
    {
        let l = CircuitLayer { gates: Vec::new(), depth: 0, parallel_gates: Vec::new() };
        assert(l.spec_gates() =~= Seq::<SpecGate>::empty());
        assert(view_groups(l.parallel_gates@) =~= Seq::<Seq<usize>>::empty());
        l
    }

    /// Appends a gate and regroups the gates.
    pub fn add_gate(&mut self, gate: QuantumGate)
        ensures
            final(self).spec_gates() == old(self).spec_gates().push(gate@),
            final(self).depth == old(self).depth,
            final(self).groups_current(),
    {
        self.gates.push(gate);
        assert(view_gates(self.gates@) =~= view_gates(old(self).gates@).push(gate@));
        self.update_parallelization();
    }

    fn update_parallelization(&mut self)
        ensures
            final(self).gates@ == old(self).gates@,
            final(self).depth == old(self).depth,
            final(self).groups_current(),
    {
        let ghost gs = qubit_lists(self.spec_gates());
        let mut groups: Vec<Vec<usize>> = Vec::new();
        let mut current: Vec<usize> = Vec::new();
        let mut used: Vec<QubitIndex> = Vec::new();
        assert(view_groups(groups@) =~= Seq::<Seq<usize>>::empty());
        assert(current@ =~= Seq::<usize>::empty());
        assert(used@ =~= Seq::<QubitIndex>::empty());
        let n = self.gates.len();
        for idx in 0..n
            invariant
                n == self.gates.len(),
                gs == qubit_lists(self.spec_gates()),
                parallel_groups(self.spec_gates()) == parallel_groups_from(gs, idx as int, view_groups(groups@), current@, used@),
        {
            let qs = &self.gates[idx].qubits;
            assert(gs[idx as int] == qs@);
            if disjoint_from(qs, &used) {
                current.push(idx);
                let mut k: usize = 0;
                let ghost used0 = used@;
                while k < qs.len()
                    invariant
                        k <= qs.len(),
                        used@ == used0 + qs@.subrange(0, k as int),
                    decreases qs.len() - k,
                {
                    used.push(qs[k]);
                    k = k + 1;
                    assert(used@ =~= used0 + qs@.subrange(0, k as int));
                }
                assert(qs@.subrange(0, qs.len() as int) =~= qs@);
            } else {
                if current.len() > 0 {
                    let ghost prev = groups@;
                    groups.push(current);
                    assert(view_groups(groups@) =~= view_groups(prev).push(current@));
                }
                current = Vec::new();
                current.push(idx);
                assert(current@ =~= seq![idx]);
                used = copy_qubits(qs);
            }
        }
        if current.len() > 0 {
            let ghost prev = groups@;
            groups.push(current);
            assert(view_groups(groups@) =~= view_groups(prev).push(current@));
        }
        self.parallel_gates = groups;
    }
}

/// Whether no qubit of `qs` is in `used`.
fn disjoint_from(qs: &Vec<QubitIndex>, used: &Vec<QubitIndex>) -> (b: bool)
    ensures
        b == disjoint(qs@, used@),
{
    for k in 0..qs.len()
        invariant
            forall|m: int| 0 <= m < k ==> !used@.contains(#[trigger] qs@[m]),
    {
        let q = qs[k];
        for m in 0..used.len()
            invariant
                k < qs.len(),
                q == qs@[k as int],
                forall|p: int| 0 <= p < m ==> used@[p] != q,
        {
            if used[m] == q {
                assert(used@[m as int] == qs@[k as int]);
                assert(used@.contains(qs@[k as int]));
                return false;
            }
        }
    }
    true
}

} // verus!

verus! {

/// Why a gate was refused, or two circuits were not composed.
#[derive(Debug, Clone, Copy, PartialEq, Eq, Structural)]
pub enum CircuitError {
    /// A gate names a qubit that the circuit does not have.
    QubitOutOfBounds { qubit: QubitIndex, num_qubits: usize },
    /// The circuits to compose have different numbers of qubits.
    QubitCountMismatch,
}

/// The first qubit of `qs`, from index `k` on, that is not below `n`.
pub open spec fn first_out_of_bounds_from(qs: Seq<QubitIndex>, n: usize, k: int) -> Option<QubitIndex>
    decreases qs.len() - k,
{
    if k < 0 || k >= qs.len() {
        None
    } else if qs[k] >= n {
        Some(qs[k])
    } else {
        first_out_of_bounds_from(qs, n, k + 1)
    }
}

pub open spec fn first_out_of_bounds(qs: Seq<QubitIndex>, n: usize) -> Option<QubitIndex> {
    first_out_of_bounds_from(qs, n, 0)
}

/// The first out-of-bounds qubit of the first gate, from index `k` on, that
/// has one.
pub open spec fn first_bad_qubit_from(gates: Seq<SpecGate>, n: usize, k: int) -> Option<QubitIndex>
    decreases gates.len() - k,
{
    if k < 0 || k >= gates.len() {
        None
    } else {
        match first_out_of_bounds(gates[k].qubits, n) {
            Some(q) => Some(q),
            None => first_bad_qubit_from(gates, n, k + 1),
        }
    }
}

pub open spec fn first_bad_qubit(gates: Seq<SpecGate>, n: usize) -> Option<QubitIndex> {
    first_bad_qubit_from(gates, n, 0)
}

/// Whether every qubit of `qs` is below `n`.
pub open spec fn qubits_in_bounds(qs: Seq<QubitIndex>, n: usize) -> bool {
    forall|k: int| 0 <= k < qs.len() ==> #[trigger] qs[k] < n
}

/// Whether every gate of `gates` names only qubits below `n`.
pub open spec fn gates_in_bounds(gates: Seq<SpecGate>, n: usize) -> bool {
    forall|j: int| 0 <= j < gates.len() ==> qubits_in_bounds(#[trigger] gates[j].qubits, n)
}

/// Whether every gate of every layer names only qubits below `n`.
pub open spec fn layers_in_bounds(layers: Seq<Seq<SpecGate>>, n: usize) -> bool {
    forall|i: int| 0 <= i < layers.len() ==> gates_in_bounds(#[trigger] layers[i], n)
}

pub proof fn lemma_first_out_of_bounds_none(qs: Seq<QubitIndex>, n: usize, k: int)
    requires
        0 <= k,
    ensures
        first_out_of_bounds_from(qs, n, k) is None <==> (forall|m: int| k <= m < qs.len() ==> qs[m] < n),
    decreases qs.len() - k,
{
    if k < qs.len() {
        lemma_first_out_of_bounds_none(qs, n, k + 1);
    }
}

pub proof fn lemma_first_bad_qubit_none(gates: Seq<SpecGate>, n: usize, k: int)
    requires
        0 <= k,
    ensures
        first_bad_qubit_from(gates, n, k) is None <==> (forall|m: int| k <= m < gates.len() ==> qubits_in_bounds(#[trigger] gates[m].qubits, n)),
    decreases gates.len() - k,
{
    if k < gates.len() {
        lemma_first_bad_qubit_none(gates, n, k + 1);
        lemma_first_out_of_bounds_none(gates[k].qubits, n, 0);
    }
}

/// Whether `g` shares no qubit with any gate of `layer`.
pub open spec fn fits_layer(layer: Seq<SpecGate>, g: SpecGate) -> bool {
    forall|k: int| 0 <= k < layer.len() ==> disjoint(g.qubits, #[trigger] layer[k].qubits)
}

/// The layers after adding one gate: it joins the last layer when it fits
/// there, and opens a new layer otherwise.
pub open spec fn add_gate_spec(layers: Seq<Seq<SpecGate>>, g: SpecGate) -> Seq<Seq<SpecGate>> {
    if layers.len() > 0 && fits_layer(layers.last(), g) {
        layers.update(layers.len() - 1, layers.last().push(g))
    } else {
        layers.push(seq![g])
    }
}

/// The layers after adding the gates `gs` one by one.
pub open spec fn add_gates_spec(layers: Seq<Seq<SpecGate>>, gs: Seq<SpecGate>) -> Seq<Seq<SpecGate>>
    decreases gs.len(),
{
    if gs.len() == 0 {
        layers
    } else {
        add_gate_spec(add_gates_spec(layers, gs.drop_last()), gs.last())
    }
}

/// The number of gates in some layers.
pub open spec fn total_gates(layers: Seq<Seq<SpecGate>>) -> nat
    decreases layers.len(),
{
    if layers.len() == 0 {
        0
    } else {
        total_gates(layers.drop_last()) + layers.last().len()
    }
}

/// A quantum circuit.
#[derive(Debug, Clone)]
pub struct QuantumCircuit {
    pub num_qubits: usize,
    pub layers: Vec<CircuitLayer>,
    pub total_depth: usize,
    /// The measured qubits; the outcome is `None` until a run sets it.
    pub measurements: HashMap<QubitIndex, Option<bool>>,
    pub name: String,
    pub metadata: HashMap<String, String>,
}

/// The name a new circuit on `n` qubits gets: `Circuit_` and `n`.
pub open spec fn default_circuit_name(n: usize) -> Seq<char> {
    seq!['C', 'i', 'r', 'c', 'u', 'i', 't', '_'] + crate::text::decimal(n as nat)
}

impl QuantumCircuit {
    /// The gates of each layer.
    pub open spec fn spec_layers(&self) -> Seq<Seq<SpecGate>> {
        self.layers@.map_values(|l: CircuitLayer| l.spec_gates())
    }

    /// The depth is the number of layers, and every gate names only qubits
    /// of the circuit.
    pub open spec fn wf(&self) -> bool {
        &&& self.total_depth == self.layers@.len()
        &&& layers_in_bounds(self.spec_layers(), self.num_qubits)
    }

    /// An empty circuit on `num_qubits` qubits, named `Circuit_<num_qubits>`.
    pub fn new(num_qubits: usize) -> (c: QuantumCircuit)
        ensures
            c.wf(),
            c.num_qubits == num_qubits,
            c.layers@.len() == 0,
            c.measurements@ == Map::<QubitIndex, Option<bool>>::empty(),
            c.name@ == default_circuit_name(num_qubits),
            c.metadata@ == Map::<String, String>::empty(),
    {
        let mut cs: Vec<char> = Vec::new();
        crate::text::push_str_chars(&mut cs, "Circuit_");
        crate::text::push_decimal(&mut cs, num_qubits as u64);
        proof {
            reveal_strlit("Circuit_");
        }
        let name = crate::text::string_from_chars(cs.as_slice());
        QuantumCircuit {
            num_qubits,
            layers: Vec::new(),
            total_depth: 0,
            measurements: HashMap::new(),
            name,
            metadata: HashMap::new(),
        }
    }

    /// An empty circuit with the given name.
    pub fn with_name(num_qubits: usize, name: String) -> (c: QuantumCircuit)
        ensures
            c.wf(),
            c.num_qubits == num_qubits,
            c.layers@.len() == 0,
            c.measurements@ == Map::<QubitIndex, Option<bool>>::empty(),
            c.name@ == name@,
            c.metadata@ == Map::<String, String>::empty(),
    {
        let mut circuit = Self::new(num_qubits);
        circuit.name = name;
        circuit
    }

    /// Adds one gate: refused when it names a qubit the circuit does not
    /// have, and otherwise placed as [`add_gate_spec`] says.
    pub fn add_gate(&mut self, gate: QuantumGate) -> (r: Result<(), CircuitError>)
        requires
            old(self).wf(),
        ensures
            final(self).wf(),
            final(self).num_qubits == old(self).num_qubits,
            final(self).measurements@ == old(self).measurements@,
            final(self).name@ == old(self).name@,
            final(self).metadata@ == old(self).metadata@,
            match first_out_of_bounds(gate@.qubits, old(self).num_qubits) {
                Some(q) => r == Err::<(), CircuitError>(CircuitError::QubitOutOfBounds { qubit: q, num_qubits: old(self).num_qubits })
                    && final(self).layers@ == old(self).layers@,
                None => {
                    &&& r is Ok
                    &&& final(self).spec_layers() == add_gate_spec(old(self).spec_layers(), gate@)
                    &&& forall|i: int| 0 <= i < final(self).layers@.len() - 1 ==> #[trigger] final(self).layers@[i] == old(self).layers@[i]
                    &&& final(self).layers@.last().groups_current()
                    &&& final(self).layers@.last().depth == if old(self).layers@.len() > 0 && fits_layer(old(self).spec_layers().last(), gate@) {
                        old(self).layers@.last().depth as int
                    } else {
                        old(self).layers@.len() as int
                    }
                },
            },
    {
        if let Some(q) = first_out_of_bounds_exec(&gate.qubits, self.num_qubits) {
            return Err(CircuitError::QubitOutOfBounds { qubit: q, num_qubits: self.num_qubits });
        }
        let ghost old_layers = self.spec_layers();
        proof {
            lemma_first_out_of_bounds_none(gate@.qubits, self.num_qubits, 0);
            lemma_add_gate_in_bounds(old_layers, gate@, self.num_qubits);
        }
        let n = self.layers.len();
        let fits = n > 0 && fits_layer_exec(&self.layers[n - 1], &gate);
        if fits {
            let mut last = self.layers.pop().unwrap();
            proof {
                assert(self.spec_layers() =~= old_layers.drop_last());
            }
            last.add_gate(gate);
            self.layers.push(last);
            assert(self.spec_layers() =~= add_gate_spec(old_layers, gate@));
        } else {
            let mut new_layer = CircuitLayer::new();
            new_layer.depth = n;
            new_layer.add_gate(gate);
            self.layers.push(new_layer);
            assert(self.spec_layers() =~= add_gate_spec(old_layers, gate@));
            self.total_depth = self.layers.len();
        }
        Ok(())
    }

    /// Adds one layer holding all `gates`, in order: refused, with the
    /// circuit unchanged, when a gate names a qubit the circuit does not have.
    pub fn add_layer(&mut self, gates: Vec<QuantumGate>) -> (r: Result<(), CircuitError>)
        requires
            old(self).wf(),
        ensures
            final(self).wf(),
            final(self).num_qubits == old(self).num_qubits,
            final(self).measurements@ == old(self).measurements@,
            final(self).name@ == old(self).name@,
            match first_bad_qubit(view_gates(gates@), old(self).num_qubits) {
                Some(q) => r == Err::<(), CircuitError>(CircuitError::QubitOutOfBounds { qubit: q, num_qubits: old(self).num_qubits })
                    && final(self).spec_layers() == old(self).spec_layers(),
                None => r is Ok && final(self).spec_layers() == old(self).spec_layers().push(view_gates(gates@))
                    && final(self).layers@.last().depth == old(self).layers@.len()
                    && final(self).layers@.last().groups_current(),
            },
    {
        let ghost gv = view_gates(gates@);
        let mut layer = CircuitLayer::new();
        layer.depth = self.layers.len();
        let total = gates.len();
        let mut k: usize = 0;
        while k < total
            invariant
                k <= total,
                total == gates.len(),
                gv == view_gates(gates@),
                layer.spec_gates() == gv.subrange(0, k as int),
                layer.depth == self.layers@.len(),
                layer.groups_current(),
                first_bad_qubit(gv, self.num_qubits) == first_bad_qubit_from(gv, self.num_qubits, k as int),
                self.wf(),
                self.num_qubits == old(self).num_qubits,
                self.layers@ == old(self).layers@,
                self.measurements@ == old(self).measurements@,
                self.name@ == old(self).name@,
            decreases total - k,
        {
            let g = &gates[k];
            if let Some(q) = first_out_of_bounds_exec(&g.qubits, self.num_qubits) {
                return Err(CircuitError::QubitOutOfBounds { qubit: q, num_qubits: self.num_qubits });
            }
            layer.add_gate(g.duplicate());
            k = k + 1;
            assert(layer.spec_gates() =~= gv.subrange(0, k as int));
        }
        assert(gv.subrange(0, k as int) =~= gv);
        let ghost old_layers = self.spec_layers();
        self.layers.push(layer);
        assert(self.spec_layers() =~= old_layers.push(gv));
        proof {
            lemma_first_bad_qubit_none(gv, self.num_qubits, 0);
            assert(layers_in_bounds(self.spec_layers(), self.num_qubits)) by {
                assert forall|i: int| 0 <= i < self.spec_layers().len() implies gates_in_bounds(#[trigger] self.spec_layers()[i], self.num_qubits) by {
                    if i < old_layers.len() {
                        assert(self.spec_layers()[i] == old_layers[i]);
                    }
                }
            }
        }
        self.total_depth = self.layers.len();
        Ok(())
    }

    pub fn h(&mut self, qubit: QubitIndex) -> (r: Result<(), CircuitError>)
        requires
            old(self).wf(),
        ensures
            final(self).wf(),
            final(self).num_qubits == old(self).num_qubits,
            final(self).measurements@ == old(self).measurements@,
            final(self).name@ == old(self).name@,
            qubit < old(self).num_qubits ==> r is Ok && final(self).spec_layers() == add_gate_spec(old(self).spec_layers(), crate::quantum::gates::h_gate(qubit)),
            qubit >= old(self).num_qubits ==> r == Err::<(), CircuitError>(CircuitError::QubitOutOfBounds { qubit, num_qubits: old(self).num_qubits })
                && final(self).spec_layers() == old(self).spec_layers(),
    {
        let g = QuantumGate::hadamard(qubit);
        proof {
            lemma_one_qubit_bounds(qubit, self.num_qubits);
        }
        self.add_gate(g)
    }

    pub fn x(&mut self, qubit: QubitIndex) -> (r: Result<(), CircuitError>)
        requires
            old(self).wf(),
        ensures
            final(self).wf(),
            final(self).num_qubits == old(self).num_qubits,
            final(self).measurements@ == old(self).measurements@,
            final(self).name@ == old(self).name@,
            qubit < old(self).num_qubits ==> r is Ok && final(self).spec_layers() == add_gate_spec(old(self).spec_layers(), crate::quantum::gates::x_gate(qubit)),
            qubit >= old(self).num_qubits ==> r == Err::<(), CircuitError>(CircuitError::QubitOutOfBounds { qubit, num_qubits: old(self).num_qubits })
                && final(self).spec_layers() == old(self).spec_layers(),
    {
        let g = QuantumGate::pauli_x(qubit);
        proof {
            lemma_one_qubit_bounds(qubit, self.num_qubits);
        }
        self.add_gate(g)
    }

    pub fn z(&mut self, qubit: QubitIndex) -> (r: Result<(), CircuitError>)
        requires
            old(self).wf(),
        ensures
            final(self).wf(),
            final(self).num_qubits == old(self).num_qubits,
            final(self).measurements@ == old(self).measurements@,
            final(self).name@ == old(self).name@,
            qubit < old(self).num_qubits ==> r is Ok && final(self).spec_layers() == add_gate_spec(old(self).spec_layers(), crate::quantum::gates::z_gate(qubit)),
            qubit >= old(self).num_qubits ==> r == Err::<(), CircuitError>(CircuitError::QubitOutOfBounds { qubit, num_qubits: old(self).num_qubits })
                && final(self).spec_layers() == old(self).spec_layers(),
    {
        let g = QuantumGate::pauli_z(qubit);
        proof {
            lemma_one_qubit_bounds(qubit, self.num_qubits);
        }
        self.add_gate(g)
    }

    pub fn rz(&mut self, qubit: QubitIndex, angle: u64) -> (r: Result<(), CircuitError>)
        requires
            old(self).wf(),
        ensures
            final(self).wf(),
            final(self).num_qubits == old(self).num_qubits,
            final(self).measurements@ == old(self).measurements@,
            final(self).name@ == old(self).name@,
            qubit < old(self).num_qubits ==> r is Ok && final(self).spec_layers() == add_gate_spec(old(self).spec_layers(), crate::quantum::gates::rz_gate(qubit, angle)),
            qubit >= old(self).num_qubits ==> r == Err::<(), CircuitError>(CircuitError::QubitOutOfBounds { qubit, num_qubits: old(self).num_qubits })
                && final(self).spec_layers() == old(self).spec_layers(),
    {
        let g = QuantumGate::rz(qubit, angle);
        proof {
            lemma_one_qubit_bounds(qubit, self.num_qubits);
        }
        self.add_gate(g)
    }

    pub fn cnot(&mut self, control: QubitIndex, target: QubitIndex) -> (r: Result<(), CircuitError>)
        requires
            old(self).wf(),
        ensures
            final(self).wf(),
            final(self).num_qubits == old(self).num_qubits,
            final(self).measurements@ == old(self).measurements@,
            final(self).name@ == old(self).name@,
            first_out_of_bounds(seq![control, target], old(self).num_qubits) is None ==> r is Ok
                && final(self).spec_layers() == add_gate_spec(old(self).spec_layers(), crate::quantum::gates::cnot_gate(control, target)),
            first_out_of_bounds(seq![control, target], old(self).num_qubits) matches Some(q) ==>
                r == Err::<(), CircuitError>(CircuitError::QubitOutOfBounds { qubit: q, num_qubits: old(self).num_qubits })
                && final(self).spec_layers() == old(self).spec_layers(),
    {
        self.add_gate(QuantumGate::cnot(control, target))
    }

    pub fn cz(&mut self, control: QubitIndex, target: QubitIndex) -> (r: Result<(), CircuitError>)
        requires
            old(self).wf(),
        ensures
            final(self).wf(),
            final(self).num_qubits == old(self).num_qubits,
            final(self).measurements@ == old(self).measurements@,
            final(self).name@ == old(self).name@,
            first_out_of_bounds(seq![control, target], old(self).num_qubits) is None ==> r is Ok
                && final(self).spec_layers() == add_gate_spec(old(self).spec_layers(), crate::quantum::gates::cz_gate(control, target)),
            first_out_of_bounds(seq![control, target], old(self).num_qubits) matches Some(q) ==>
                r == Err::<(), CircuitError>(CircuitError::QubitOutOfBounds { qubit: q, num_qubits: old(self).num_qubits })
                && final(self).spec_layers() == old(self).spec_layers(),
    {
        self.add_gate(QuantumGate::cz(control, target))
    }

    pub fn swap(&mut self, qubit1: QubitIndex, qubit2: QubitIndex) -> (r: Result<(), CircuitError>)
        requires
            old(self).wf(),
        ensures
            final(self).wf(),
            final(self).num_qubits == old(self).num_qubits,
            final(self).measurements@ == old(self).measurements@,
            final(self).name@ == old(self).name@,
            first_out_of_bounds(seq![qubit1, qubit2], old(self).num_qubits) is None ==> r is Ok
                && final(self).spec_layers() == add_gate_spec(old(self).spec_layers(), crate::quantum::gates::swap_gate(qubit1, qubit2)),
            first_out_of_bounds(seq![qubit1, qubit2], old(self).num_qubits) matches Some(q) ==>
                r == Err::<(), CircuitError>(CircuitError::QubitOutOfBounds { qubit: q, num_qubits: old(self).num_qubits })
                && final(self).spec_layers() == old(self).spec_layers(),
    {
        self.add_gate(QuantumGate::swap(qubit1, qubit2))
    }

    /// Marks a qubit as measured.
    pub fn measure(&mut self, qubit: QubitIndex)
        ensures
            final(self).measurements@ == old(self).measurements@.insert(qubit, None),
            final(self).num_qubits == old(self).num_qubits,
            final(self).layers@ == old(self).layers@,
            final(self).total_depth == old(self).total_depth,
            final(self).name@ == old(self).name@,
    {
        self.measurements.insert(qubit, None);
    }

    /// Marks every qubit of the circuit as measured.
    pub fn measure_all(&mut self)
        ensures
            final(self).measurements@ == old(self).measurements@.union_prefer_right(
                Map::new(|q: QubitIndex| q < old(self).num_qubits, |q: QubitIndex| None::<bool>),
            ),
            final(self).num_qubits == old(self).num_qubits,
            final(self).layers@ == old(self).layers@,
            final(self).total_depth == old(self).total_depth,
            final(self).name@ == old(self).name@,
    {
        let n = self.num_qubits;
        for i in 0..n
            invariant
                n == self.num_qubits,
                self.num_qubits == old(self).num_qubits,
                self.layers@ == old(self).layers@,
                self.total_depth == old(self).total_depth,
                self.name@ == old(self).name@,
                self.measurements@ == old(self).measurements@.union_prefer_right(
                    Map::new(|q: QubitIndex| q < i, |q: QubitIndex| None::<bool>),
                ),
        {
            self.measurements.insert(i, None);
            assert(self.measurements@ =~= old(self).measurements@.union_prefer_right(
                Map::new(|q: QubitIndex| q < i + 1, |q: QubitIndex| None::<bool>),
            ));
        }
    }
}

proof fn lemma_one_qubit_bounds(q: QubitIndex, n: usize)
    ensures
        first_out_of_bounds(seq![q], n) == (if q < n { None::<QubitIndex> } else { Some(q) }),
{
    assert(first_out_of_bounds_from(seq![q], n, 1) is None);
}

fn first_out_of_bounds_exec(qs: &Vec<QubitIndex>, n: usize) -> (r: Option<QubitIndex>)
    ensures
        r == first_out_of_bounds(qs@, n),
{
    let mut k: usize = 0;
    while k < qs.len()
        invariant
            k <= qs.len(),
            first_out_of_bounds(qs@, n) == first_out_of_bounds_from(qs@, n, k as int),
        decreases qs.len() - k,
    {
        if qs[k] >= n {
            return Some(qs[k]);
        }
        k = k + 1;
    }
    None
}

fn fits_layer_exec(layer: &CircuitLayer, gate: &QuantumGate) -> (b: bool)
    ensures
        b == fits_layer(layer.spec_gates(), gate@),
{
    for k in 0..layer.gates.len()
        invariant
            forall|m: int| 0 <= m < k ==> disjoint(gate@.qubits, #[trigger] layer.spec_gates()[m].qubits),
    {
        if !disjoint_from(&gate.qubits, &layer.gates[k].qubits) {
            assert(!disjoint(gate@.qubits, layer.spec_gates()[k as int].qubits));
            return false;
        }
    }
    true
}

} // verus!

verus! {

/// Whether a gate is not the identity.
pub open spec fn not_identity(g: SpecGate) -> bool {
    !(g.kind is Identity)
}

/// The layers without their identity gates, empty layers dropped.
pub open spec fn without_identity(layers: Seq<Seq<SpecGate>>) -> Seq<Seq<SpecGate>> {
    layers.map_values(|l: Seq<SpecGate>| l.filter(|g: SpecGate| not_identity(g))).filter(
        |l: Seq<SpecGate>| l.len() > 0,
    )
}

/// The indices of the gates that cancel, from gate `k` on: two gates of the
/// same self-inverse kind on the same single qubit, with no single-qubit
/// gate on that qubit between them, cancel; `prev` maps each qubit to the
/// index of the last single-qubit gate on it that has not cancelled.
pub open spec fn cancel_marks_from(
    gates: Seq<SpecGate>,
    k: int,
    prev: Map<QubitIndex, usize>,
    marked: Set<int>,
) -> Set<int>
    decreases gates.len() - k,
{
    if k < 0 || k >= gates.len() {
        marked
    } else if gates[k].qubits.len() == 1 {
        let q = gates[k].qubits[0];
        if prev.contains_key(q) && cancels(gates[prev[q] as int].kind, gates[k].kind) {
            cancel_marks_from(gates, k + 1, prev.remove(q), marked.insert(prev[q] as int).insert(k))
        } else {
            cancel_marks_from(gates, k + 1, prev.insert(q, k as usize), marked)
        }
    } else {
        cancel_marks_from(gates, k + 1, prev, marked)
    }
}

/// The gates among the first `k` whose index is not marked, in order.
pub open spec fn unmarked(gates: Seq<SpecGate>, marked: Set<int>, k: int) -> Seq<SpecGate>
    decreases k,
{
    if k <= 0 {
        Seq::empty()
    } else if marked.contains(k - 1) {
        unmarked(gates, marked, k - 1)
    } else {
        unmarked(gates, marked, k - 1).push(gates[k - 1])
    }
}

/// One layer after cancelling pairs of gates.
pub open spec fn cancel_in_layer(gates: Seq<SpecGate>) -> Seq<SpecGate> {
    unmarked(gates, cancel_marks_from(gates, 0, Map::empty(), Set::empty()), gates.len() as int)
}

/// Two gates on one and the same qubit, side by side in a layer, both go
/// when they are of one self-inverse kind (X, Y, Z or H), and both stay
/// otherwise.
pub proof fn law_adjacent_pair_cancels(g1: SpecGate, g2: SpecGate)
    requires
        g1.qubits.len() == 1,
        g2.qubits == g1.qubits,
    ensures
        cancel_in_layer(seq![g1, g2]) == if g1.kind == g2.kind && is_self_inverse_kind(g1.kind) {
            Seq::<SpecGate>::empty()
        } else {
            seq![g1, g2]
        },
{
    let gs = seq![g1, g2];
    let q = g1.qubits[0];
    crate::quantum::gates::law_cancels_self_inverse(g1.kind, g2.kind);
    let m0 = Map::<QubitIndex, usize>::empty();
    let m1 = m0.insert(q, 0usize);
    assert(gs[0] == g1 && gs[1] == g2);
    assert(cancel_marks_from(gs, 0, m0, Set::empty()) == cancel_marks_from(gs, 1, m1, Set::empty()));
    let marks = cancel_marks_from(gs, 0, m0, Set::empty());
    if g1.kind == g2.kind && is_self_inverse_kind(g1.kind) {
        assert(m1[q] == 0usize);
        assert(cancel_marks_from(gs, 1, m1, Set::empty()) == cancel_marks_from(gs, 2, m1.remove(q), Set::<int>::empty().insert(0).insert(1)));
        assert(marks == Set::<int>::empty().insert(0).insert(1));
        assert(unmarked(gs, marks, 2) == unmarked(gs, marks, 1));
        assert(unmarked(gs, marks, 1) == unmarked(gs, marks, 0));
        assert(cancel_in_layer(gs) =~= Seq::<SpecGate>::empty());
    } else {
        assert(cancel_marks_from(gs, 1, m1, Set::empty()) == cancel_marks_from(gs, 2, m1.insert(q, 1usize), Set::<int>::empty()));
        assert(marks == Set::<int>::empty());
        assert(unmarked(gs, marks, 0) =~= Seq::<SpecGate>::empty());
        assert(unmarked(gs, marks, 1) =~= seq![g1]);
        assert(unmarked(gs, marks, 2) =~= seq![g1, g2]);
    }
}

fn cancels_exec(a: &GateType, b: &GateType) -> (r: bool)
    ensures
        r == cancels(a@, b@),
{
    match (a, b) {
        (GateType::PauliX, GateType::PauliX) => true,
        (GateType::PauliY, GateType::PauliY) => true,
        (GateType::PauliZ, GateType::PauliZ) => true,
        (GateType::Hadamard, GateType::Hadamard) => true,
        _ => false,
    }
}

/// The gates of a layer after cancelling pairs.
fn cancel_gates(gates: &Vec<QuantumGate>) -> (r: Vec<QuantumGate>)
    ensures
        view_gates(r@) == cancel_in_layer(view_gates(gates@)),
{
    let ghost gv = view_gates(gates@);
    let n = gates.len();
    let mut prev: HashMap<QubitIndex, usize> = HashMap::new();
    let mut marked: Vec<bool> = Vec::new();
    for i in 0..n
        invariant
            marked@.len() == i,
            forall|m: int| 0 <= m < i ==> !marked@[m],
    {
        marked.push(false);
    }
    let ghost mut mset: Set<int> = Set::empty();
    assert(mset =~= Set::new(|m: int| 0 <= m < n && marked@[m]));
    for k in 0..n
        invariant
            n == gates.len(),
            gv == view_gates(gates@),
            marked@.len() == n,
            mset == Set::new(|m: int| 0 <= m < n && marked@[m]),
            forall|q: QubitIndex| prev@.contains_key(q) ==> (#[trigger] prev@[q]) < k,
            cancel_marks_from(gv, 0, Map::empty(), Set::empty()) == cancel_marks_from(gv, k as int, prev@, mset),
            forall|m: int| k <= m < n ==> !marked@[m],
    {
        let g = &gates[k];
        if g.qubits.len() == 1 {
            let q = g.qubits[0];
            let found = match prev.get(&q) {
                Some(p) => Some(*p),
                None => None,
            };
            match found {
                Some(p) => {
                    if cancels_exec(&gates[p].gate_type, &g.gate_type) {
                        marked.set(p, true);
                        marked.set(k, true);
                        proof {
                            mset = mset.insert(p as int).insert(k as int);
                            assert(mset =~= Set::new(|m: int| 0 <= m < n && marked@[m]));
                        }
                        prev.remove(&q);
                    } else {
                        prev.insert(q, k);
                    }
                },
                None => {
                    prev.insert(q, k);
                },
            }
        }
    }
    let mut r: Vec<QuantumGate> = Vec::new();
    let ghost fin = mset;
    assert(view_gates(r@) =~= unmarked(gv, fin, 0));
    for k in 0..n
        invariant
            n == gates.len(),
            gv == view_gates(gates@),
            marked@.len() == n,
            fin == Set::new(|m: int| 0 <= m < n && marked@[m]),
            view_gates(r@) == unmarked(gv, fin, k as int),
    {
        if !marked[k] {
            let ghost prev_r = r@;
            r.push(gates[k].duplicate());
            assert(view_gates(r@) =~= view_gates(prev_r).push(gv[k as int]));
        }
    }
    r
}

/// The gates of a layer other than the identity gates.
fn without_identity_gates(gates: &Vec<QuantumGate>) -> (r: Vec<QuantumGate>)
    ensures
        view_gates(r@) == view_gates(gates@).filter(|g: SpecGate| not_identity(g)),
{
    let ghost gv = view_gates(gates@);
    let ghost p = |g: SpecGate| not_identity(g);
    let mut r: Vec<QuantumGate> = Vec::new();
    assert(gv.subrange(0, 0).filter(p) =~= Seq::<SpecGate>::empty()) by {
        reveal(Seq::filter);
    }
    assert(view_gates(r@) =~= gv.subrange(0, 0).filter(p));
    for k in 0..gates.len()
        invariant
            gv == view_gates(gates@),
            p == (|g: SpecGate| not_identity(g)),
            view_gates(r@) == gv.subrange(0, k as int).filter(p),
    {
        let ghost prev_r = r@;
        assert(gv.subrange(0, k + 1) =~= gv.subrange(0, k as int).push(gv[k as int]));
        assert(gv.subrange(0, k + 1).filter(p) == gv.subrange(0, k as int).filter(p).push(gv[k as int]) || !p(gv[k as int])) by {
            reveal(Seq::filter);
            assert(gv.subrange(0, k + 1).drop_last() =~= gv.subrange(0, k as int));
        }
        assert(!p(gv[k as int]) ==> gv.subrange(0, k + 1).filter(p) == gv.subrange(0, k as int).filter(p)) by {
            reveal(Seq::filter);
            assert(gv.subrange(0, k + 1).drop_last() =~= gv.subrange(0, k as int));
        }
        if !matches!(gates[k].gate_type, GateType::Identity) {
            r.push(gates[k].duplicate());
            assert(view_gates(r@) =~= view_gates(prev_r).push(gv[k as int]));
        }
    }
    assert(gv.subrange(0, gates.len() as int) =~= gv);
    r
}

fn copy_groups(groups: &Vec<Vec<usize>>) -> (r: Vec<Vec<usize>>)
    ensures
        view_groups(r@) == view_groups(groups@),
{
    let mut r: Vec<Vec<usize>> = Vec::new();
    for k in 0..groups.len()
        invariant
            r@.len() == k,
            view_groups(r@) == view_groups(groups@.subrange(0, k as int)),
    {
        let ghost prev_r = r@;
        r.push(copy_qubits(&groups[k]));
        proof {
            lemma_view_groups_push(prev_r, r@[k as int]);
            lemma_view_groups_push(groups@.subrange(0, k as int), groups@[k as int]);
            assert(groups@.subrange(0, k + 1) =~= groups@.subrange(0, k as int).push(groups@[k as int]));
        }
    }
    assert(groups@.subrange(0, groups.len() as int) =~= groups@);
    r
}

impl QuantumCircuit {
    /// The number of gates of the circuit.
    pub open spec fn spec_gate_count(&self) -> nat {
        total_gates(self.spec_layers())
    }

    /// The number of gates of the circuit.
    pub fn gate_count(&self) -> (n: usize)
        requires
            self.spec_gate_count() <= usize::MAX,
        ensures
            n == self.spec_gate_count(),
    {
        let mut n: usize = 0;
        let ghost ls = self.spec_layers();
        for k in 0..self.layers.len()
            invariant
                ls == self.spec_layers(),
                total_gates(ls) <= usize::MAX,
                n == total_gates(ls.subrange(0, k as int)),
        {
            assert(ls.subrange(0, k + 1).drop_last() =~= ls.subrange(0, k as int));
            proof {
                lemma_total_gates_prefix(ls, k + 1);
            }
            n = n + self.layers[k].gates.len();
        }
        assert(ls.subrange(0, self.layers.len() as int) =~= ls);
        n
    }

    /// Removes the identity gates, then the layers left empty.
    pub fn remove_identity_gates(&mut self)
        requires
            old(self).wf(),
        ensures
            final(self).wf(),
            final(self).spec_layers() == without_identity(old(self).spec_layers()),
            final(self).num_qubits == old(self).num_qubits,
            final(self).measurements@ == old(self).measurements@,
            final(self).name@ == old(self).name@,
    {
        let ghost ls = self.spec_layers();
        let ghost fl = |l: Seq<SpecGate>| l.filter(|g: SpecGate| not_identity(g));
        let ghost ne = |l: Seq<SpecGate>| l.len() > 0;
        let mut out: Vec<CircuitLayer> = Vec::new();
        let n = self.layers.len();
        assert(ls.map_values(fl).subrange(0, 0).filter(ne) =~= Seq::<Seq<SpecGate>>::empty()) by {
            reveal(Seq::filter);
        }
        for k in 0..n
            invariant
                n == self.layers.len(),
                ls == self.spec_layers(),
                fl == (|l: Seq<SpecGate>| l.filter(|g: SpecGate| not_identity(g))),
                ne == (|l: Seq<SpecGate>| l.len() > 0),
                out@.map_values(|l: CircuitLayer| l.spec_gates()) == ls.map_values(fl).subrange(0, k as int).filter(ne),
        {
            let layer = &self.layers[k];
            let gates = without_identity_gates(&layer.gates);
            let ghost prev_out = out@;
            let ghost lk = ls.map_values(fl)[k as int];
            assert(view_gates(gates@) == lk);
            assert(ls.map_values(fl).subrange(0, k + 1).drop_last() =~= ls.map_values(fl).subrange(0, k as int));
            assert(ls.map_values(fl).subrange(0, k + 1).filter(ne) == if ne(lk) {
                ls.map_values(fl).subrange(0, k as int).filter(ne).push(lk)
            } else {
                ls.map_values(fl).subrange(0, k as int).filter(ne)
            }) by {
                reveal(Seq::filter);
            }
            if gates.len() > 0 {
                out.push(CircuitLayer { gates, depth: layer.depth, parallel_gates: copy_groups(&layer.parallel_gates) });
                assert(out@.map_values(|l: CircuitLayer| l.spec_gates()) =~= prev_out.map_values(|l: CircuitLayer| l.spec_gates()).push(lk));
            }
        }
        assert(ls.map_values(fl).subrange(0, n as int) =~= ls.map_values(fl));
        self.layers = out;
        assert(self.spec_layers() =~= without_identity(ls));
        self.total_depth = self.layers.len();
        proof {
            let nq = self.num_qubits;
            let m = ls.map_values(fl);
            assert forall|i: int| 0 <= i < m.len() implies gates_in_bounds(#[trigger] m[i], nq) by {
                assert(gates_in_bounds(ls[i], nq));
                lemma_filter_keeps(ls[i], |g: SpecGate| not_identity(g), |g: SpecGate| qubits_in_bounds(g.qubits, nq));
            }
            lemma_filter_keeps(m, ne, |l: Seq<SpecGate>| gates_in_bounds(l, nq));
        }
    }

    /// Cancels pairs of gates in each layer (see [`cancel_marks_from`]);
    /// layers left empty stay.
    pub fn cancel_adjacent_gates(&mut self)
        requires
            old(self).wf(),
        ensures
            final(self).wf(),
            final(self).spec_layers() == old(self).spec_layers().map_values(|l: Seq<SpecGate>| cancel_in_layer(l)),
            final(self).num_qubits == old(self).num_qubits,
            final(self).measurements@ == old(self).measurements@,
            final(self).name@ == old(self).name@,
    {
        let ghost ls = self.spec_layers();
        let mut out: Vec<CircuitLayer> = Vec::new();
        let n = self.layers.len();
        for k in 0..n
            invariant
                n == self.layers.len(),
                ls == self.spec_layers(),
                out@.len() == k,
                out@.map_values(|l: CircuitLayer| l.spec_gates())
                    == ls.map_values(|l: Seq<SpecGate>| cancel_in_layer(l)).subrange(0, k as int),
        {
            let layer = &self.layers[k];
            let gates = cancel_gates(&layer.gates);
            assert(ls[k as int] == layer.spec_gates());
            let ghost prev_out = out@;
            out.push(CircuitLayer { gates, depth: layer.depth, parallel_gates: copy_groups(&layer.parallel_gates) });
            assert(out@[k as int].spec_gates() == cancel_in_layer(ls[k as int]));
            assert(out@.map_values(|l: CircuitLayer| l.spec_gates()) =~= ls.map_values(
                |l: Seq<SpecGate>| cancel_in_layer(l),
            ).subrange(0, k + 1));
        }
        self.layers = out;
        assert(self.spec_layers() =~= ls.map_values(|l: Seq<SpecGate>| cancel_in_layer(l)));
        proof {
            let nq = self.num_qubits;
            assert forall|i: int| 0 <= i < self.spec_layers().len() implies gates_in_bounds(#[trigger] self.spec_layers()[i], nq) by {
                assert(gates_in_bounds(ls[i], nq));
                lemma_unmarked_in_bounds(ls[i], cancel_marks_from(ls[i], 0, Map::empty(), Set::empty()), ls[i].len() as int, nq);
            }
        }
    }

    /// Appends the layers of `other`, one by one as [`add_layer`] does:
    /// refused when the circuits have different numbers of qubits.
    pub fn compose(&mut self, other: &QuantumCircuit) -> (r: Result<(), CircuitError>)
        requires
            old(self).wf(),
        ensures
            final(self).wf(),
            final(self).num_qubits == old(self).num_qubits,
            final(self).measurements@ == old(self).measurements@,
            final(self).name@ == old(self).name@,
            old(self).num_qubits != other.num_qubits ==> r == Err::<(), CircuitError>(CircuitError::QubitCountMismatch)
                && final(self).spec_layers() == old(self).spec_layers(),
            old(self).num_qubits == other.num_qubits ==> match first_bad_layer(other.spec_layers(), other.num_qubits, 0) {
                None => r is Ok && final(self).spec_layers() == old(self).spec_layers() + other.spec_layers(),
                Some((k, q)) => r == Err::<(), CircuitError>(CircuitError::QubitOutOfBounds { qubit: q, num_qubits: other.num_qubits })
                    && final(self).spec_layers() == old(self).spec_layers() + other.spec_layers().subrange(0, k),
            },
    {
        if self.num_qubits != other.num_qubits {
            return Err(CircuitError::QubitCountMismatch);
        }
        let ghost ol = other.spec_layers();
        let ghost start = self.spec_layers();
        for k in 0..other.layers.len()
            invariant
                ol == other.spec_layers(),
                self.num_qubits == other.num_qubits,
                self.wf(),
                self.num_qubits == old(self).num_qubits,
                self.measurements@ == old(self).measurements@,
                self.name@ == old(self).name@,
                start == old(self).spec_layers(),
                self.spec_layers() == start + ol.subrange(0, k as int),
                first_bad_layer(ol, other.num_qubits, 0) == first_bad_layer(ol, other.num_qubits, k as int),
        {
            let mut gates: Vec<QuantumGate> = Vec::new();
            let src = &other.layers[k].gates;
            for m in 0..src.len()
                invariant
                    gates@.len() == m,
                    view_gates(gates@) == view_gates(src@.subrange(0, m as int)),
            {
                let ghost prev_g = gates@;
                gates.push(src[m].duplicate());
                proof {
                    lemma_view_gates_push(prev_g, gates@[m as int]);
                    lemma_view_gates_push(src@.subrange(0, m as int), src@[m as int]);
                    assert(src@.subrange(0, m + 1) =~= src@.subrange(0, m as int).push(src@[m as int]));
                }
            }
            assert(src@.subrange(0, src.len() as int) =~= src@);
            assert(view_gates(gates@) == ol[k as int]);
            match self.add_layer(gates) {
                Ok(()) => {
                    assert(self.spec_layers() =~= start + ol.subrange(0, k + 1));
                },
                Err(e) => {
                    return Err(e);
                },
            }
        }
        assert(ol.subrange(0, other.layers.len() as int) =~= ol);
        Ok(())
    }
}

/// The first layer, from index `k` on, with a gate naming a qubit not
/// below `n`, and that qubit.
pub open spec fn first_bad_layer(layers: Seq<Seq<SpecGate>>, n: usize, k: int) -> Option<(int, QubitIndex)>
    decreases layers.len() - k,
{
    if k < 0 || k >= layers.len() {
        None
    } else {
        match first_bad_qubit(layers[k], n) {
            Some(q) => Some((k, q)),
            None => first_bad_layer(layers, n, k + 1),
        }
    }
}

/// What holds of every item of a sequence holds of every item that a filter
/// keeps.
pub proof fn lemma_filter_keeps<A>(s: Seq<A>, p: spec_fn(A) -> bool, q: spec_fn(A) -> bool)
    requires
        forall|i: int| 0 <= i < s.len() ==> q(#[trigger] s[i]),
    ensures
        forall|i: int| 0 <= i < s.filter(p).len() ==> q(#[trigger] s.filter(p)[i]),
    decreases s.len(),
{
    reveal(Seq::filter);
    if s.len() > 0 {
        let d = s.drop_last();
        assert forall|i: int| 0 <= i < d.len() implies q(#[trigger] d[i]) by {
            assert(d[i] == s[i]);
        }
        lemma_filter_keeps(d, p, q);
        let f = s.filter(p);
        assert forall|i: int| 0 <= i < f.len() implies q(#[trigger] f[i]) by {
            if i < d.filter(p).len() {
                assert(f[i] == d.filter(p)[i]);
            } else {
                assert(f[i] == s.last());
                assert(q(s[s.len() - 1]));
            }
        }
    }
}

pub proof fn lemma_add_gate_in_bounds(layers: Seq<Seq<SpecGate>>, g: SpecGate, n: usize)
    requires
        layers_in_bounds(layers, n),
        qubits_in_bounds(g.qubits, n),
    ensures
        layers_in_bounds(add_gate_spec(layers, g), n),
{
    let r = add_gate_spec(layers, g);
    assert forall|i: int| 0 <= i < r.len() implies gates_in_bounds(#[trigger] r[i], n) by {
        if i < layers.len() && !(i == layers.len() - 1 && fits_layer(layers.last(), g)) {
            assert(r[i] == layers[i]);
        } else {
            let l = r[i];
            assert forall|j: int| 0 <= j < l.len() implies qubits_in_bounds(#[trigger] l[j].qubits, n) by {
                if j < l.len() - 1 {
                    assert(l[j] == layers[i][j]);
                }
            }
        }
    }
}

proof fn lemma_unmarked_in_bounds(gates: Seq<SpecGate>, marked: Set<int>, k: int, n: usize)
    requires
        0 <= k <= gates.len(),
        gates_in_bounds(gates, n),
    ensures
        gates_in_bounds(unmarked(gates, marked, k), n),
    decreases k,
{
    if k > 0 {
        lemma_unmarked_in_bounds(gates, marked, k - 1, n);
        let u = unmarked(gates, marked, k);
        let v = unmarked(gates, marked, k - 1);
        assert forall|j: int| 0 <= j < u.len() implies qubits_in_bounds(#[trigger] u[j].qubits, n) by {
            if j < v.len() {
                assert(u[j] == v[j]);
            }
        }
    }
}

pub proof fn lemma_first_bad_layer_none(layers: Seq<Seq<SpecGate>>, n: usize, k: int)
    requires
        0 <= k,
        layers_in_bounds(layers, n),
    ensures
        first_bad_layer(layers, n, k) is None,
    decreases layers.len() - k,
{
    if k < layers.len() {
        lemma_first_bad_qubit_none(layers[k], n, 0);
        lemma_first_bad_layer_none(layers, n, k + 1);
    }
}

proof fn lemma_view_groups_push(s: Seq<Vec<usize>>, x: Vec<usize>)
    ensures
        view_groups(s.push(x)) == view_groups(s).push(x@),
{
    assert(view_groups(s.push(x)) =~= view_groups(s).push(x@));
}

proof fn lemma_view_gates_push(s: Seq<QuantumGate>, x: QuantumGate)
    ensures
        view_gates(s.push(x)) == view_gates(s).push(x@),
{
    assert(view_gates(s.push(x)) =~= view_gates(s).push(x@));
}

proof fn lemma_total_gates_prefix(ls: Seq<Seq<SpecGate>>, k: int)
    requires
        0 <= k <= ls.len(),
    ensures
        total_gates(ls.subrange(0, k)) <= total_gates(ls),
    decreases ls.len() - k,
{
    if k < ls.len() {
        lemma_total_gates_prefix(ls, k + 1);
        assert(ls.subrange(0, k + 1).drop_last() =~= ls.subrange(0, k));
    } else {
        assert(ls.subrange(0, k) =~= ls);
    }
}

/// Filtering keeps a sequence whose items all pass.
pub proof fn lemma_filter_all<A>(s: Seq<A>, p: spec_fn(A) -> bool)
    requires
        forall|i: int| 0 <= i < s.len() ==> p(#[trigger] s[i]),
    ensures
        s.filter(p) == s,
    decreases s.len(),
{
    reveal(Seq::filter);
    if s.len() > 0 {
        let d = s.drop_last();
        assert forall|i: int| 0 <= i < d.len() implies p(#[trigger] d[i]) by {
            assert(d[i] == s[i]);
        }
        lemma_filter_all(d, p);
        assert(p(s[s.len() - 1]));
        assert(d.push(s.last()) =~= s);
    }
}

/// The gates of two runs of layers one after the other are those of each.
pub proof fn law_total_gates_concat(a: Seq<Seq<SpecGate>>, b: Seq<Seq<SpecGate>>)
    ensures
        total_gates(a + b) == total_gates(a) + total_gates(b),
    decreases b.len(),
{
    if b.len() == 0 {
        assert(a + b =~= a);
    } else {
        law_total_gates_concat(a, b.drop_last());
        assert((a + b).drop_last() =~= a + b.drop_last());
        assert((a + b).last() == b.last());
    }
}

/// Adding a gate counts it once: the circuit then holds one gate more,
/// whether it joins the last layer or starts a layer of its own.
pub proof fn law_add_gate_counts_one(layers: Seq<Seq<SpecGate>>, g: SpecGate)
    ensures
        total_gates(add_gate_spec(layers, g)) == total_gates(layers) + 1,
{
    let r = add_gate_spec(layers, g);
    if layers.len() > 0 && fits_layer(layers.last(), g) {
        assert(r.drop_last() =~= layers.drop_last());
        assert(r.last() == layers.last().push(g));
    } else {
        assert(r.drop_last() =~= layers);
    }
}

/// Adding gates one by one adds exactly their number of gates.
pub proof fn law_add_gates_count(layers: Seq<Seq<SpecGate>>, gs: Seq<SpecGate>)
    ensures
        total_gates(add_gates_spec(layers, gs)) == total_gates(layers) + gs.len(),
    decreases gs.len(),
{
    if gs.len() > 0 {
        law_add_gates_count(layers, gs.drop_last());
        law_add_gate_counts_one(add_gates_spec(layers, gs.drop_last()), gs.last());
    }
}

/// Removing identity gates twice removes no more than once.
pub proof fn law_remove_identity_idempotent(layers: Seq<Seq<SpecGate>>)
    ensures
        without_identity(without_identity(layers)) == without_identity(layers),
{
    let fl = |l: Seq<SpecGate>| l.filter(|g: SpecGate| not_identity(g));
    let ne = |l: Seq<SpecGate>| l.len() > 0;
    let kept = |l: Seq<SpecGate>| fl(l) == l;
    let m = layers.map_values(fl);
    let w = m.filter(ne);
    assert(without_identity(layers) == w);
    assert forall|i: int| 0 <= i < m.len() implies kept(#[trigger] m[i]) by {
        let l = layers[i];
        assert forall|j: int| 0 <= j < fl(l).len() implies not_identity(#[trigger] fl(l)[j]) by {
            l.lemma_filter_pred(|g: SpecGate| not_identity(g), j);
        }
        lemma_filter_all(fl(l), |g: SpecGate| not_identity(g));
    }
    lemma_filter_keeps(m, ne, kept);
    assert forall|i: int| 0 <= i < w.len() implies ne(#[trigger] w[i]) by {
        m.lemma_filter_pred(ne, i);
    }
    assert(w.map_values(fl) =~= w);
    lemma_filter_all(w, ne);
}

} // verus!

verus! {

/// The outcome of adding one gate, as [`QuantumCircuit::add_gate`] states it.
pub open spec fn gate_added(old_c: QuantumCircuit, new_c: QuantumCircuit, g: SpecGate, r: Result<(), CircuitError>) -> bool {
    &&& new_c.wf()
    &&& new_c.num_qubits == old_c.num_qubits
    &&& new_c.measurements@ == old_c.measurements@
    &&& new_c.name@ == old_c.name@
    &&& match first_out_of_bounds(g.qubits, old_c.num_qubits) {
        Some(q) => r == Err::<(), CircuitError>(CircuitError::QubitOutOfBounds { qubit: q, num_qubits: old_c.num_qubits })
            && new_c.spec_layers() == old_c.spec_layers(),
        None => r is Ok && new_c.spec_layers() == add_gate_spec(old_c.spec_layers(), g),
    }
}

impl QuantumCircuit {
    pub fn y(&mut self, qubit: QubitIndex) -> (r: Result<(), CircuitError>)
        requires
            old(self).wf(),
        ensures
            gate_added(*old(self), *final(self), crate::quantum::gates::gate(SpecGateType::PauliY, seq![qubit]), r),
    {
        self.add_gate(QuantumGate::pauli_y(qubit))
    }

    /// Adds an RX gate; `angle` is the bit pattern of the angle.
    pub fn rx(&mut self, qubit: QubitIndex, angle: u64) -> (r: Result<(), CircuitError>)
        requires
            old(self).wf(),
        ensures
            gate_added(*old(self), *final(self), crate::quantum::gates::gate(SpecGateType::RX(angle), seq![qubit]), r),
    {
        self.add_gate(QuantumGate::rx(qubit, angle))
    }

    /// Adds an RY gate; `angle` is the bit pattern of the angle.
    pub fn ry(&mut self, qubit: QubitIndex, angle: u64) -> (r: Result<(), CircuitError>)
        requires
            old(self).wf(),
        ensures
            gate_added(*old(self), *final(self), crate::quantum::gates::gate(SpecGateType::RY(angle), seq![qubit]), r),
    {
        self.add_gate(QuantumGate::ry(qubit, angle))
    }

    pub fn toffoli(&mut self, control1: QubitIndex, control2: QubitIndex, target: QubitIndex) -> (r: Result<(), CircuitError>)
        requires
            old(self).wf(),
        ensures
            gate_added(*old(self), *final(self), crate::quantum::gates::gate(SpecGateType::Toffoli, seq![control1, control2, target]), r),
    {
        self.add_gate(QuantumGate::toffoli(control1, control2, target))
    }

    /// A summary: `Circuit: <name>`, then `Qubits: `, `Depth: `, `Gates: `
    /// and `Layers: ` with their numbers, one per line.
    pub fn info(&self) -> (s: String)
        requires
            self.spec_gate_count() <= usize::MAX,
        ensures
            s@ == "Circuit: "@ + self.name@ + "\nQubits: "@ + decimal(self.num_qubits as nat)
                + "\nDepth: "@ + decimal(self.total_depth as nat) + "\nGates: "@ + decimal(self.spec_gate_count())
                + "\nLayers: "@ + decimal(self.layers@.len()),
    {
        let mut out: Vec<char> = Vec::new();
        crate::text::push_str_chars(&mut out, "Circuit: ");
        crate::text::push_str_chars(&mut out, self.name.as_str());
        crate::text::push_str_chars(&mut out, "\nQubits: ");
        crate::text::push_decimal(&mut out, self.num_qubits as u64);
        crate::text::push_str_chars(&mut out, "\nDepth: ");
        crate::text::push_decimal(&mut out, self.total_depth as u64);
        crate::text::push_str_chars(&mut out, "\nGates: ");
        crate::text::push_decimal(&mut out, self.gate_count() as u64);
        crate::text::push_str_chars(&mut out, "\nLayers: ");
        crate::text::push_decimal(&mut out, self.layers.len() as u64);
        crate::text::string_from_chars(out.as_slice())
    }
}

impl CircuitError {
    /// The message of the error: `Qubit <q> out of bounds for <n>-qubit
    /// circuit`, or `Cannot compose circuits with different number of
    /// qubits`.
    pub fn message(&self) -> (s: String)
        ensures
            s@ == match *self {
                CircuitError::QubitOutOfBounds { qubit, num_qubits } => "Qubit "@ + decimal(qubit as nat)
                    + " out of bounds for "@ + decimal(num_qubits as nat) + "-qubit circuit"@,
                CircuitError::QubitCountMismatch => "Cannot compose circuits with different number of qubits"@,
            },
    {
        let mut out: Vec<char> = Vec::new();
        match self {
            CircuitError::QubitOutOfBounds { qubit, num_qubits } => {
                crate::text::push_str_chars(&mut out, "Qubit ");
                crate::text::push_decimal(&mut out, *qubit as u64);
                crate::text::push_str_chars(&mut out, " out of bounds for ");
                crate::text::push_decimal(&mut out, *num_qubits as u64);
                crate::text::push_str_chars(&mut out, "-qubit circuit");
            },
            CircuitError::QubitCountMismatch => {
                crate::text::push_str_chars(&mut out, "Cannot compose circuits with different number of qubits");
            },
        }
        crate::text::string_from_chars(out.as_slice())
    }
}

/// Builds a circuit step by step; a gate that names a missing qubit is
/// dropped.
pub struct CircuitBuilder {
    circuit: QuantumCircuit,
}

impl CircuitBuilder {
    /// The circuit built so far.
    pub closed spec fn spec_circuit(&self) -> QuantumCircuit {
        self.circuit
    }

    pub fn new(num_qubits: usize) -> (b: CircuitBuilder)
        ensures
            b.spec_circuit().wf(),
            b.spec_circuit().num_qubits == num_qubits,
            b.spec_circuit().layers@.len() == 0,
            b.spec_circuit().measurements@ == Map::<QubitIndex, Option<bool>>::empty(),
            b.spec_circuit().name@ == default_circuit_name(num_qubits),
    {
        CircuitBuilder { circuit: QuantumCircuit::new(num_qubits) }
    }

    pub fn with_name(num_qubits: usize, name: String) -> (b: CircuitBuilder)
        ensures
            b.spec_circuit().wf(),
            b.spec_circuit().num_qubits == num_qubits,
            b.spec_circuit().layers@.len() == 0,
            b.spec_circuit().measurements@ == Map::<QubitIndex, Option<bool>>::empty(),
            b.spec_circuit().name@ == name@,
    {
        CircuitBuilder { circuit: QuantumCircuit::with_name(num_qubits, name) }
    }

    pub fn h(self, qubit: QubitIndex) -> (b: CircuitBuilder)
        requires
            self.spec_circuit().wf(),
        ensures
            exists|r: Result<(), CircuitError>| gate_added(self.spec_circuit(), b.spec_circuit(), crate::quantum::gates::h_gate(qubit), r),
    {
        let mut s = self;
        let r = s.circuit.h(qubit);
        proof {
            lemma_one_qubit_bounds(qubit, self.circuit.num_qubits);
            assert(gate_added(self.spec_circuit(), s.spec_circuit(), crate::quantum::gates::h_gate(qubit), r));
        }
        s
    }

    pub fn x(self, qubit: QubitIndex) -> (b: CircuitBuilder)
        requires
            self.spec_circuit().wf(),
        ensures
            exists|r: Result<(), CircuitError>| gate_added(self.spec_circuit(), b.spec_circuit(), crate::quantum::gates::x_gate(qubit), r),
    {
        let mut s = self;
        let r = s.circuit.x(qubit);
        proof {
            lemma_one_qubit_bounds(qubit, self.circuit.num_qubits);
            assert(gate_added(self.spec_circuit(), s.spec_circuit(), crate::quantum::gates::x_gate(qubit), r));
        }
        s
    }

    pub fn cnot(self, control: QubitIndex, target: QubitIndex) -> (b: CircuitBuilder)
        requires
            self.spec_circuit().wf(),
        ensures
            exists|r: Result<(), CircuitError>| gate_added(self.spec_circuit(), b.spec_circuit(), crate::quantum::gates::cnot_gate(control, target), r),
    {
        let mut s = self;
        let r = s.circuit.cnot(control, target);
        assert(gate_added(self.spec_circuit(), s.spec_circuit(), crate::quantum::gates::cnot_gate(control, target), r));
        s
    }

    pub fn measure(self, qubit: QubitIndex) -> (b: CircuitBuilder)
        requires
            self.spec_circuit().wf(),
        ensures
            b.spec_circuit().wf(),
            b.spec_circuit().measurements@ == self.spec_circuit().measurements@.insert(qubit, None),
            b.spec_circuit().spec_layers() == self.spec_circuit().spec_layers(),
            b.spec_circuit().num_qubits == self.spec_circuit().num_qubits,
            b.spec_circuit().name@ == self.spec_circuit().name@,
    {
        let mut s = self;
        s.circuit.measure(qubit);
        s
    }

    pub fn measure_all(self) -> (b: CircuitBuilder)
        requires
            self.spec_circuit().wf(),
        ensures
            b.spec_circuit().wf(),
            b.spec_circuit().measurements@ == self.spec_circuit().measurements@.union_prefer_right(
                Map::new(|q: QubitIndex| q < self.spec_circuit().num_qubits, |q: QubitIndex| None::<bool>),
            ),
            b.spec_circuit().spec_layers() == self.spec_circuit().spec_layers(),
            b.spec_circuit().num_qubits == self.spec_circuit().num_qubits,
            b.spec_circuit().name@ == self.spec_circuit().name@,
    {
        let mut s = self;
        s.circuit.measure_all();
        s
    }

    pub fn build(self) -> (c: QuantumCircuit)
        ensures
            c == self.spec_circuit(),
    {
        self.circuit
    }
}

} // verus!
