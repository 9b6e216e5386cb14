//! Random circuits: the draws made from a seeded generator, and the circuit
//! built from the gates drawn.
use vstd::prelude::*;
use rand::rngs::StdRng;
use rand::{Rng, SeedableRng};
use crate::quantum::algorithms::{QuantumSupremacyCircuits, RandomGate, drawn_gate, draw_in_bounds};
use crate::quantum::circuit::{QuantumCircuit, add_gates_spec};
use crate::quantum::gates::QubitIndex;
use crate::text::{decimal, push_decimal, push_str_chars, string_from_chars};

verus! {

/// The generator of the `rand` crate that random circuits are drawn from.
#[verifier::external_type_specification]
#[verifier::external_body]
pub struct ExStdRng(StdRng);

/// `StdRng::seed_from_u64`: a generator seeded with `seed`. Nothing is
/// claimed of its state.
#[verifier::external_body]
fn seeded_generator(seed: u64) -> (g: StdRng) {
    StdRng::seed_from_u64(seed)
}

/// `Rng::gen_range(0..hi)` on `i32`: claimed to give a value of the range,
/// as the crate documents for a range that is not empty (an empty one
/// panics, which `requires` rules out). Which value is drawn is not stated.
#[verifier::external_body]
fn draw_i32_below(g: &mut StdRng, hi: i32) -> (r: i32)
    requires
        0 < hi,
    ensures
        0 <= r < hi,
{
    g.gen_range(0..hi)
}

/// `Rng::gen_range(0..hi)` on `usize`: claimed to give a value of the
/// range, which is not empty. Which value is drawn is not stated.
#[verifier::external_body]
fn draw_usize_below(g: &mut StdRng, hi: usize) -> (r: usize)
    requires
        0 < hi,
    ensures
        r < hi,
{
    g.gen_range(0..hi)
}

/// `Rng::gen::<u64>()`: sixty-four random bits, the draw that the crate's
/// uniform double in `[0, 1)` is made from. Nothing is claimed of them.
#[verifier::external_body]
fn draw_bits(g: &mut StdRng) -> (r: u64) {
    g.gen::<u64>()
}

/// A draw for a random circuit; a rotation carries the sixty-four random
/// bits its angle is made from.
#[derive(Debug, Clone, Copy, PartialEq, Eq, Structural)]
pub enum RandomDraw {
    H(QubitIndex),
    X(QubitIndex),
    Z(QubitIndex),
    Cnot(QubitIndex, QubitIndex),
    Ry(QubitIndex, u64),
}

/// Whether a draw names only qubits below `n`, and a CNOT two distinct
/// qubits.
pub open spec fn draw_ok(d: RandomDraw, n: usize) -> bool {
    match d {
        RandomDraw::H(q) => q < n,
        RandomDraw::X(q) => q < n,
        RandomDraw::Z(q) => q < n,
        RandomDraw::Cnot(a, b) => a < n && b < n && a != b,
        RandomDraw::Ry(q, _) => q < n,
    }
}

/// The values drawn in one step: the kind (`0` a single-qubit gate, `1` a
/// CNOT, any other a rotation), a qubit, the choice among H, X and Z, a
/// second qubit, and the bits of an angle. A step draws only the values its
/// kind reads; the others stand at any value.
pub type StepValues = (i32, usize, i32, usize, u64);

/// Whether the values of a step lie in the ranges they are drawn from: the
/// kind and the choice below 3, the qubits below `n`.
pub open spec fn step_in_range(v: StepValues, n: usize) -> bool {
    &&& 0 <= v.0 < 3
    &&& v.1 < n
    &&& 0 <= v.2 < 3
    &&& v.3 < n
}

/// The draw one step gives: for kind `0` an H, X or Z on the qubit, as the
/// choice is `0`, `1` or any other; for kind `1` a CNOT from the first
/// qubit to the second, or nothing when they are the same; otherwise a
/// rotation of the qubit with the angle bits.
pub open spec fn step_draw(v: StepValues) -> Option<RandomDraw> {
    if v.0 == 0 {
        Some(
            if v.2 == 0 {
                RandomDraw::H(v.1)
            } else if v.2 == 1 {
                RandomDraw::X(v.1)
            } else {
                RandomDraw::Z(v.1)
            },
        )
    } else if v.0 == 1 {
        if v.1 != v.3 {
            Some(RandomDraw::Cnot(v.1, v.3))
        } else {
            None
        }
    } else {
        Some(RandomDraw::Ry(v.1, v.4))
    }
}

/// The draws the steps give, in order.
pub open spec fn draws_of(steps: Seq<StepValues>) -> Seq<RandomDraw>
    decreases steps.len(),
{
    if steps.len() == 0 {
        Seq::empty()
    } else {
        let d = draws_of(steps.drop_last());
        match step_draw(steps.last()) {
            Some(x) => d.push(x),
            None => d,
        }
    }
}

/// The draw of one step, as [`step_draw`] says.
pub fn draw_of(kind: i32, q: usize, which: i32, b: usize, bits: u64) -> (r: Option<RandomDraw>)
    ensures
        r == step_draw((kind, q, which, b, bits)),
{
    if kind == 0 {
        if which == 0 {
            Some(RandomDraw::H(q))
        } else if which == 1 {
            Some(RandomDraw::X(q))
        } else {
            Some(RandomDraw::Z(q))
        }
    } else if kind == 1 {
        if q != b {
            Some(RandomDraw::Cnot(q, b))
        } else {
            None
        }
    } else {
        Some(RandomDraw::Ry(q, bits))
    }
}

/// The draws of a random circuit of `depth` steps, from a generator seeded
/// with `seed`. Each step draws its kind below 3; a single-qubit gate then
/// draws its qubit below `num_qubits` and its choice below 3; a CNOT draws
/// two qubits below `num_qubits`; a rotation draws its qubit and the bits of
/// its angle. The draws are those that [`step_draw`] gives for the values
/// drawn, step after step; which values come is the generator's, and is not
/// stated. Without qubits no step can draw one, so `depth` is then 0.
pub fn random_draws(num_qubits: usize, depth: usize, seed: u64) -> (draws: Vec<RandomDraw>)
    requires
        num_qubits > 0 || depth == 0,
    ensures
        exists|steps: Seq<StepValues>|
            steps.len() == depth && (forall|i: int| 0 <= i < steps.len() ==> step_in_range(#[trigger] steps[i], num_qubits))
                && draws@ == draws_of(steps),
        draws@.len() <= depth,
        forall|i: int| 0 <= i < draws@.len() ==> draw_ok(#[trigger] draws@[i], num_qubits),
{
    let mut g = seeded_generator(seed);
    let mut draws: Vec<RandomDraw> = Vec::new();
    let ghost mut steps: Seq<StepValues> = Seq::empty();
    for step in 0..depth
        invariant
            num_qubits > 0 || depth == 0,
            steps.len() == step,
            forall|i: int| 0 <= i < steps.len() ==> step_in_range(#[trigger] steps[i], num_qubits),
            draws@ == draws_of(steps),
            draws@.len() <= step,
            forall|i: int| 0 <= i < draws@.len() ==> draw_ok(#[trigger] draws@[i], num_qubits),
    {
        let kind = draw_i32_below(&mut g, 3);
        let (q, which, b, bits) = if kind == 0 {
            let q = draw_usize_below(&mut g, num_qubits);
            let which = draw_i32_below(&mut g, 3);
            (q, which, 0usize, 0u64)
        } else if kind == 1 {
            let a = draw_usize_below(&mut g, num_qubits);
            let b = draw_usize_below(&mut g, num_qubits);
            (a, 0i32, b, 0u64)
        } else {
            let q = draw_usize_below(&mut g, num_qubits);
            let bits = draw_bits(&mut g);
            (q, 0i32, 0usize, bits)
        };
        let ghost v: StepValues = (kind, q, which, b, bits);
        let ghost before = steps;
        proof {
            steps = steps.push(v);
            assert(steps.drop_last() =~= before);
            assert(steps.last() == v);
        }
        match draw_of(kind, q, which, b, bits) {
            Some(d) => {
                draws.push(d);
            },
            None => {},
        }
    }
    draws
}

/// The name of a random circuit: `Random_<n>q_<d>d`.
pub open spec fn random_circuit_name(n: usize, d: usize) -> Seq<char> {
    "Random_"@ + decimal(n as nat) + "q_"@ + decimal(d as nat) + "d"@
}

impl QuantumSupremacyCircuits {
    /// The random circuit of `depth` steps on `num_qubits` qubits whose
    /// drawn gates are `gates`: they are added one by one in order, and
    /// the circuit is named `Random_<n>q_<d>d`.
    pub fn random_circuit(num_qubits: usize, depth: usize, gates: &Vec<RandomGate>) -> (c: QuantumCircuit)
        requires
            forall|i: int| 0 <= i < gates@.len() ==> draw_in_bounds(#[trigger] gates@[i], num_qubits),
        ensures
            c.wf(),
            c.num_qubits == num_qubits,
            c.spec_layers() == add_gates_spec(Seq::empty(), gates@.map_values(|d: RandomGate| drawn_gate(d))),
            c.measurements@ == Map::<QubitIndex, Option<bool>>::empty(),
            c.name@ == random_circuit_name(num_qubits, depth),
    {
        let mut c = QuantumSupremacyCircuits::circuit_from_draws(num_qubits, gates);
        let mut name: Vec<char> = Vec::new();
        push_str_chars(&mut name, "Random_");
        push_decimal(&mut name, num_qubits as u64);
        push_str_chars(&mut name, "q_");
        push_decimal(&mut name, depth as u64);
        push_str_chars(&mut name, "d");
        c.name = string_from_chars(name.as_slice());
        c
    }
}

} // verus!
