//! Text renderings of circuits: ASCII, Unicode box drawing, HTML and SVG.
//!
//! Angles are written as the caller's table of angle texts gives them (the
//! text of an angle is a decimal rendering of a double, which the caller
//! makes); an angle missing from the table is written as nothing.
use vstd::prelude::*;
use crate::text::{decimal, push_str_chars, push_chars, push_decimal, string_from_chars, chars_of};
use vstd::utf8::encode_utf8;
use crate::quantum::gates::{GateType, SpecGate, SpecGateType, QuantumGate};
use crate::quantum::circuit::{QuantumCircuit, CircuitLayer, total_gates, layers_in_bounds};
use std::collections::HashMap;
use vstd::std_specs::iter::IteratorSpec;

verus! {

broadcast use vstd::std_specs::hash::group_hash_axioms;

/// How a circuit is rendered.
#[derive(Debug, Clone, Copy, PartialEq, Eq, Structural)]
pub enum RenderStyle {
    ASCII,
    Unicode,
    SVG,
    HTML,
}

/// What the quantum panel shows.
#[derive(Debug, Clone, Copy, PartialEq, Eq, Structural)]
pub enum VisualizationMode {
    Circuit,
    State,
    Bloch,
    Histogram,
    Animation,
}

/// The settings of the renderings.
#[derive(Debug, Clone, Copy, PartialEq, Eq, Structural)]
pub struct VisualizationConfig {
    pub style: RenderStyle,
    pub width: usize,
    pub show_measurements: bool,
    pub show_probabilities: bool,
    pub compact_mode: bool,
    pub color_enabled: bool,
}

impl Default for VisualizationConfig {
    /// Unicode, 120 columns wide, measurements and probabilities shown, not
    /// compact, in colour.
    fn default() -> (c: Self)
        ensures
            c == (VisualizationConfig {
                style: RenderStyle::Unicode,
                width: 120,
                show_measurements: true,
                show_probabilities: true,
                compact_mode: false,
                color_enabled: true,
            }),
    {
        VisualizationConfig {
            style: RenderStyle::Unicode,
            width: 120,
            show_measurements: true,
            show_probabilities: true,
            compact_mode: false,
            color_enabled: true,
        }
    }
}

/// Renders circuits.
pub struct CircuitRenderer {
    pub config: VisualizationConfig,
}

/// Renders states; its renderings compute with the amplitudes, which the
/// caller does.
pub struct StateRenderer {
    pub config: VisualizationConfig,
}

impl StateRenderer {
    pub fn new(config: VisualizationConfig) -> (r: Self)
        ensures
            r.config == config,
    {
        StateRenderer { config }
    }
}

// ---------------------------------------------------------------------
// Pieces of text
// ---------------------------------------------------------------------

/// `n` copies of `t`.
pub open spec fn repeat_text(t: Seq<char>, n: nat) -> Seq<char>
    decreases n,
{
    if n == 0 {
        Seq::empty()
    } else {
        repeat_text(t, (n - 1) as nat) + t
    }
}

/// `s` followed by spaces up to `w` characters, as `{:<w}` writes it.
pub open spec fn pad_right(s: Seq<char>, w: nat) -> Seq<char> {
    if s.len() < w {
        s + repeat_text(seq![' '], (w - s.len()) as nat)
    } else {
        s
    }
}

/// The text of the angle with this bit pattern: that of its first entry in
/// the table, or nothing.
pub open spec fn angle_label(labels: Seq<(u64, Seq<char>)>, bits: u64) -> Seq<char>
    decreases labels.len(),
{
    if labels.len() == 0 {
        Seq::empty()
    } else if labels[0].0 == bits {
        labels[0].1
    } else {
        angle_label(labels.drop_first(), bits)
    }
}

/// The label of a gate of kind `k` on qubits `qs` at qubit `q` in the text
/// renderings: its letter, its angle in brackets, or the control or target
/// mark of a controlled gate.
pub open spec fn gate_label(k: SpecGateType, qs: Seq<usize>, q: usize, labels: Seq<(u64, Seq<char>)>) -> Seq<char> {
    match k {
        SpecGateType::Identity => "I"@,
        SpecGateType::PauliX => "X"@,
        SpecGateType::PauliY => "Y"@,
        SpecGateType::PauliZ => "Z"@,
        SpecGateType::Hadamard => "H"@,
        SpecGateType::Phase(a) => "P("@ + angle_label(labels, a) + ")"@,
        SpecGateType::RX(a) => "RX("@ + angle_label(labels, a) + ")"@,
        SpecGateType::RY(a) => "RY("@ + angle_label(labels, a) + ")"@,
        SpecGateType::RZ(a) => "RZ("@ + angle_label(labels, a) + ")"@,
        SpecGateType::T => "T"@,
        SpecGateType::S => "S"@,
        SpecGateType::CNOT => if qs[0] == q { "●"@ } else { "⊕"@ },
        SpecGateType::CZ => if qs[0] == q { "●"@ } else { "Z"@ },
        SpecGateType::SWAP => "✕"@,
        SpecGateType::Toffoli => if qs[2] == q { "⊕"@ } else { "●"@ },
        _ => "G"@,
    }
}

/// The label at qubit `q` of the first gate, from gate `k` of a layer on,
/// that acts on `q`; a wire when none does.
pub open spec fn label_from(gates: Seq<SpecGate>, q: usize, labels: Seq<(u64, Seq<char>)>, k: int) -> Seq<char>
    decreases gates.len() - k,
{
    if k < 0 || k >= gates.len() {
        "─"@
    } else if gates[k].qubits.contains(q) {
        gate_label(gates[k].kind, gates[k].qubits, q, labels)
    } else {
        label_from(gates, q, labels, k + 1)
    }
}

/// Whether every Toffoli gate names at least three qubits, as the
/// renderings read its third one.
pub open spec fn toffolis_complete(layers: Seq<Seq<SpecGate>>) -> bool {
    forall|i: int, j: int|
        0 <= i < layers.len() && 0 <= j < layers[i].len() && (#[trigger] layers[i][j]).kind is Toffoli
            ==> layers[i][j].qubits.len() >= 3
}

// ---------------------------------------------------------------------
// ASCII
// ---------------------------------------------------------------------

/// The cells of qubit `q` in the first `k` layers: each label padded to 8
/// characters, with a wire between layers.
pub open spec fn ascii_cells(layers: Seq<Seq<SpecGate>>, q: usize, labels: Seq<(u64, Seq<char>)>, k: nat) -> Seq<char>
    decreases k,
{
    if k == 0 {
        Seq::empty()
    } else {
        ascii_cells(layers, q, labels, (k - 1) as nat) + pad_right(label_from(layers[k - 1], q, labels, 0), 8) + if k
            < layers.len() {
            "─"@
        } else {
            Seq::empty()
        }
    }
}

/// The line of qubit `q`: its name, its cells, and the measurement mark
/// when it is measured and measurements are shown.
pub open spec fn ascii_line(c: QuantumCircuit, q: usize, labels: Seq<(u64, Seq<char>)>, show: bool) -> Seq<char> {
    "q"@ + pad_right(decimal(q as nat), 2) + ": "@ + ascii_cells(c.spec_layers(), q, labels, c.spec_layers().len())
        + (if c.measurements@.contains_key(q) && show { " ►[M]"@ } else { Seq::empty() }) + "\n"@
}

/// The lines of the first `k` qubits.
pub open spec fn ascii_lines(c: QuantumCircuit, labels: Seq<(u64, Seq<char>)>, show: bool, k: nat) -> Seq<char>
    decreases k,
{
    if k == 0 {
        Seq::empty()
    } else {
        ascii_lines(c, labels, show, (k - 1) as nat) + ascii_line(c, (k - 1) as usize, labels, show)
    }
}

/// The vertical connection drawn under a two-qubit gate of layer `idx`: a
/// line for each qubit strictly between its two qubits.
pub open spec fn connection(g: SpecGate, idx: nat) -> Seq<char> {
    if g.qubits.len() == 2 {
        let lo = if g.qubits[0] <= g.qubits[1] { g.qubits[0] } else { g.qubits[1] };
        let hi = if g.qubits[0] <= g.qubits[1] { g.qubits[1] } else { g.qubits[0] };
        repeat_text(repeat_text("        "@, idx) + "   │    \n"@, if hi > lo + 1 { (hi - lo - 1) as nat } else { 0 })
    } else {
        Seq::empty()
    }
}

/// The connections of the first `k` gates of layer `idx`.
pub open spec fn layer_connections(gates: Seq<SpecGate>, idx: nat, k: nat) -> Seq<char>
    decreases k,
{
    if k == 0 {
        Seq::empty()
    } else {
        layer_connections(gates, idx, (k - 1) as nat) + connection(gates[k - 1], idx)
    }
}

/// The connections of the first `k` layers.
pub open spec fn connections(layers: Seq<Seq<SpecGate>>, k: nat) -> Seq<char>
    decreases k,
{
    if k == 0 {
        Seq::empty()
    } else {
        connections(layers, (k - 1) as nat) + layer_connections(layers[k - 1], (k - 1) as nat, layers[k - 1].len())
    }
}

/// The ASCII rendering: a header with the name and the counts, a line per
/// qubit, then the connections of the two-qubit gates.
pub open spec fn ascii_text(c: QuantumCircuit, labels: Seq<(u64, Seq<char>)>, show: bool) -> Seq<char> {
    "Circuit: "@ + c.name@ + "\n"@ + "Qubits: "@ + decimal(c.num_qubits as nat) + ", Depth: "@ + decimal(
        c.total_depth as nat,
    ) + ", Gates: "@ + decimal(total_gates(c.spec_layers())) + "\n"@ + "\n"@ + ascii_lines(c, labels, show, c.num_qubits as nat)
        + connections(c.spec_layers(), c.spec_layers().len())
}

// ---------------------------------------------------------------------
// Building the texts
// ---------------------------------------------------------------------

/// The angle table as texts.
pub open spec fn view_labels(labels: Seq<(u64, String)>) -> Seq<(u64, Seq<char>)> {
    labels.map_values(|p: (u64, String)| (p.0, p.1@))
}

/// Appends `n` copies of `t`.
fn push_repeat(out: &mut Vec<char>, t: &str, n: usize)
    ensures
        final(out)@ == old(out)@ + repeat_text(t@, n as nat),
{
    let ghost o = out@;
    for i in 0..n
        invariant
            out@ == o + repeat_text(t@, i as nat),
    {
        push_str_chars(out, t);
        assert(out@ =~= o + repeat_text(t@, (i + 1) as nat));
    }
}

/// Appends `s` padded with spaces to `w` characters.
fn push_padded(out: &mut Vec<char>, s: &Vec<char>, w: usize)
    ensures
        final(out)@ == old(out)@ + pad_right(s@, w as nat),
{
    let ghost o = out@;
    push_chars(out, s.as_slice());
    if s.len() < w {
        push_repeat(out, " ", w - s.len());
        proof {
            reveal_strlit(" ");
            assert(" "@ =~= seq![' ']);
        }
    }
    assert(out@ =~= o + pad_right(s@, w as nat));
}

/// Appends the decimal text of `n` padded to `w` characters.
fn push_padded_decimal(out: &mut Vec<char>, n: usize, w: usize)
    ensures
        final(out)@ == old(out)@ + pad_right(decimal(n as nat), w as nat),
{
    let mut d: Vec<char> = Vec::new();
    push_decimal(&mut d, n as u64);
    assert(d@ =~= decimal(n as nat));
    push_padded(out, &d, w);
}

/// The text of the angle with this bit pattern.
fn angle_text_of(labels: &Vec<(u64, String)>, bits: u64) -> (r: Vec<char>)
    ensures
        r@ == angle_label(view_labels(labels@), bits),
{
    let ghost all = view_labels(labels@);
    let mut k: usize = 0;
    proof {
        assert(all.subrange(0, all.len() as int) =~= all);
    }
    while k < labels.len()
        invariant
            k <= labels@.len(),
            all == view_labels(labels@),
            angle_label(all, bits) == angle_label(all.subrange(k as int, all.len() as int), bits),
        decreases labels.len() - k,
    {
        let ghost rest = all.subrange(k as int, all.len() as int);
        proof {
            assert(rest.drop_first() =~= all.subrange(k + 1, all.len() as int));
        }
        if labels[k].0 == bits {
            return chars_of(labels[k].1.as_str());
        }
        k = k + 1;
    }
    Vec::new()
}

/// `prefix`, the angle's text, `)`.
fn angle_gate_text(prefix: &str, labels: &Vec<(u64, String)>, bits: u64) -> (r: Vec<char>)
    ensures
        r@ == prefix@ + angle_label(view_labels(labels@), bits) + ")"@,
{
    let mut v: Vec<char> = Vec::new();
    push_str_chars(&mut v, prefix);
    let a = angle_text_of(labels, bits);
    push_chars(&mut v, a.as_slice());
    push_str_chars(&mut v, ")");
    v
}

/// Whether `q` is one of `qs`.
fn has_qubit(qs: &Vec<usize>, q: usize) -> (b: bool)
    ensures
        b == qs@.contains(q),
{
    for k in 0..qs.len()
        invariant
            forall|m: int| 0 <= m < k ==> qs@[m] != q,
    {
        if qs[k] == q {
            assert(qs@[k as int] == q);
            return true;
        }
    }
    false
}

/// The label of a gate at one of its qubits.
fn gate_label_of(g: &QuantumGate, q: usize, labels: &Vec<(u64, String)>) -> (r: Vec<char>)
    requires
        g.qubits@.contains(q),
        g@.kind is Toffoli ==> g.qubits@.len() >= 3,
    ensures
        r@ == gate_label(g@.kind, g@.qubits, q, view_labels(labels@)),
{
    match &g.gate_type {
        GateType::Identity => chars_of("I"),
        GateType::PauliX => chars_of("X"),
        GateType::PauliY => chars_of("Y"),
        GateType::PauliZ => chars_of("Z"),
        GateType::Hadamard => chars_of("H"),
        GateType::Phase(a) => angle_gate_text("P(", labels, *a),
        GateType::RX(a) => angle_gate_text("RX(", labels, *a),
        GateType::RY(a) => angle_gate_text("RY(", labels, *a),
        GateType::RZ(a) => angle_gate_text("RZ(", labels, *a),
        GateType::T => chars_of("T"),
        GateType::S => chars_of("S"),
        GateType::CNOT => if g.qubits[0] == q { chars_of("●") } else { chars_of("⊕") },
        GateType::CZ => if g.qubits[0] == q { chars_of("●") } else { chars_of("Z") },
        GateType::SWAP => chars_of("✕"),
        GateType::Toffoli => if g.qubits[2] == q { chars_of("⊕") } else { chars_of("●") },
        _ => chars_of("G"),
    }
}

/// The label at qubit `q` in a layer.
fn layer_label(layer: &CircuitLayer, q: usize, labels: &Vec<(u64, String)>) -> (r: Vec<char>)
    requires
        forall|j: int| 0 <= j < layer.spec_gates().len() && (#[trigger] layer.spec_gates()[j]).kind is Toffoli
            ==> layer.spec_gates()[j].qubits.len() >= 3,
    ensures
        r@ == label_from(layer.spec_gates(), q, view_labels(labels@), 0),
{
    let ghost gs = layer.spec_gates();
    for k in 0..layer.gates.len()
        invariant
            gs == layer.spec_gates(),
            gs.len() == layer.gates@.len(),
            forall|j: int| 0 <= j < gs.len() && (#[trigger] gs[j]).kind is Toffoli ==> gs[j].qubits.len() >= 3,
            label_from(gs, q, view_labels(labels@), 0) == label_from(gs, q, view_labels(labels@), k as int),
    {
        assert(gs[k as int] == layer.gates@[k as int]@);
        if has_qubit(&layer.gates[k].qubits, q) {
            return gate_label_of(&layer.gates[k], q, labels);
        }
    }
    chars_of("─")
}

/// Appends the connection under a gate of layer `idx`.
fn push_connection(out: &mut Vec<char>, g: &QuantumGate, idx: usize)
    ensures
        final(out)@ == old(out)@ + connection(g@, idx as nat),
{
    let ghost o = out@;
    if g.qubits.len() == 2 {
        let a = g.qubits[0];
        let b = g.qubits[1];
        let lo = if a <= b { a } else { b };
        let hi = if a <= b { b } else { a };
        let ghost line = repeat_text("        "@, idx as nat) + "   │    \n"@;
        if hi - lo > 1 {
            let n = hi - lo - 1;
            for i in 0..n
                invariant
                    out@ == o + repeat_text(line, i as nat),
                    line == repeat_text("        "@, idx as nat) + "   │    \n"@,
            {
                let ghost before = out@;
                push_repeat(out, "        ", idx);
                push_str_chars(out, "   │    \n");
                assert(out@ =~= o + repeat_text(line, (i + 1) as nat));
            }
        } else {
            assert(out@ =~= o + repeat_text(line, 0));
        }
    } else {
        assert(out@ =~= o + Seq::<char>::empty());
    }
}

/// Appends the connections of all layers.
fn push_connections(out: &mut Vec<char>, layers: &Vec<CircuitLayer>, spec_layers: Ghost<Seq<Seq<SpecGate>>>)
    requires
        spec_layers@ == layers@.map_values(|l: CircuitLayer| l.spec_gates()),
    ensures
        final(out)@ == old(out)@ + connections(spec_layers@, spec_layers@.len()),
{
    let ghost ls = spec_layers@;
    let ghost o = out@;
    for k in 0..layers.len()
        invariant
            ls == layers@.map_values(|l: CircuitLayer| l.spec_gates()),
            out@ == o + connections(ls, k as nat),
    {
        let ghost before = out@;
        let ghost gs = ls[k as int];
        assert(gs == layers@[k as int].spec_gates());
        let ng = layers[k].gates.len();
        for j in 0..ng
            invariant
                k < layers@.len(),
                ng == layers@[k as int].gates@.len(),
                gs == layers@[k as int].spec_gates(),
                gs.len() == layers@[k as int].gates@.len(),
                out@ == before + layer_connections(gs, k as nat, j as nat),
        {
            assert(gs[j as int] == layers@[k as int].gates@[j as int]@);
            push_connection(out, &layers[k].gates[j], k);
            assert(out@ =~= before + layer_connections(gs, k as nat, (j + 1) as nat));
        }
        assert(out@ =~= o + connections(ls, (k + 1) as nat));
    }
}

/// Appends the line of qubit `q`.
fn push_ascii_line(out: &mut Vec<char>, circuit: &QuantumCircuit, q: usize, labels: &Vec<(u64, String)>, show: bool)
    requires
        toffolis_complete(circuit.spec_layers()),
    ensures
        final(out)@ == old(out)@ + ascii_line(*circuit, q, view_labels(labels@), show),
{
    let ghost ls = circuit.spec_layers();
    let ghost lab = view_labels(labels@);
    let ghost o = out@;
    let nl = circuit.layers.len();
    push_str_chars(out, "q");
    push_padded_decimal(out, q, 2);
    push_str_chars(out, ": ");
    let ghost start = out@;
    for k in 0..nl
        invariant
            ls == circuit.spec_layers(),
            lab == view_labels(labels@),
            nl == ls.len(),
            toffolis_complete(ls),
            out@ == start + ascii_cells(ls, q, lab, k as nat),
    {
        assert(ls[k as int] == circuit.layers@[k as int].spec_gates());
        assert forall|j: int| 0 <= j < ls[k as int].len() && (#[trigger] ls[k as int][j]).kind is Toffoli
            implies ls[k as int][j].qubits.len() >= 3 by {}
        let lab_k = layer_label(&circuit.layers[k], q, labels);
        push_padded(out, &lab_k, 8);
        if k + 1 < nl {
            push_str_chars(out, "─");
        }
        assert(out@ =~= start + ascii_cells(ls, q, lab, (k + 1) as nat));
    }
    if circuit.measurements.contains_key(&q) && show {
        push_str_chars(out, " ►[M]");
    }
    push_str_chars(out, "\n");
    assert(out@ =~= o + ascii_line(*circuit, q, lab, show));
}

impl CircuitRenderer {
    pub fn new(config: VisualizationConfig) -> (r: Self)
        ensures
            r.config == config,
    {
        CircuitRenderer { config }
    }

    /// The ASCII rendering of a circuit (see [`ascii_text`]).
    #[verifier::spinoff_prover]
    pub fn render_ascii(&self, circuit: &QuantumCircuit, labels: &Vec<(u64, String)>) -> (s: String)
        requires
            circuit.wf(),
            circuit.spec_gate_count() <= usize::MAX,
            toffolis_complete(circuit.spec_layers()),
        ensures
            s@ == ascii_text(*circuit, view_labels(labels@), self.config.show_measurements),
    {
        let ghost ls = circuit.spec_layers();
        let ghost lab = view_labels(labels@);
        let show = self.config.show_measurements;
        let mut out: Vec<char> = Vec::new();
        push_str_chars(&mut out, "Circuit: ");
        push_str_chars(&mut out, circuit.name.as_str());
        push_str_chars(&mut out, "\n");
        push_str_chars(&mut out, "Qubits: ");
        push_decimal(&mut out, circuit.num_qubits as u64);
        push_str_chars(&mut out, ", Depth: ");
        push_decimal(&mut out, circuit.total_depth as u64);
        push_str_chars(&mut out, ", Gates: ");
        let count = circuit.gate_count();
        push_decimal(&mut out, count as u64);
        push_str_chars(&mut out, "\n");
        push_str_chars(&mut out, "\n");
        let ghost head = out@;
        let nl = circuit.layers.len();
        for q in 0..circuit.num_qubits
            invariant
                lab == view_labels(labels@),
                toffolis_complete(circuit.spec_layers()),
                circuit.wf(),
                show == self.config.show_measurements,
                out@ == head + ascii_lines(*circuit, lab, show, q as nat),
        {
            push_ascii_line(&mut out, circuit, q, labels, show);
            assert(out@ =~= head + ascii_lines(*circuit, lab, show, (q + 1) as nat));
        }
        let ghost body = out@;
        push_connections(&mut out, &circuit.layers, Ghost(ls));
        proof {
            assert(out@ =~= ascii_text(*circuit, lab, show));
        }
        string_from_chars(out.as_slice())
    }
}

// ---------------------------------------------------------------------
// HTML
// ---------------------------------------------------------------------

/// The text of a gate in the HTML rendering; gates with an angle, and those
/// of three qubits, are shown as `G`.
pub open spec fn html_gate_text(k: SpecGateType, qs: Seq<usize>, q: usize) -> Seq<char> {
    match k {
        SpecGateType::Identity => "I"@,
        SpecGateType::PauliX => "X"@,
        SpecGateType::PauliY => "Y"@,
        SpecGateType::PauliZ => "Z"@,
        SpecGateType::Hadamard => "H"@,
        SpecGateType::T => "T"@,
        SpecGateType::S => "S"@,
        SpecGateType::CNOT => if qs[0] == q { "●"@ } else { "⊕"@ },
        SpecGateType::CZ => if qs[0] == q { "●"@ } else { "Z"@ },
        SpecGateType::SWAP => "✕"@,
        _ => "G"@,
    }
}

/// The cell of qubit `q` in a layer, from gate `k` on: the first gate on
/// the qubit in a `gate` span, or a wire.
pub open spec fn html_cell_from(gates: Seq<SpecGate>, q: usize, k: int) -> Seq<char>
    decreases gates.len() - k,
{
    if k < 0 || k >= gates.len() {
        "<span style=\"width: 60px; display: inline-block;\">───</span>"@
    } else if gates[k].qubits.contains(q) {
        "<span class=\"gate\">"@ + html_gate_text(gates[k].kind, gates[k].qubits, q) + "</span>"@
    } else {
        html_cell_from(gates, q, k + 1)
    }
}

/// The cells of qubit `q` in the first `k` layers.
pub open spec fn html_cells(layers: Seq<Seq<SpecGate>>, q: usize, k: nat) -> Seq<char>
    decreases k,
{
    if k == 0 {
        Seq::empty()
    } else {
        html_cells(layers, q, (k - 1) as nat) + html_cell_from(layers[k - 1], q, 0)
    }
}

/// The line of qubit `q`.
pub open spec fn html_line(c: QuantumCircuit, q: usize) -> Seq<char> {
    "<div class=\"qubit-line\">q"@ + decimal(q as nat) + ": "@ + html_cells(c.spec_layers(), q, c.spec_layers().len())
        + (if c.measurements@.contains_key(q) { "<span class=\"gate measurement\">M</span>"@ } else { Seq::empty() })
        + "</div>\n"@
}

/// The lines of the first `k` qubits.
pub open spec fn html_lines(c: QuantumCircuit, k: nat) -> Seq<char>
    decreases k,
{
    if k == 0 {
        Seq::empty()
    } else {
        html_lines(c, (k - 1) as nat) + html_line(c, (k - 1) as usize)
    }
}

/// The HTML page of a circuit: a styled header with the name and counts,
/// then a line of cells per qubit.
pub open spec fn html_text(c: QuantumCircuit) -> Seq<char> {
    "<!DOCTYPE html>\n<html>\n<head>\n    <title>"@ + c.name@ + "</title>\n    <style>\n        body { font-family: 'Courier New', monospace; margin: 20px; }\n        .circuit-container { background: #f5f5f5; padding: 20px; border-radius: 8px; }\n        .circuit-header { font-weight: bold; margin-bottom: 10px; }\n        .qubit-line { margin: 5px 0; }\n        .gate { display: inline-block; width: 60px; text-align: center;\n                 background: #e3f2fd; border: 1px solid #1976d2;\n                 border-radius: 4px; margin: 0 2px; }\n        .control { background: #333; color: white; border-radius: 50%;\n                   width: 20px; height: 20px; display: inline-block; }\n        .measurement { background: #ff9800; color: white; }\n    </style>\n</head>\n<body>\n    <div class=\"circuit-container\">\n        <div class=\"circuit-header\">Circuit: "@ + c.name@ + "</div>\n        <div>Qubits: "@ + decimal(c.num_qubits as nat) + " | Depth: "@
        + decimal(c.total_depth as nat) + " | Gates: "@ + decimal(total_gates(c.spec_layers())) + "</div>\n        <br>\n"@
        + html_lines(c, c.num_qubits as nat) + "    </div>\n</body>\n</html>\n"@
}

/// The HTML text of a gate at one of its qubits.
fn html_gate_text_of(g: &QuantumGate, q: usize) -> (r: &'static str)
    requires
        g.qubits@.contains(q),
    ensures
        r@ == html_gate_text(g@.kind, g@.qubits, q),
{
    match &g.gate_type {
        GateType::Identity => "I",
        GateType::PauliX => "X",
        GateType::PauliY => "Y",
        GateType::PauliZ => "Z",
        GateType::Hadamard => "H",
        GateType::T => "T",
        GateType::S => "S",
        GateType::CNOT => if g.qubits[0] == q { "●" } else { "⊕" },
        GateType::CZ => if g.qubits[0] == q { "●" } else { "Z" },
        GateType::SWAP => "✕",
        _ => "G",
    }
}

/// Appends the cell of qubit `q` in a layer.
fn push_html_cell(out: &mut Vec<char>, layer: &CircuitLayer, q: usize)
    ensures
        final(out)@ == old(out)@ + html_cell_from(layer.spec_gates(), q, 0),
{
    let ghost gs = layer.spec_gates();
    for k in 0..layer.gates.len()
        invariant
            gs == layer.spec_gates(),
            gs.len() == layer.gates@.len(),
            out@ == old(out)@,
            html_cell_from(gs, q, 0) == html_cell_from(gs, q, k as int),
    {
        assert(gs[k as int] == layer.gates@[k as int]@);
        if has_qubit(&layer.gates[k].qubits, q) {
            push_str_chars(out, "<span class=\"gate\">");
            push_str_chars(out, html_gate_text_of(&layer.gates[k], q));
            push_str_chars(out, "</span>");
            assert(out@ =~= old(out)@ + html_cell_from(gs, q, 0));
            return;
        }
    }
    push_str_chars(out, "<span style=\"width: 60px; display: inline-block;\">───</span>");
}

/// Appends the line of qubit `q`.
fn push_html_line(out: &mut Vec<char>, circuit: &QuantumCircuit, q: usize)
    ensures
        final(out)@ == old(out)@ + html_line(*circuit, q),
{
    let ghost ls = circuit.spec_layers();
    let ghost o = out@;
    push_str_chars(out, "<div class=\"qubit-line\">q");
    push_decimal(out, q as u64);
    push_str_chars(out, ": ");
    let ghost start = out@;
    for k in 0..circuit.layers.len()
        invariant
            ls == circuit.spec_layers(),
            out@ == start + html_cells(ls, q, k as nat),
    {
        assert(ls[k as int] == circuit.layers@[k as int].spec_gates());
        push_html_cell(out, &circuit.layers[k], q);
        assert(out@ =~= start + html_cells(ls, q, (k + 1) as nat));
    }
    if circuit.measurements.contains_key(&q) {
        push_str_chars(out, "<span class=\"gate measurement\">M</span>");
    }
    push_str_chars(out, "</div>\n");
    assert(out@ =~= o + html_line(*circuit, q));
}

impl CircuitRenderer {
    /// The HTML page of a circuit (see [`html_text`]).
    #[verifier::spinoff_prover]
    pub fn render_html(&self, circuit: &QuantumCircuit) -> (s: String)
        requires
            circuit.spec_gate_count() <= usize::MAX,
        ensures
            s@ == html_text(*circuit),
    {
        let mut out: Vec<char> = Vec::new();
        push_str_chars(&mut out, "<!DOCTYPE html>\n<html>\n<head>\n    <title>");
        push_str_chars(&mut out, circuit.name.as_str());
        push_str_chars(&mut out, "</title>\n    <style>\n        body { font-family: 'Courier New', monospace; margin: 20px; }\n        .circuit-container { background: #f5f5f5; padding: 20px; border-radius: 8px; }\n        .circuit-header { font-weight: bold; margin-bottom: 10px; }\n        .qubit-line { margin: 5px 0; }\n        .gate { display: inline-block; width: 60px; text-align: center;\n                 background: #e3f2fd; border: 1px solid #1976d2;\n                 border-radius: 4px; margin: 0 2px; }\n        .control { background: #333; color: white; border-radius: 50%;\n                   width: 20px; height: 20px; display: inline-block; }\n        .measurement { background: #ff9800; color: white; }\n    </style>\n</head>\n<body>\n    <div class=\"circuit-container\">\n        <div class=\"circuit-header\">Circuit: ");
        push_str_chars(&mut out, circuit.name.as_str());
        push_str_chars(&mut out, "</div>\n        <div>Qubits: ");
        push_decimal(&mut out, circuit.num_qubits as u64);
        push_str_chars(&mut out, " | Depth: ");
        push_decimal(&mut out, circuit.total_depth as u64);
        push_str_chars(&mut out, " | Gates: ");
        let count = circuit.gate_count();
        push_decimal(&mut out, count as u64);
        push_str_chars(&mut out, "</div>\n        <br>\n");
        let ghost head = out@;
        for q in 0..circuit.num_qubits
            invariant
                out@ == head + html_lines(*circuit, q as nat),
        {
            push_html_line(&mut out, circuit, q);
            assert(out@ =~= head + html_lines(*circuit, (q + 1) as nat));
        }
        push_str_chars(&mut out, "    </div>\n</body>\n</html>\n");
        assert(out@ =~= html_text(*circuit));
        string_from_chars(out.as_slice())
    }
}

// ---------------------------------------------------------------------
// Unicode
// ---------------------------------------------------------------------

/// The smallest of some qubits (the first when there is one).
pub open spec fn seq_min(s: Seq<usize>) -> usize
    decreases s.len(),
{
    if s.len() <= 1 {
        s[0]
    } else {
        let m = seq_min(s.drop_last());
        if s.last() < m {
            s.last()
        } else {
            m
        }
    }
}

/// The largest of some qubits.
pub open spec fn seq_max(s: Seq<usize>) -> usize
    decreases s.len(),
{
    if s.len() <= 1 {
        s[0]
    } else {
        let m = seq_max(s.drop_last());
        if s.last() > m {
            s.last()
        } else {
            m
        }
    }
}

/// A cell of the grid before any gate is drawn: qubit rows (the even ones)
/// carry a wire from column 5 on, broken for two columns in ten.
pub open spec fn base_cell(r: nat, c: nat) -> char {
    if r % 2 == 0 && c >= 5 && c % 10 < 8 {
        '─'
    } else {
        ' '
    }
}

/// The mark of a gate at one of its qubits in the grid.
pub open spec fn grid_char(g: SpecGate, q: usize) -> char {
    match g.kind {
        SpecGateType::Hadamard => 'H',
        SpecGateType::PauliX => 'X',
        SpecGateType::PauliY => 'Y',
        SpecGateType::PauliZ => 'Z',
        SpecGateType::CNOT => if g.qubits[0] == q { '●' } else { '⊕' },
        _ => 'G',
    }
}

/// The character in row `r` of a column once a gate has marked its first
/// `k` qubits there.
pub open spec fn qubit_writes(g: SpecGate, k: nat, r: nat, prev: char) -> char
    decreases k,
{
    if k == 0 {
        prev
    } else {
        let p = qubit_writes(g, (k - 1) as nat, r, prev);
        if 2 * g.qubits[k - 1] == r {
            grid_char(g, g.qubits[k - 1])
        } else {
            p
        }
    }
}

/// The character in row `r` of a column once a gate is drawn there: its
/// marks, and a
/// vertical line on the rows between its qubits when it has several.
pub open spec fn gate_writes(g: SpecGate, r: nat, prev: char) -> char {
    let a = qubit_writes(g, g.qubits.len(), r, prev);
    if g.qubits.len() > 1 && r % 2 == 1 && seq_min(g.qubits) < (r + 1) / 2 && (r + 1) / 2 < seq_max(g.qubits) {
        '│'
    } else {
        a
    }
}

/// Row `r` of a layer's column after its first `k` gates are drawn.
pub open spec fn layer_writes(gates: Seq<SpecGate>, k: nat, r: nat, prev: char) -> char
    decreases k,
{
    if k == 0 {
        prev
    } else {
        gate_writes(gates[k - 1], r, layer_writes(gates, (k - 1) as nat, r, prev))
    }
}

/// The cell at row `r` and column `c`: layer `i` is drawn in column
/// `5 + 10 i`.
pub open spec fn grid_cell(layers: Seq<Seq<SpecGate>>, r: nat, c: nat) -> char {
    if c >= 5 && (c - 5) % 10 == 0 && (c - 5) / 10 < layers.len() {
        let g = layers[(c - 5) / 10];
        layer_writes(g, g.len(), r, base_cell(r, c))
    } else {
        base_cell(r, c)
    }
}

/// Row `r` of a grid `w` columns wide.
pub open spec fn grid_row(layers: Seq<Seq<SpecGate>>, r: nat, w: nat) -> Seq<char> {
    Seq::new(w, |c: int| grid_cell(layers, r, c as nat))
}

/// The names of the first `k` qubits, each followed by a space.
pub open spec fn qubit_names(k: nat) -> Seq<char>
    decreases k,
{
    if k == 0 {
        Seq::empty()
    } else {
        qubit_names((k - 1) as nat) + "q"@ + pad_right(decimal((k - 1) as nat), 2) + " "@
    }
}

/// The rows of qubit `q`: its row with its measurement mark, then, but
/// after the last qubit, the row of connections below it.
pub open spec fn unicode_row(c: QuantumCircuit, show: bool, w: nat, q: nat) -> Seq<char> {
    grid_row(c.spec_layers(), 2 * q, w) + (if c.measurements@.contains_key(q as usize) && show {
        " ►╔═╗"@
    } else {
        Seq::empty()
    }) + "\n"@ + (if q + 1 < c.num_qubits {
        grid_row(c.spec_layers(), 2 * q + 1, w) + "\n"@
    } else {
        Seq::empty()
    })
}

/// The rows of the first `k` qubits.
pub open spec fn unicode_rows(c: QuantumCircuit, show: bool, w: nat, k: nat) -> Seq<char>
    decreases k,
{
    if k == 0 {
        Seq::empty()
    } else {
        unicode_rows(c, show, w, (k - 1) as nat) + unicode_row(c, show, w, (k - 1) as nat)
    }
}

/// The width of the grid: ten columns a layer and twenty more.
pub open spec fn grid_width(c: QuantumCircuit) -> nat {
    c.spec_layers().len() * 10 + 20
}

/// The Unicode rendering: a framed header (its bottom rule as long as the
/// name's UTF-8 bytes and twelve), the qubits' names, then the grid.
pub open spec fn unicode_text(c: QuantumCircuit, show: bool) -> Seq<char> {
    "┌─ Circuit: "@ + c.name@ + " ─┐\n"@ + "│ Qubits: "@ + pad_right(decimal(c.num_qubits as nat), 3) + " Depth: "@
        + pad_right(decimal(c.total_depth as nat), 3) + " Gates: "@ + pad_right(decimal(total_gates(c.spec_layers())), 3)
        + " │\n"@ + "└"@ + repeat_text("─"@, encode_utf8(c.name@).len() + 12) + "┘\n"@ + "\n"@ + qubit_names(
        c.num_qubits as nat,
    ) + unicode_rows(c, show, grid_width(c), c.num_qubits as nat)
}

/// The smallest qubit of a gate.
fn min_qubit(qs: &Vec<usize>) -> (m: usize)
    requires
        qs@.len() > 0,
    ensures
        m == seq_min(qs@),
{
    let mut m = qs[0];
    let mut k: usize = 1;
    while k < qs.len()
        invariant
            1 <= k <= qs@.len(),
            m == seq_min(qs@.take(k as int)),
        decreases qs.len() - k,
    {
        proof {
            assert(qs@.take(k + 1).drop_last() =~= qs@.take(k as int));
        }
        if qs[k] < m {
            m = qs[k];
        }
        k = k + 1;
    }
    assert(qs@.take(qs@.len() as int) =~= qs@);
    m
}

/// The largest qubit of a gate.
fn max_qubit(qs: &Vec<usize>) -> (m: usize)
    requires
        qs@.len() > 0,
    ensures
        m == seq_max(qs@),
{
    let mut m = qs[0];
    let mut k: usize = 1;
    while k < qs.len()
        invariant
            1 <= k <= qs@.len(),
            m == seq_max(qs@.take(k as int)),
        decreases qs.len() - k,
    {
        proof {
            assert(qs@.take(k + 1).drop_last() =~= qs@.take(k as int));
        }
        if qs[k] > m {
            m = qs[k];
        }
        k = k + 1;
    }
    assert(qs@.take(qs@.len() as int) =~= qs@);
    m
}

/// The character in row `r` of a column once a gate is drawn there.
fn gate_cell(g: &QuantumGate, r: usize, prev: char) -> (ch: char)
    requires
        forall|j: int| 0 <= j < g.qubits@.len() ==> 2 * g.qubits@[j] <= usize::MAX,
        r < usize::MAX,
    ensures
        ch == gate_writes(g@, r as nat, prev),
{
    let mut ch = prev;
    for k in 0..g.qubits.len()
        invariant
            forall|j: int| 0 <= j < g.qubits@.len() ==> 2 * g.qubits@[j] <= usize::MAX,
            ch == qubit_writes(g@, k as nat, r as nat, prev),
    {
        let qq = g.qubits[k];
        if 2 * qq == r {
            ch = match &g.gate_type {
                GateType::Hadamard => 'H',
                GateType::PauliX => 'X',
                GateType::PauliY => 'Y',
                GateType::PauliZ => 'Z',
                GateType::CNOT => if g.qubits[0] == qq { '●' } else { '⊕' },
                _ => 'G',
            };
        }
    }
    if g.qubits.len() > 1 && r % 2 == 1 {
        let lo = min_qubit(&g.qubits);
        let hi = max_qubit(&g.qubits);
        let mid = (r + 1) / 2;
        if lo < mid && mid < hi {
            ch = '│';
        }
    }
    ch
}

/// The cell at row `r` and column `c` of the grid.
fn grid_cell_of(circuit: &QuantumCircuit, r: usize, c: usize) -> (ch: char)
    requires
        circuit.wf(),
        2 * circuit.num_qubits <= usize::MAX,
        r < usize::MAX,
    ensures
        ch == grid_cell(circuit.spec_layers(), r as nat, c as nat),
{
    let ghost ls = circuit.spec_layers();
    let base = if r % 2 == 0 && c >= 5 && c % 10 < 8 { '─' } else { ' ' };
    if c >= 5 && (c - 5) % 10 == 0 && (c - 5) / 10 < circuit.layers.len() {
        let i = (c - 5) / 10;
        let layer = &circuit.layers[i];
        let ghost gs = ls[i as int];
        assert(gs == layer.spec_gates());
        let mut ch = base;
        for k in 0..layer.gates.len()
            invariant
                gs == layer.spec_gates(),
                gs.len() == layer.gates@.len(),
                ls == circuit.spec_layers(),
                circuit.wf(),
                i < ls.len(),
                gs == ls[i as int],
                2 * circuit.num_qubits <= usize::MAX,
                r < usize::MAX,
                ch == layer_writes(gs, k as nat, r as nat, base),
        {
            assert(gs[k as int] == layer.gates@[k as int]@);
            assert(crate::quantum::circuit::gates_in_bounds(ls[i as int], circuit.num_qubits));
            assert forall|j: int| 0 <= j < layer.gates@[k as int].qubits@.len()
                implies 2 * layer.gates@[k as int].qubits@[j] <= usize::MAX by {
                assert(crate::quantum::circuit::qubits_in_bounds(gs[k as int].qubits, circuit.num_qubits));
            }
            ch = gate_cell(&layer.gates[k], r, ch);
        }
        ch
    } else {
        base
    }
}

/// Appends row `r` of the grid.
fn push_grid_row(out: &mut Vec<char>, circuit: &QuantumCircuit, r: usize, w: usize)
    requires
        circuit.wf(),
        2 * circuit.num_qubits <= usize::MAX,
        r < usize::MAX,
    ensures
        final(out)@ == old(out)@ + grid_row(circuit.spec_layers(), r as nat, w as nat),
{
    let ghost o = out@;
    for c in 0..w
        invariant
            circuit.wf(),
            2 * circuit.num_qubits <= usize::MAX,
            r < usize::MAX,
            out@ == o + grid_row(circuit.spec_layers(), r as nat, c as nat),
    {
        let ch = grid_cell_of(circuit, r, c);
        out.push(ch);
        assert(out@ =~= o + grid_row(circuit.spec_layers(), r as nat, (c + 1) as nat));
    }
}

/// Appends the rows of qubit `q`.
fn push_unicode_row(out: &mut Vec<char>, circuit: &QuantumCircuit, show: bool, w: usize, q: usize)
    requires
        circuit.wf(),
        2 * circuit.num_qubits <= usize::MAX,
        q < circuit.num_qubits,
    ensures
        final(out)@ == old(out)@ + unicode_row(*circuit, show, w as nat, q as nat),
{
    let ghost o = out@;
    push_grid_row(out, circuit, 2 * q, w);
    if circuit.measurements.contains_key(&q) && show {
        push_str_chars(out, " ►╔═╗");
    }
    push_str_chars(out, "\n");
    if q + 1 < circuit.num_qubits {
        push_grid_row(out, circuit, 2 * q + 1, w);
        push_str_chars(out, "\n");
    }
    assert(out@ =~= o + unicode_row(*circuit, show, w as nat, q as nat));
}

impl CircuitRenderer {
    /// The Unicode rendering of a circuit (see [`unicode_text`]).
    #[verifier::spinoff_prover]
    pub fn render_unicode(&self, circuit: &QuantumCircuit) -> (s: String)
        requires
            circuit.wf(),
            circuit.spec_gate_count() <= usize::MAX,
            grid_width(*circuit) <= usize::MAX,
            2 * circuit.num_qubits <= usize::MAX,
            encode_utf8(circuit.name@).len() + 12 <= usize::MAX,
        ensures
            s@ == unicode_text(*circuit, self.config.show_measurements),
    {
        let show = self.config.show_measurements;
        let n = circuit.num_qubits;
        let mut out: Vec<char> = Vec::new();
        push_str_chars(&mut out, "┌─ Circuit: ");
        push_str_chars(&mut out, circuit.name.as_str());
        push_str_chars(&mut out, " ─┐\n");
        push_str_chars(&mut out, "│ Qubits: ");
        push_padded_decimal(&mut out, n, 3);
        push_str_chars(&mut out, " Depth: ");
        push_padded_decimal(&mut out, circuit.total_depth, 3);
        push_str_chars(&mut out, " Gates: ");
        let count = circuit.gate_count();
        push_padded_decimal(&mut out, count, 3);
        push_str_chars(&mut out, " │\n");
        push_str_chars(&mut out, "└");
        let bytes = circuit.name.as_str().len();
        push_repeat(&mut out, "─", bytes + 12);
        push_str_chars(&mut out, "┘\n");
        push_str_chars(&mut out, "\n");
        let ghost head = out@;
        for q in 0..n
            invariant
                out@ == head + qubit_names(q as nat),
        {
            push_str_chars(&mut out, "q");
            push_padded_decimal(&mut out, q, 2);
            push_str_chars(&mut out, " ");
            assert(out@ =~= head + qubit_names((q + 1) as nat));
        }
        let ghost names = out@;
        let w = circuit.layers.len() * 10 + 20;
        for q in 0..n
            invariant
                circuit.wf(),
                n == circuit.num_qubits,
                2 * n <= usize::MAX,
                w == grid_width(*circuit),
                show == self.config.show_measurements,
                out@ == names + unicode_rows(*circuit, show, w as nat, q as nat),
        {
            push_unicode_row(&mut out, circuit, show, w, q);
            assert(out@ =~= names + unicode_rows(*circuit, show, w as nat, (q + 1) as nat));
        }
        assert(out@ =~= unicode_text(*circuit, show));
        string_from_chars(out.as_slice())
    }
}

// ---------------------------------------------------------------------
// SVG
// ---------------------------------------------------------------------

/// The attributes that end a dark line of width 2.
pub open spec fn stroke_end() -> Seq<char> {
    "\" stroke=\"#333\" stroke-width=\"2\"/>\n"@
}

/// The letter of a one-qubit gate in the SVG rendering.
pub open spec fn svg_letter(k: SpecGateType) -> Seq<char> {
    match k {
        SpecGateType::Hadamard => "H"@,
        SpecGateType::PauliX => "X"@,
        SpecGateType::PauliY => "Y"@,
        SpecGateType::PauliZ => "Z"@,
        SpecGateType::T => "T"@,
        SpecGateType::S => "S"@,
        _ => "G"@,
    }
}

/// A gate drawn at abscissa `x`: a CNOT as a control dot, a target circle
/// with its cross, and the line joining them; any other gate as a box with
/// its letter on its first qubit.
pub open spec fn svg_gate(g: SpecGate, x: nat) -> Seq<char> {
    if g.kind is CNOT {
        svg_cnot(x, (50 + g.qubits[0] * 60) as nat, (50 + g.qubits[1] * 60) as nat)
    } else if g.qubits.len() > 0 {
        svg_box(x, (40 + g.qubits[0] * 60) as nat, svg_letter(g.kind))
    } else {
        Seq::empty()
    }
}

/// A CNOT at abscissa `x` with its control at `cy` and its target at `ty`.
pub open spec fn svg_cnot(x: nat, cy: nat, ty: nat) -> Seq<char> {
    let lo = if cy <= ty { cy } else { ty };
    let hi = if cy <= ty { ty } else { cy };
    svg_dots(x, cy, ty) + svg_line((x - 7) as nat, ty, x + 7, ty) + svg_line(x, (ty - 7) as nat, x, ty + 7) + svg_line(
        x,
        lo,
        x,
        hi,
    )
}

/// The control dot and the target circle of a CNOT.
pub open spec fn svg_dots(x: nat, cy: nat, ty: nat) -> Seq<char> {
    "<circle cx=\""@ + decimal(x) + "\" cy=\""@ + decimal(cy) + "\" r=\"4\" class=\"control-dot\"/>\n"@
        + "<circle cx=\""@ + decimal(x) + "\" cy=\""@ + decimal(ty)
        + "\" r=\"10\" fill=\"none\" stroke=\"#333\" stroke-width=\"2\"/>\n"@
}

/// A dark line from `(x1, y1)` to `(x2, y2)`.
pub open spec fn svg_line(x1: nat, y1: nat, x2: nat, y2: nat) -> Seq<char> {
    "<line x1=\""@ + decimal(x1) + "\" y1=\""@ + decimal(y1) + "\" x2=\""@ + decimal(x2) + "\" y2=\""@ + decimal(y2)
        + stroke_end()
}

/// A gate box at abscissa `x` and ordinate `y` with its letter.
pub open spec fn svg_box(x: nat, y: nat, letter: Seq<char>) -> Seq<char> {
    "<rect x=\""@ + decimal((x - 15) as nat) + "\" y=\""@ + decimal(y)
        + "\" width=\"30\" height=\"20\" class=\"gate-box\"/>\n"@ + "<text x=\""@ + decimal(x) + "\" y=\""@
        + decimal(y + 15) + "\" class=\"gate-text\">"@ + letter + "</text>\n"@
}

/// The first `k` gates of a layer drawn at `x`.
pub open spec fn svg_layer(gates: Seq<SpecGate>, x: nat, k: nat) -> Seq<char>
    decreases k,
{
    if k == 0 {
        Seq::empty()
    } else {
        svg_layer(gates, x, (k - 1) as nat) + svg_gate(gates[k - 1], x)
    }
}

/// The first `k` layers, layer `i` at abscissa `60 + 80 i`.
pub open spec fn svg_layers(layers: Seq<Seq<SpecGate>>, k: nat) -> Seq<char>
    decreases k,
{
    if k == 0 {
        Seq::empty()
    } else {
        svg_layers(layers, (k - 1) as nat) + svg_layer(layers[k - 1], (60 + (k - 1) * 80) as nat, layers[k - 1].len())
    }
}

/// The wire and name of qubit `q` in a picture `width` wide.
pub open spec fn svg_wire(width: nat, q: nat) -> Seq<char> {
    let y = 50 + q * 60;
    "<line x1=\"30\" y1=\""@ + decimal(y) + "\" x2=\""@ + decimal((width - 30) as nat) + "\" y2=\""@ + decimal(y)
        + "\" class=\"qubit-line\"/>\n"@ + "<text x=\"15\" y=\""@ + decimal(y + 5) + "\" class=\"gate-text\">q"@
        + decimal(q) + "</text>\n"@
}

/// The wires and names of the first `k` qubits.
pub open spec fn svg_wires(width: nat, k: nat) -> Seq<char>
    decreases k,
{
    if k == 0 {
        Seq::empty()
    } else {
        svg_wires(width, (k - 1) as nat) + svg_wire(width, (k - 1) as nat)
    }
}

/// The measurement box of qubit `q` near the right edge of a picture
/// `width` wide.
pub open spec fn svg_mark(width: nat, q: usize) -> Seq<char> {
    let x = (width - 50) as nat;
    let y = (40 + q * 60) as nat;
    "<rect x=\""@ + decimal(x) + "\" y=\""@ + decimal(y) + "\" width=\"30\" height=\"20\" class=\"measurement\"/>\n"@
        + "<text x=\""@ + decimal(x + 15) + "\" y=\""@ + decimal(y + 15) + "\" class=\"gate-text\">M</text>\n"@
}

/// The measurement boxes of the qubits `ks`, in that order.
pub open spec fn svg_marks(width: nat, ks: Seq<usize>) -> Seq<char>
    decreases ks.len(),
{
    if ks.len() == 0 {
        Seq::empty()
    } else {
        svg_marks(width, ks.drop_last()) + svg_mark(width, ks.last())
    }
}

/// The style sheet of the SVG rendering.
pub open spec fn svg_style() -> Seq<char> {
    "<style>\n            .qubit-line { stroke: #333; stroke-width: 2; }\n            .gate-box { fill: #e8f4fd; stroke: #1976d2; stroke-width: 2; rx: 4; }\n            .gate-text { font-family: monospace; font-size: 12px; text-anchor: middle; }\n            .control-dot { fill: #333; }\n            .measurement { fill: #ff9800; stroke: #f57c00; stroke-width: 2; }\n        </style>\n"@
}

/// The SVG picture of a circuit whose measured qubits are walked in the
/// order `ks`: eighty units a layer and sixty a qubit.
pub open spec fn svg_text(c: QuantumCircuit, ks: Seq<usize>) -> Seq<char> {
    let width = c.spec_layers().len() * 80 + 100;
    let height = c.num_qubits * 60 + 100;
    "<svg width=\""@ + decimal(width) + "\" height=\""@ + decimal(height as nat)
        + "\" xmlns=\"http://www.w3.org/2000/svg\">\n"@ + svg_style() + svg_wires(width, c.num_qubits as nat)
        + svg_layers(c.spec_layers(), c.spec_layers().len()) + svg_marks(width, ks) + "</svg>\n"@
}

/// Whether every CNOT gate names at least two qubits, as the SVG rendering
/// reads its second one.
pub open spec fn cnots_complete(layers: Seq<Seq<SpecGate>>) -> bool {
    forall|i: int, j: int|
        0 <= i < layers.len() && 0 <= j < layers[i].len() && (#[trigger] layers[i][j]).kind is CNOT
            ==> layers[i][j].qubits.len() >= 2
}

/// Appends `head`, the decimal text of `n`, and `tail`.
fn push_number(out: &mut Vec<char>, head: &str, n: usize, tail: &str)
    ensures
        final(out)@ == old(out)@ + head@ + decimal(n as nat) + tail@,
{
    let ghost o = out@;
    push_str_chars(out, head);
    push_decimal(out, n as u64);
    push_str_chars(out, tail);
    assert(out@ =~= o + head@ + decimal(n as nat) + tail@);
}

/// Appends a dark line.
fn push_svg_line(out: &mut Vec<char>, x1: usize, y1: usize, x2: usize, y2: usize)
    ensures
        final(out)@ == old(out)@ + svg_line(x1 as nat, y1 as nat, x2 as nat, y2 as nat),
{
    let ghost o = out@;
    proof {
        reveal_strlit("");
        assert(""@ =~= Seq::<char>::empty());
    }
    push_number(out, "<line x1=\"", x1, "");
    push_number(out, "\" y1=\"", y1, "");
    push_number(out, "\" x2=\"", x2, "");
    push_number(out, "\" y2=\"", y2, "\" stroke=\"#333\" stroke-width=\"2\"/>\n");
    assert(out@ =~= o + svg_line(x1 as nat, y1 as nat, x2 as nat, y2 as nat));
}

/// Appends a CNOT.
fn push_svg_cnot(out: &mut Vec<char>, x: usize, cy: usize, ty: usize)
    requires
        x >= 7,
        x + 7 <= usize::MAX,
        ty >= 7,
        ty + 7 <= usize::MAX,
    ensures
        final(out)@ == old(out)@ + svg_cnot(x as nat, cy as nat, ty as nat),
{
    let ghost o = out@;
    proof {
        reveal_strlit("");
        assert(""@ =~= Seq::<char>::empty());
    }
    push_number(out, "<circle cx=\"", x, "");
    push_number(out, "\" cy=\"", cy, "\" r=\"4\" class=\"control-dot\"/>\n");
    push_number(out, "<circle cx=\"", x, "");
    push_number(out, "\" cy=\"", ty, "\" r=\"10\" fill=\"none\" stroke=\"#333\" stroke-width=\"2\"/>\n");
    assert(out@ =~= o + svg_dots(x as nat, cy as nat, ty as nat));
    let ghost d = out@;
    push_svg_line(out, x - 7, ty, x + 7, ty);
    push_svg_line(out, x, ty - 7, x, ty + 7);
    let lo = if cy <= ty { cy } else { ty };
    let hi = if cy <= ty { ty } else { cy };
    push_svg_line(out, x, lo, x, hi);
    assert(out@ =~= o + svg_cnot(x as nat, cy as nat, ty as nat));
}

/// Appends a gate box.
fn push_svg_box(out: &mut Vec<char>, x: usize, y: usize, letter: &str)
    requires
        x >= 15,
        y + 15 <= usize::MAX,
    ensures
        final(out)@ == old(out)@ + svg_box(x as nat, y as nat, letter@),
{
    let ghost o = out@;
    proof {
        reveal_strlit("");
        assert(""@ =~= Seq::<char>::empty());
    }
    push_number(out, "<rect x=\"", x - 15, "");
    push_number(out, "\" y=\"", y, "\" width=\"30\" height=\"20\" class=\"gate-box\"/>\n");
    push_number(out, "<text x=\"", x, "");
    push_number(out, "\" y=\"", y + 15, "\" class=\"gate-text\">");
    push_str_chars(out, letter);
    push_str_chars(out, "</text>\n");
    assert(out@ =~= o + svg_box(x as nat, y as nat, letter@));
}

/// Appends one gate drawn at `x`.
fn push_svg_gate(out: &mut Vec<char>, g: &QuantumGate, x: usize, n: usize)
    requires
        x >= 60,
        x + 7 <= usize::MAX,
        n * 60 + 100 <= usize::MAX,
        crate::quantum::circuit::qubits_in_bounds(g.qubits@, n),
        g@.kind is CNOT ==> g.qubits@.len() >= 2,
    ensures
        final(out)@ == old(out)@ + svg_gate(g@, x as nat),
{
    match &g.gate_type {
        GateType::CNOT => {
            assert(g.qubits@[0] < n && g.qubits@[1] < n);
            push_svg_cnot(out, x, 50 + g.qubits[0] * 60, 50 + g.qubits[1] * 60);
        },
        _ => {
            if g.qubits.len() > 0 {
                assert(g.qubits@[0] < n);
                let letter = match &g.gate_type {
                    GateType::Hadamard => "H",
                    GateType::PauliX => "X",
                    GateType::PauliY => "Y",
                    GateType::PauliZ => "Z",
                    GateType::T => "T",
                    GateType::S => "S",
                    _ => "G",
                };
                push_svg_box(out, x, 40 + g.qubits[0] * 60, letter);
            }
        },
    }
}

/// Appends the gates of the circuit.
fn push_svg_layers(out: &mut Vec<char>, circuit: &QuantumCircuit)
    requires
        circuit.wf(),
        circuit.spec_layers().len() * 80 + 100 <= usize::MAX,
        circuit.num_qubits * 60 + 100 <= usize::MAX,
        cnots_complete(circuit.spec_layers()),
    ensures
        final(out)@ == old(out)@ + svg_layers(circuit.spec_layers(), circuit.spec_layers().len()),
{
    let ghost ls = circuit.spec_layers();
    let ghost o = out@;
    let nl = circuit.layers.len();
    for k in 0..nl
        invariant
            ls == circuit.spec_layers(),
            nl == ls.len(),
            circuit.wf(),
            nl * 80 + 100 <= usize::MAX,
            circuit.num_qubits * 60 + 100 <= usize::MAX,
            cnots_complete(ls),
            out@ == o + svg_layers(ls, k as nat),
    {
        let ghost before = out@;
        let ghost gs = ls[k as int];
        assert(gs == circuit.layers@[k as int].spec_gates());
        let x = 60 + k * 80;
        let ng = circuit.layers[k].gates.len();
        for j in 0..ng
            invariant
                k < nl,
                nl == ls.len(),
                nl == circuit.layers@.len(),
                ls == circuit.spec_layers(),
                circuit.wf(),
                ng == circuit.layers@[k as int].gates@.len(),
                gs == ls[k as int],
                gs == circuit.layers@[k as int].spec_gates(),
                x == 60 + k * 80,
                nl * 80 + 100 <= usize::MAX,
                circuit.num_qubits * 60 + 100 <= usize::MAX,
                cnots_complete(ls),
                out@ == before + svg_layer(gs, x as nat, j as nat),
        {
            assert(gs[j as int] == circuit.layers@[k as int].gates@[j as int]@);
            assert(crate::quantum::circuit::gates_in_bounds(ls[k as int], circuit.num_qubits));
            assert(crate::quantum::circuit::qubits_in_bounds(gs[j as int].qubits, circuit.num_qubits));
            push_svg_gate(out, &circuit.layers[k].gates[j], x, circuit.num_qubits);
            assert(out@ =~= before + svg_layer(gs, x as nat, (j + 1) as nat));
        }
        assert(out@ =~= o + svg_layers(ls, (k + 1) as nat));
    }
}

/// Appends the wire and name of qubit `q`.
fn push_svg_wire(out: &mut Vec<char>, width: usize, q: usize)
    requires
        width >= 30,
        q * 60 + 55 <= usize::MAX,
    ensures
        final(out)@ == old(out)@ + svg_wire(width as nat, q as nat),
{
    let ghost o = out@;
    proof {
        reveal_strlit("");
        assert(""@ =~= Seq::<char>::empty());
    }
    let y = 50 + q * 60;
    push_number(out, "<line x1=\"30\" y1=\"", y, "");
    push_number(out, "\" x2=\"", width - 30, "");
    push_number(out, "\" y2=\"", y, "\" class=\"qubit-line\"/>\n");
    push_number(out, "<text x=\"15\" y=\"", y + 5, "\" class=\"gate-text\">q");
    push_number(out, "", q, "</text>\n");
    assert(out@ =~= o + svg_wire(width as nat, q as nat));
}

/// Appends the measurement box of qubit `q`.
fn push_svg_mark(out: &mut Vec<char>, width: usize, q: usize)
    requires
        width >= 50,
        q * 60 + 55 <= usize::MAX,
    ensures
        final(out)@ == old(out)@ + svg_mark(width as nat, q),
{
    let ghost o = out@;
    proof {
        reveal_strlit("");
        assert(""@ =~= Seq::<char>::empty());
    }
    let x = width - 50;
    let y = 40 + q * 60;
    push_number(out, "<rect x=\"", x, "");
    push_number(out, "\" y=\"", y, "\" width=\"30\" height=\"20\" class=\"measurement\"/>\n");
    push_number(out, "<text x=\"", x + 15, "");
    push_number(out, "\" y=\"", y + 15, "\" class=\"gate-text\">M</text>\n");
    assert(out@ =~= o + svg_mark(width as nat, q));
}

/// The measured qubits of a circuit, in the order its map walks them, each
/// once.
fn measured_qubits(m: &HashMap<usize, Option<bool>>) -> (v: Vec<usize>)
    ensures
        v@.no_duplicates(),
        v@.to_set() == m@.dom(),
{
    let mut v: Vec<usize> = Vec::new();
    let ghost all = vstd::std_specs::hash::spec_keys_iter(m).remaining().unref();
    for q in it: m.keys()
        invariant
            all == vstd::std_specs::hash::spec_keys_iter(m).remaining().unref(),
            it.seq().unref() == all,
            v@ == all.take(it.index() as int),
    {
        v.push(*q);
        assert(v@ =~= all.take(it.index() + 1));
    }
    assert(v@ =~= all);
    v
}

impl CircuitRenderer {
    /// The SVG picture of a circuit; its measured qubits come in the order
    /// the circuit's map walks them.
    #[verifier::spinoff_prover]
    pub fn render_svg(&self, circuit: &QuantumCircuit) -> (s: String)
        requires
            circuit.wf(),
            circuit.spec_layers().len() * 80 + 100 <= usize::MAX,
            circuit.num_qubits * 60 + 100 <= usize::MAX,
            cnots_complete(circuit.spec_layers()),
            forall|q: usize| #[trigger] circuit.measurements@.contains_key(q) ==> q * 60 + 55 <= usize::MAX,
        ensures
            exists|ks: Seq<usize>|
                ks.no_duplicates() && ks.to_set() == circuit.measurements@.dom() && s@ == svg_text(*circuit, ks),
    {
        let width = circuit.layers.len() * 80 + 100;
        let height = circuit.num_qubits * 60 + 100;
        let mut out: Vec<char> = Vec::new();
        push_number(&mut out, "<svg width=\"", width, "");
        push_number(&mut out, "\" height=\"", height, "\" xmlns=\"http://www.w3.org/2000/svg\">\n");
        push_str_chars(
            &mut out,
            "<style>\n            .qubit-line { stroke: #333; stroke-width: 2; }\n            .gate-box { fill: #e8f4fd; stroke: #1976d2; stroke-width: 2; rx: 4; }\n            .gate-text { font-family: monospace; font-size: 12px; text-anchor: middle; }\n            .control-dot { fill: #333; }\n            .measurement { fill: #ff9800; stroke: #f57c00; stroke-width: 2; }\n        </style>\n",
        );
        let ghost head = out@;
        for q in 0..circuit.num_qubits
            invariant
                width == circuit.spec_layers().len() * 80 + 100,
                circuit.num_qubits * 60 + 100 <= usize::MAX,
                out@ == head + svg_wires(width as nat, q as nat),
        {
            push_svg_wire(&mut out, width, q);
            assert(out@ =~= head + svg_wires(width as nat, (q + 1) as nat));
        }
        push_svg_layers(&mut out, circuit);
        proof {
            reveal_strlit("");
            assert(""@ =~= Seq::<char>::empty());
        }
        let ghost mid = out@;
        let ks = measured_qubits(&circuit.measurements);
        for i in 0..ks.len()
            invariant
                width == circuit.spec_layers().len() * 80 + 100,
                ks@.to_set() == circuit.measurements@.dom(),
                forall|q: usize| #[trigger] circuit.measurements@.contains_key(q) ==> q * 60 + 55 <= usize::MAX,
                out@ == mid + svg_marks(width as nat, ks@.take(i as int)),
        {
            let q = ks[i];
            assert(ks@.to_set().contains(ks@[i as int]));
            assert(circuit.measurements@.contains_key(q));
            push_svg_mark(&mut out, width, q);
            assert(ks@.take(i + 1).drop_last() =~= ks@.take(i as int));
            assert(ks@.take(i + 1).last() == q);
            assert(out@ =~= mid + svg_marks(width as nat, ks@.take(i + 1)));
        }
        push_str_chars(&mut out, "</svg>\n");
        assert(ks@.take(ks@.len() as int) =~= ks@);
        assert(out@ =~= svg_text(*circuit, ks@));
        string_from_chars(out.as_slice())
    }
}

// ---------------------------------------------------------------------
// Choosing the rendering
// ---------------------------------------------------------------------

/// What a rendering in `style` needs of a circuit: the size of the text and
/// of its coordinates fits in memory, and controlled gates name the qubits
/// they are drawn with.
pub open spec fn renderable(c: QuantumCircuit, style: RenderStyle) -> bool {
    &&& c.wf()
    &&& c.spec_gate_count() <= usize::MAX
    &&& style == RenderStyle::ASCII ==> toffolis_complete(c.spec_layers())
    &&& style == RenderStyle::Unicode ==> {
        &&& grid_width(c) <= usize::MAX
        &&& 2 * c.num_qubits <= usize::MAX
        &&& encode_utf8(c.name@).len() + 12 <= usize::MAX
    }
    &&& style == RenderStyle::SVG ==> {
        &&& c.spec_layers().len() * 80 + 100 <= usize::MAX
        &&& c.num_qubits * 60 + 100 <= usize::MAX
        &&& cnots_complete(c.spec_layers())
        &&& forall|q: usize| #[trigger] c.measurements@.contains_key(q) ==> q * 60 + 55 <= usize::MAX
    }
}

/// The rendering of `c` in `style`, with the measured qubits walked in the
/// order `ks` (which only the SVG picture shows).
pub open spec fn rendering(c: QuantumCircuit, style: RenderStyle, show: bool, labels: Seq<(u64, Seq<char>)>, ks: Seq<usize>) -> Seq<char> {
    match style {
        RenderStyle::ASCII => ascii_text(c, labels, show),
        RenderStyle::Unicode => unicode_text(c, show),
        RenderStyle::SVG => svg_text(c, ks),
        RenderStyle::HTML => html_text(c),
    }
}

impl CircuitRenderer {
    /// The rendering of a circuit in the configured style; angles are
    /// written as `labels` gives them.
    pub fn render_circuit(&self, circuit: &QuantumCircuit, labels: &Vec<(u64, String)>) -> (s: String)
        requires
            renderable(*circuit, self.config.style),
        ensures
            exists|ks: Seq<usize>|
                ks.no_duplicates() && ks.to_set() == circuit.measurements@.dom() && s@ == rendering(
                    *circuit,
                    self.config.style,
                    self.config.show_measurements,
                    view_labels(labels@),
                    ks,
                ),
    {
        let ghost ks0 = vstd::std_specs::hash::spec_keys_iter(&circuit.measurements).remaining().unref();
        proof {
            broadcast use vstd::std_specs::hash::axiom_spec_keys_iter;
            assert(ks0.to_set() == circuit.measurements@.dom());
            assert(ks0.no_duplicates());
        }
        match self.config.style {
            RenderStyle::ASCII => self.render_ascii(circuit, labels),
            RenderStyle::Unicode => self.render_unicode(circuit),
            RenderStyle::SVG => self.render_svg(circuit),
            RenderStyle::HTML => self.render_html(circuit),
        }
    }
}

/// A circuit in the default (Unicode) rendering.
pub fn draw_circuit(circuit: &QuantumCircuit) -> (s: String)
    requires
        renderable(*circuit, RenderStyle::Unicode),
    ensures
        s@ == unicode_text(*circuit, true),
{
    let renderer = CircuitRenderer::new(VisualizationConfig::default());
    renderer.render_unicode(circuit)
}

/// A circuit in the ASCII rendering, measurements shown.
pub fn draw_circuit_ascii(circuit: &QuantumCircuit, labels: &Vec<(u64, String)>) -> (s: String)
    requires
        renderable(*circuit, RenderStyle::ASCII),
    ensures
        s@ == ascii_text(*circuit, view_labels(labels@), true),
{
    let mut config = VisualizationConfig::default();
    config.style = RenderStyle::ASCII;
    let renderer = CircuitRenderer::new(config);
    renderer.render_ascii(circuit, labels)
}

} // verus!
