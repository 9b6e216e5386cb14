//! The commands of the circuit designer: a line such as `CNOT 0 1` read
//! into a command, and a command applied to a circuit.
use vstd::prelude::*;
use crate::text::{is_whitespace, is_whitespace_exec, chars_of, same_chars, string_from_chars};
use crate::quantum::gates::{QubitIndex, QuantumGate, SpecGate, SpecGateType, gate, h_gate, x_gate, z_gate, rz_gate, cnot_gate, cz_gate, swap_gate};
use crate::quantum::circuit::{QuantumCircuit, add_gate_spec, first_out_of_bounds};

verus! {

/// The words of a text: its runs of non-whitespace characters, in order.
pub open spec fn words(s: Seq<char>) -> Seq<Seq<char>>
    decreases s.len(),
{
    if s.len() == 0 {
        Seq::empty()
    } else if is_whitespace(s.last()) {
        words(s.drop_last())
    } else if s.len() >= 2 && !is_whitespace(s[s.len() - 2]) {
        let w = words(s.drop_last());
        w.drop_last().push(w.last().push(s.last()))
    } else {
        words(s.drop_last()).push(seq![s.last()])
    }
}

/// Splits a text into its words (`str::split_whitespace`).
pub fn split_words(s: &str) -> (r: Vec<Vec<char>>)
    ensures
        r@.map_values(|w: Vec<char>| w@) == words(s@),
{
    let cs = chars_of(s);
    let ghost t = cs@;
    let mut done: Vec<Vec<char>> = Vec::new();
    let mut cur: Vec<char> = Vec::new();
    assert(t.take(0) =~= Seq::<char>::empty());
    for i in 0..cs.len()
        invariant
            t == cs@,
            cur@.len() > 0 <==> (i > 0 && !is_whitespace(t[i - 1])),
            words(t.take(i as int)) == if cur@.len() > 0 {
                done@.map_values(|w: Vec<char>| w@).push(cur@)
            } else {
                done@.map_values(|w: Vec<char>| w@)
            },
    {
        let c = cs[i];
        let ghost p = t.take(i + 1);
        assert(p.drop_last() =~= t.take(i as int));
        assert(p.last() == c);
        let ghost before = done@.map_values(|w: Vec<char>| w@);
        if is_whitespace_exec(c) {
            assert(words(p) == words(t.take(i as int)));
            if cur.len() > 0 {
                let w = cur;
                cur = Vec::new();
                done.push(w);
                assert(done@.map_values(|w: Vec<char>| w@) =~= before.push(w@));
            }
        } else {
            let ghost old_cur = cur@;
            if cur.len() > 0 {
                assert(p[p.len() - 2] == t[i - 1]);
                let ghost w = words(t.take(i as int));
                assert(w.drop_last() =~= before);
                assert(w.last() == old_cur);
            } else {
                assert(i == 0 || is_whitespace(p[p.len() - 2]));
            }
            cur.push(c);
            assert(cur@ =~= old_cur.push(c));
            proof {
                if old_cur.len() == 0 {
                    assert(cur@ =~= seq![c]);
                }
            }
            assert(words(p) == before.push(cur@));
        }
    }
    assert(t.take(cs.len() as int) =~= t);
    if cur.len() > 0 {
        let ghost before = done@.map_values(|w: Vec<char>| w@);
        let w = cur;
        done.push(w);
        assert(done@.map_values(|w: Vec<char>| w@) =~= before.push(w@));
    }
    done
}

/// Whether a character is an ASCII digit.
pub open spec fn is_ascii_digit(c: char) -> bool {
    '0' <= c && c <= '9'
}

/// The value of a run of decimal digits.
pub open spec fn digits_value(d: Seq<char>) -> nat
    decreases d.len(),
{
    if d.len() == 0 {
        0
    } else {
        digits_value(d.drop_last()) * 10 + ((d.last() as int) - ('0' as int)) as nat
    }
}

/// A word without its leading `+`, if it has one.
pub open spec fn unsigned_digits(w: Seq<char>) -> Seq<char> {
    if w.len() > 0 && w[0] == '+' {
        w.drop_first()
    } else {
        w
    }
}

/// `usize::from_str`: an optional `+`, then one or more ASCII digits whose
/// value fits in a `usize`.
pub open spec fn parse_usize(w: Seq<char>) -> Option<usize> {
    let d = unsigned_digits(w);
    if d.len() > 0 && (forall|k: int| 0 <= k < d.len() ==> is_ascii_digit(#[trigger] d[k])) && digits_value(d)
        <= usize::MAX {
        Some(digits_value(d) as usize)
    } else {
        None
    }
}

proof fn lemma_digits_value_grows(d: Seq<char>, k: int)
    requires
        0 <= k <= d.len(),
        forall|m: int| 0 <= m < d.len() ==> is_ascii_digit(#[trigger] d[m]),
    ensures
        digits_value(d.take(k)) <= digits_value(d),
    decreases d.len() - k,
{
    if k < d.len() {
        let e = d.take(k + 1);
        assert(e.drop_last() =~= d.take(k));
        assert(is_ascii_digit(d[k]));
        lemma_digits_value_grows(d, k + 1);
    } else {
        assert(d.take(k) =~= d);
    }
}

proof fn lemma_digits_value_step(d: Seq<char>, k: int)
    requires
        0 <= k < d.len(),
        is_ascii_digit(d[k]),
    ensures
        digits_value(d.take(k + 1)) == digits_value(d.take(k)) * 10 + ((d[k] as int) - ('0' as int)),
{
    let e = d.take(k + 1);
    assert(e.drop_last() =~= d.take(k));
    assert(e.last() == d[k]);
}

proof fn lemma_parse_non_digit(w: Seq<char>, k: int)
    requires
        0 <= k < unsigned_digits(w).len(),
        !is_ascii_digit(unsigned_digits(w)[k]),
    ensures
        parse_usize(w) is None,
{
}

proof fn lemma_parse_overflow(w: Seq<char>, k: int)
    requires
        0 <= k < unsigned_digits(w).len(),
        digits_value(unsigned_digits(w).take(k + 1)) > usize::MAX,
    ensures
        parse_usize(w) is None,
{
    let d = unsigned_digits(w);
    if forall|m: int| 0 <= m < d.len() ==> is_ascii_digit(#[trigger] d[m]) {
        lemma_digits_value_grows(d, k + 1);
    }
}

/// Reads a word as a `usize`, as [`parse_usize`] says.
pub fn parse_usize_exec(w: &[char]) -> (r: Option<usize>)
    ensures
        r == parse_usize(w@),
{
    let start: usize = if w.len() > 0 && w[0] == '+' {
        1
    } else {
        0
    };
    let ghost d = unsigned_digits(w@);
    assert(d =~= w@.subrange(start as int, w@.len() as int));
    if start == w.len() {
        return None;
    }
    let mut acc: usize = 0;
    assert(d.take(0) =~= Seq::<char>::empty());
    for i in start..w.len()
        invariant
            start <= w@.len(),
            d == unsigned_digits(w@),
            d.len() == w@.len() - start,
            forall|m: int| 0 <= m < d.len() ==> d[m] == w@[m + start],
            acc == digits_value(d.take(i - start)),
            forall|m: int| 0 <= m < i - start ==> is_ascii_digit(#[trigger] d[m]),
    {
        let c = w[i];
        let ghost k = i - start;
        assert(d[k] == c);
        if !('0' <= c && c <= '9') {
            proof {
                lemma_parse_non_digit(w@, k);
            }
            return None;
        }
        let digit: usize = ((c as u32) - ('0' as u32)) as usize;
        proof {
            lemma_digits_value_step(d, k);
        }
        assert(digits_value(d.take(k + 1)) == acc * 10 + digit);
        let t = match acc.checked_mul(10) {
            Some(t) => t,
            None => {
                proof {
                    lemma_parse_overflow(w@, k);
                }
                return None;
            },
        };
        match t.checked_add(digit) {
            Some(v) => {
                acc = v;
            },
            None => {
                proof {
                    lemma_parse_overflow(w@, k);
                }
                return None;
            },
        }
    }
    assert(d.take(d.len() as int) =~= d);
    Some(acc)
}

/// A command of the circuit designer; rotations carry the text of their
/// angle.
pub enum GateCommand {
    H(QubitIndex),
    X(QubitIndex),
    Y(QubitIndex),
    Z(QubitIndex),
    Cnot(QubitIndex, QubitIndex),
    Cz(QubitIndex, QubitIndex),
    Swap(QubitIndex, QubitIndex),
    Rx(QubitIndex, String),
    Ry(QubitIndex, String),
    Rz(QubitIndex, String),
    Toffoli(QubitIndex, QubitIndex, QubitIndex),
    Measure(QubitIndex),
    MeasureAll,
}

/// The mathematical counterpart of [`GateCommand`].
pub enum SpecGateCommand {
    H(QubitIndex),
    X(QubitIndex),
    Y(QubitIndex),
    Z(QubitIndex),
    Cnot(QubitIndex, QubitIndex),
    Cz(QubitIndex, QubitIndex),
    Swap(QubitIndex, QubitIndex),
    Rx(QubitIndex, Seq<char>),
    Ry(QubitIndex, Seq<char>),
    Rz(QubitIndex, Seq<char>),
    Toffoli(QubitIndex, QubitIndex, QubitIndex),
    Measure(QubitIndex),
    MeasureAll,
}

impl View for GateCommand {
    type V = SpecGateCommand;

    open spec fn view(&self) -> SpecGateCommand {
        match self {
            GateCommand::H(q) => SpecGateCommand::H(*q),
            GateCommand::X(q) => SpecGateCommand::X(*q),
            GateCommand::Y(q) => SpecGateCommand::Y(*q),
            GateCommand::Z(q) => SpecGateCommand::Z(*q),
            GateCommand::Cnot(a, b) => SpecGateCommand::Cnot(*a, *b),
            GateCommand::Cz(a, b) => SpecGateCommand::Cz(*a, *b),
            GateCommand::Swap(a, b) => SpecGateCommand::Swap(*a, *b),
            GateCommand::Rx(q, t) => SpecGateCommand::Rx(*q, t@),
            GateCommand::Ry(q, t) => SpecGateCommand::Ry(*q, t@),
            GateCommand::Rz(q, t) => SpecGateCommand::Rz(*q, t@),
            GateCommand::Toffoli(a, b, c) => SpecGateCommand::Toffoli(*a, *b, *c),
            GateCommand::Measure(q) => SpecGateCommand::Measure(*q),
            GateCommand::MeasureAll => SpecGateCommand::MeasureAll,
        }
    }
}

/// The command a line of words stands for: a gate's name and its qubits
/// (`H 0`, `CNOT 0 1`, `TOFFOLI 0 1 2`), a rotation's name, its qubit and
/// its angle (`RX 0 1.57`), `MEASURE q` or `MEASURE_ALL`; names are matched
/// exactly and qubits read as [`parse_usize`] says.
pub open spec fn command_of(ws: Seq<Seq<char>>) -> Option<SpecGateCommand> {
    if ws.len() == 1 {
        if ws[0] == "MEASURE_ALL"@ {
            Some(SpecGateCommand::MeasureAll)
        } else {
            None
        }
    } else if ws.len() == 2 {
        match parse_usize(ws[1]) {
            Some(q) => if ws[0] == "H"@ {
                Some(SpecGateCommand::H(q))
            } else if ws[0] == "X"@ {
                Some(SpecGateCommand::X(q))
            } else if ws[0] == "Y"@ {
                Some(SpecGateCommand::Y(q))
            } else if ws[0] == "Z"@ {
                Some(SpecGateCommand::Z(q))
            } else if ws[0] == "MEASURE"@ {
                Some(SpecGateCommand::Measure(q))
            } else {
                None
            },
            None => None,
        }
    } else if ws.len() == 3 {
        if ws[0] == "RX"@ || ws[0] == "RY"@ || ws[0] == "RZ"@ {
            match parse_usize(ws[1]) {
                Some(q) => if ws[0] == "RX"@ {
                    Some(SpecGateCommand::Rx(q, ws[2]))
                } else if ws[0] == "RY"@ {
                    Some(SpecGateCommand::Ry(q, ws[2]))
                } else {
                    Some(SpecGateCommand::Rz(q, ws[2]))
                },
                None => None,
            }
        } else {
            match (parse_usize(ws[1]), parse_usize(ws[2])) {
                (Some(a), Some(b)) => if ws[0] == "CNOT"@ {
                    Some(SpecGateCommand::Cnot(a, b))
                } else if ws[0] == "CZ"@ {
                    Some(SpecGateCommand::Cz(a, b))
                } else if ws[0] == "SWAP"@ {
                    Some(SpecGateCommand::Swap(a, b))
                } else {
                    None
                },
                _ => None,
            }
        }
    } else if ws.len() == 4 && ws[0] == "TOFFOLI"@ {
        match (parse_usize(ws[1]), parse_usize(ws[2]), parse_usize(ws[3])) {
            (Some(a), Some(b), Some(c)) => Some(SpecGateCommand::Toffoli(a, b, c)),
            _ => None,
        }
    } else {
        None
    }
}

/// Whether a word is the given name.
fn is_word(w: &Vec<char>, name: &str) -> (b: bool)
    ensures
        b == (w@ == name@),
{
    let n = chars_of(name);
    same_chars(w.as_slice(), n.as_slice())
}

/// Reads a line of the circuit designer into its command, as
/// [`command_of`] says of its words.
pub fn parse_gate_command(gate_cmd: &str) -> (r: Option<GateCommand>)
    ensures
        match r {
            Some(c) => command_of(words(gate_cmd@)) == Some(c@),
            None => command_of(words(gate_cmd@)) is None,
        },
{
    let ws = split_words(gate_cmd);
    let ghost sw = ws@.map_values(|w: Vec<char>| w@);
    assert(sw == words(gate_cmd@));
    let n = ws.len();
    if n == 1 {
        assert(sw[0] == ws@[0]@);
        if is_word(&ws[0], "MEASURE_ALL") {
            return Some(GateCommand::MeasureAll);
        }
        return None;
    }
    if n == 2 {
        assert(sw[0] == ws@[0]@ && sw[1] == ws@[1]@);
        let q = match parse_usize_exec(ws[1].as_slice()) {
            Some(q) => q,
            None => return None,
        };
        let w = &ws[0];
        if is_word(w, "H") {
            return Some(GateCommand::H(q));
        } else if is_word(w, "X") {
            return Some(GateCommand::X(q));
        } else if is_word(w, "Y") {
            return Some(GateCommand::Y(q));
        } else if is_word(w, "Z") {
            return Some(GateCommand::Z(q));
        } else if is_word(w, "MEASURE") {
            return Some(GateCommand::Measure(q));
        }
        return None;
    }
    if n == 3 {
        assert(sw[0] == ws@[0]@ && sw[1] == ws@[1]@ && sw[2] == ws@[2]@);
        let w = &ws[0];
        let rx = is_word(w, "RX");
        let ry = is_word(w, "RY");
        let rz = is_word(w, "RZ");
        if rx || ry || rz {
            let q = match parse_usize_exec(ws[1].as_slice()) {
                Some(q) => q,
                None => return None,
            };
            let angle = string_from_chars(ws[2].as_slice());
            if rx {
                return Some(GateCommand::Rx(q, angle));
            } else if ry {
                return Some(GateCommand::Ry(q, angle));
            }
            return Some(GateCommand::Rz(q, angle));
        }
        let a = parse_usize_exec(ws[1].as_slice());
        let b = parse_usize_exec(ws[2].as_slice());
        match (a, b) {
            (Some(a), Some(b)) => {
                if is_word(w, "CNOT") {
                    return Some(GateCommand::Cnot(a, b));
                } else if is_word(w, "CZ") {
                    return Some(GateCommand::Cz(a, b));
                } else if is_word(w, "SWAP") {
                    return Some(GateCommand::Swap(a, b));
                }
                return None;
            },
            _ => return None,
        }
    }
    if n == 4 {
        assert(sw[0] == ws@[0]@ && sw[1] == ws@[1]@ && sw[2] == ws@[2]@ && sw[3] == ws@[3]@);
        if is_word(&ws[0], "TOFFOLI") {
            let a = parse_usize_exec(ws[1].as_slice());
            let b = parse_usize_exec(ws[2].as_slice());
            let c = parse_usize_exec(ws[3].as_slice());
            match (a, b, c) {
                (Some(a), Some(b), Some(c)) => return Some(GateCommand::Toffoli(a, b, c)),
                _ => return None,
            }
        }
    }
    None
}

/// What a command adds to a circuit, the angle of a rotation being
/// `angle`: nothing for the measurements, or for a rotation without an angle.
pub open spec fn command_gate(c: SpecGateCommand, angle: Option<u64>) -> Option<SpecGate> {
    match c {
        SpecGateCommand::H(q) => Some(h_gate(q)),
        SpecGateCommand::X(q) => Some(x_gate(q)),
        SpecGateCommand::Y(q) => Some(gate(SpecGateType::PauliY, seq![q])),
        SpecGateCommand::Z(q) => Some(z_gate(q)),
        SpecGateCommand::Cnot(a, b) => Some(cnot_gate(a, b)),
        SpecGateCommand::Cz(a, b) => Some(cz_gate(a, b)),
        SpecGateCommand::Swap(a, b) => Some(swap_gate(a, b)),
        SpecGateCommand::Rx(q, _) => match angle {
            Some(a) => Some(gate(SpecGateType::RX(a), seq![q])),
            None => None,
        },
        SpecGateCommand::Ry(q, _) => match angle {
            Some(a) => Some(gate(SpecGateType::RY(a), seq![q])),
            None => None,
        },
        SpecGateCommand::Rz(q, _) => match angle {
            Some(a) => Some(rz_gate(q, a)),
            None => None,
        },
        SpecGateCommand::Toffoli(a, b, t) => Some(gate(SpecGateType::Toffoli, seq![a, b, t])),
        SpecGateCommand::Measure(_) => None,
        SpecGateCommand::MeasureAll => None,
    }
}

/// `new_c` is `old_c` with `g` added when `g` names only qubits of the
/// circuit, and `old_c` unchanged otherwise.
pub open spec fn gate_placed(old_c: QuantumCircuit, new_c: QuantumCircuit, g: SpecGate) -> bool {
    &&& new_c.wf()
    &&& new_c.num_qubits == old_c.num_qubits
    &&& new_c.measurements@ == old_c.measurements@
    &&& new_c.name@ == old_c.name@
    &&& new_c.spec_layers() == if first_out_of_bounds(g.qubits, old_c.num_qubits) is None {
        add_gate_spec(old_c.spec_layers(), g)
    } else {
        old_c.spec_layers()
    }
}

/// Applies a command to a circuit: a gate is added as
/// [`QuantumCircuit::add_gate`] adds it, and the answer is whether it was;
/// a rotation is added with the angle `angle` and refused without one; a
/// measurement is recorded and answered `true`.
pub fn apply_gate_command(circuit: &mut QuantumCircuit, cmd: &GateCommand, angle: Option<u64>) -> (r: bool)
    requires
        old(circuit).wf(),
    ensures
        match cmd@ {
            SpecGateCommand::Measure(q) => {
                &&& r
                &&& final(circuit).measurements@ == old(circuit).measurements@.insert(q, None)
                &&& final(circuit).num_qubits == old(circuit).num_qubits
                &&& final(circuit).layers@ == old(circuit).layers@
                &&& final(circuit).total_depth == old(circuit).total_depth
                &&& final(circuit).name@ == old(circuit).name@
            },
            SpecGateCommand::MeasureAll => {
                &&& r
                &&& final(circuit).measurements@ == old(circuit).measurements@.union_prefer_right(
                    Map::new(|q: QubitIndex| q < old(circuit).num_qubits, |q: QubitIndex| None::<bool>),
                )
                &&& final(circuit).num_qubits == old(circuit).num_qubits
                &&& final(circuit).layers@ == old(circuit).layers@
                &&& final(circuit).total_depth == old(circuit).total_depth
                &&& final(circuit).name@ == old(circuit).name@
            },
            _ => match command_gate(cmd@, angle) {
                Some(g) => r == (first_out_of_bounds(g.qubits, old(circuit).num_qubits) is None) && gate_placed(
                    *old(circuit),
                    *final(circuit),
                    g,
                ),
                None => !r && *final(circuit) == *old(circuit),
            },
        },
{
    let g = match cmd {
        GateCommand::Measure(q) => {
            circuit.measure(*q);
            return true;
        },
        GateCommand::MeasureAll => {
            circuit.measure_all();
            return true;
        },
        GateCommand::H(q) => QuantumGate::hadamard(*q),
        GateCommand::X(q) => QuantumGate::pauli_x(*q),
        GateCommand::Y(q) => QuantumGate::pauli_y(*q),
        GateCommand::Z(q) => QuantumGate::pauli_z(*q),
        GateCommand::Cnot(a, b) => QuantumGate::cnot(*a, *b),
        GateCommand::Cz(a, b) => QuantumGate::cz(*a, *b),
        GateCommand::Swap(a, b) => QuantumGate::swap(*a, *b),
        GateCommand::Rx(q, _) => match angle {
            Some(a) => QuantumGate::rx(*q, a),
            None => return false,
        },
        GateCommand::Ry(q, _) => match angle {
            Some(a) => QuantumGate::ry(*q, a),
            None => return false,
        },
        GateCommand::Rz(q, _) => match angle {
            Some(a) => QuantumGate::rz(*q, a),
            None => return false,
        },
        GateCommand::Toffoli(a, b, t) => QuantumGate::toffoli(*a, *b, *t),
    };
    assert(command_gate(cmd@, angle) == Some(g@));
    circuit.add_gate(g).is_ok()
}

} // verus!
