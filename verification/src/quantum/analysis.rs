//! Analyses of a circuit: how many gates of each kind it holds, and which
//! qubits share a gate.
use vstd::prelude::*;
use crate::text::chars_of;
use crate::quantum::gates::{GateType, QubitIndex, SpecGate, SpecGateType};
use crate::quantum::circuit::{QuantumCircuit, total_gates};

verus! {

/// The name under which gates of a kind are counted.
pub open spec fn kind_name(k: SpecGateType) -> Seq<char> {
    match k {
        SpecGateType::Identity => "I"@,
        SpecGateType::PauliX => "X"@,
        SpecGateType::PauliY => "Y"@,
        SpecGateType::PauliZ => "Z"@,
        SpecGateType::Hadamard => "H"@,
        SpecGateType::Phase(_) => "P"@,
        SpecGateType::RX(_) => "RX"@,
        SpecGateType::RY(_) => "RY"@,
        SpecGateType::RZ(_) => "RZ"@,
        SpecGateType::T => "T"@,
        SpecGateType::S => "S"@,
        SpecGateType::CNOT => "CNOT"@,
        SpecGateType::CZ => "CZ"@,
        SpecGateType::SWAP => "SWAP"@,
        SpecGateType::CPhase(_) => "CPhase"@,
        SpecGateType::Toffoli => "Toffoli"@,
        SpecGateType::Fredkin => "Fredkin"@,
        SpecGateType::Custom(_) => "Custom"@,
    }
}

/// The kind of a gate, its parameters left aside, as a number.
pub open spec fn kind_tag(k: SpecGateType) -> nat {
    match k {
        SpecGateType::Identity => 0,
        SpecGateType::PauliX => 1,
        SpecGateType::PauliY => 2,
        SpecGateType::PauliZ => 3,
        SpecGateType::Hadamard => 4,
        SpecGateType::Phase(_) => 5,
        SpecGateType::RX(_) => 6,
        SpecGateType::RY(_) => 7,
        SpecGateType::RZ(_) => 8,
        SpecGateType::T => 9,
        SpecGateType::S => 10,
        SpecGateType::CNOT => 11,
        SpecGateType::CZ => 12,
        SpecGateType::SWAP => 13,
        SpecGateType::CPhase(_) => 14,
        SpecGateType::Toffoli => 15,
        SpecGateType::Fredkin => 16,
        SpecGateType::Custom(_) => 17,
    }
}

/// Reads a counting name back to the kind it stands for, by its length and
/// first two characters; `18` for a text that names no kind.
pub open spec fn tag_of_name(s: Seq<char>) -> nat {
    if s.len() == 1 {
        if s[0] == 'I' { 0 } else if s[0] == 'X' { 1 } else if s[0] == 'Y' { 2 } else if s[0] == 'Z' { 3 }
        else if s[0] == 'H' { 4 } else if s[0] == 'P' { 5 } else if s[0] == 'T' { 9 } else if s[0] == 'S' { 10 } else { 18 }
    } else if s.len() == 2 {
        if s[0] == 'R' && s[1] == 'X' { 6 } else if s[0] == 'R' && s[1] == 'Y' { 7 } else if s[0] == 'R' && s[1] == 'Z' { 8 }
        else if s[0] == 'C' && s[1] == 'Z' { 12 } else { 18 }
    } else if s.len() == 4 {
        if s[0] == 'C' { 11 } else if s[0] == 'S' { 13 } else { 18 }
    } else if s.len() == 6 {
        if s[1] == 'P' { 14 } else if s[1] == 'u' { 17 } else { 18 }
    } else if s.len() == 7 {
        if s[0] == 'T' { 15 } else if s[0] == 'F' { 16 } else { 18 }
    } else {
        18
    }
}

proof fn lemma_name_tag(k: SpecGateType)
    ensures
        tag_of_name(kind_name(k)) == kind_tag(k),
{
    reveal_strlit("I");
    reveal_strlit("X");
    reveal_strlit("Y");
    reveal_strlit("Z");
    reveal_strlit("H");
    reveal_strlit("P");
    reveal_strlit("RX");
    reveal_strlit("RY");
    reveal_strlit("RZ");
    reveal_strlit("T");
    reveal_strlit("S");
    reveal_strlit("CNOT");
    reveal_strlit("CZ");
    reveal_strlit("SWAP");
    reveal_strlit("CPhase");
    reveal_strlit("Toffoli");
    reveal_strlit("Fredkin");
    reveal_strlit("Custom");
}

/// Gates are counted by kind: two gates get the same counting name only
/// when they are of the same kind (their parameters aside), so each count
/// is the number of gates of exactly one kind.
pub proof fn law_kind_names_distinct(a: SpecGateType, b: SpecGateType)
    ensures
        kind_name(a) == kind_name(b) ==> kind_tag(a) == kind_tag(b),
{
    lemma_name_tag(a);
    lemma_name_tag(b);
}

/// The gates of the layers, layer after layer.
pub open spec fn all_gates(layers: Seq<Seq<SpecGate>>) -> Seq<SpecGate>
    decreases layers.len(),
{
    if layers.len() == 0 {
        Seq::empty()
    } else {
        all_gates(layers.drop_last()) + layers.last()
    }
}

/// The names of the gates of the layers, in order.
pub open spec fn gate_names(layers: Seq<Seq<SpecGate>>) -> Seq<Seq<char>> {
    all_gates(layers).map_values(|g: SpecGate| kind_name(g.kind))
}

/// How many times `name` occurs in `names`.
pub open spec fn occurrences(names: Seq<Seq<char>>, name: Seq<char>) -> nat
    decreases names.len(),
{
    if names.len() == 0 {
        0
    } else {
        occurrences(names.drop_last(), name) + if names.last() == name {
            1nat
        } else {
            0nat
        }
    }
}

proof fn lemma_occurrences_bound(names: Seq<Seq<char>>, name: Seq<char>)
    ensures
        occurrences(names, name) <= names.len(),
        occurrences(names, name) == 0 <==> !names.contains(name),
    decreases names.len(),
{
    if names.len() > 0 {
        lemma_occurrences_bound(names.drop_last(), name);
        if names.drop_last().contains(name) {
            let i = choose|i: int| 0 <= i < names.drop_last().len() && names.drop_last()[i] == name;
            assert(names[i] == name);
        }
        if names.contains(name) && names.last() != name {
            let i = choose|i: int| 0 <= i < names.len() && names[i] == name;
            assert(names.drop_last()[i] == name);
        }
        if names.last() == name {
            assert(names[names.len() - 1] == name);
        }
    }
}

proof fn lemma_all_gates_len(layers: Seq<Seq<SpecGate>>)
    ensures
        all_gates(layers).len() == total_gates(layers),
    decreases layers.len(),
{
    if layers.len() > 0 {
        lemma_all_gates_len(layers.drop_last());
    }
}

/// The counting name of a gate kind.
fn kind_name_of(k: &GateType) -> (s: &'static str)
    ensures
        s@ == kind_name(k@),
{
    match k {
        GateType::Identity => "I",
        GateType::PauliX => "X",
        GateType::PauliY => "Y",
        GateType::PauliZ => "Z",
        GateType::Hadamard => "H",
        GateType::Phase(_) => "P",
        GateType::RX(_) => "RX",
        GateType::RY(_) => "RY",
        GateType::RZ(_) => "RZ",
        GateType::T => "T",
        GateType::S => "S",
        GateType::CNOT => "CNOT",
        GateType::CZ => "CZ",
        GateType::SWAP => "SWAP",
        GateType::CPhase(_) => "CPhase",
        GateType::Toffoli => "Toffoli",
        GateType::Fredkin => "Fredkin",
        GateType::Custom(_) => "Custom",
    }
}

/// Whether two names are equal.
fn same_name(a: &str, b: &str) -> (r: bool)
    ensures
        r == (a@ == b@),
{
    let x = chars_of(a);
    let y = chars_of(b);
    crate::text::same_chars(x.as_slice(), y.as_slice())
}

impl QuantumCircuit {
    /// The names of the circuit's gates, in order.
    fn gate_name_list(&self) -> (names: Vec<&'static str>)
        ensures
            names@.map_values(|s: &'static str| s@) == gate_names(self.spec_layers()),
    {
        let ghost ls = self.spec_layers();
        let mut names: Vec<&'static str> = Vec::new();
        assert(ls.take(0) =~= Seq::<Seq<SpecGate>>::empty());
        assert(names@.map_values(|s: &'static str| s@) =~= gate_names(ls.take(0)));
        for i in 0..self.layers.len()
            invariant
                ls == self.spec_layers(),
                names@.map_values(|s: &'static str| s@) == gate_names(ls.take(i as int)),
        {
            let ghost start = names@.map_values(|s: &'static str| s@);
            let ghost gs = ls[i as int];
            assert(gs == self.layers@[i as int].spec_gates());
            let ng = self.layers[i].gates.len();
            for j in 0..ng
                invariant
                    i < self.layers@.len(),
                    ng == self.layers@[i as int].gates@.len(),
                    gs == self.layers@[i as int].spec_gates(),
                    names@.map_values(|s: &'static str| s@) == start + gs.take(j as int).map_values(
                        |g: SpecGate| kind_name(g.kind),
                    ),
            {
                assert(gs[j as int] == self.layers@[i as int].gates@[j as int]@);
                let ghost before = names@;
                let nm = kind_name_of(&self.layers[i].gates[j].gate_type);
                names.push(nm);
                proof {
                    let f = |s: &'static str| s@;
                    let g = |g: SpecGate| kind_name(g.kind);
                    assert(names@ =~= before.push(nm));
                    assert(names@.map_values(f) =~= before.map_values(f).push(nm@));
                    assert(gs.take(j + 1) =~= gs.take(j as int).push(gs[j as int]));
                    assert(gs.take(j + 1).map_values(g) =~= gs.take(j as int).map_values(g).push(g(gs[j as int])));
                    assert(names@.map_values(f) =~= start + gs.take(j + 1).map_values(g));
                }
            }
            proof {
                assert(gs.take(ng as int) =~= gs);
                let t = ls.take(i + 1);
                assert(t.drop_last() =~= ls.take(i as int));
                assert(t.last() == gs);
                assert(all_gates(t) == all_gates(ls.take(i as int)) + gs);
                assert(gate_names(t) =~= gate_names(ls.take(i as int)) + gs.map_values(|g: SpecGate| kind_name(g.kind)));
            }
        }
        assert(ls.take(ls.len() as int) =~= ls);
        names
    }

    /// How many gates of each kind the circuit holds: each kind's name, in
    /// the order kinds first occur, with its number of gates.
    pub fn gate_count_by_type(&self) -> (counts: Vec<(String, usize)>)
        requires
            self.spec_gate_count() <= usize::MAX,
        ensures
            forall|i: int, j: int| 0 <= i < j < counts@.len() ==> (#[trigger] counts@[i]).0@ != (#[trigger] counts@[j]).0@,
            forall|i: int| 0 <= i < counts@.len() ==> (#[trigger] counts@[i]).1 == occurrences(
                gate_names(self.spec_layers()),
                counts@[i].0@,
            ) && counts@[i].1 > 0,
            forall|k: int| 0 <= k < gate_names(self.spec_layers()).len() ==> lists_name(counts@, #[trigger] gate_names(self.spec_layers())[k]),
    {
        let names = self.gate_name_list();
        let ghost all = gate_names(self.spec_layers());
        proof {
            lemma_all_gates_len(self.spec_layers());
        }
        let mut keys: Vec<&'static str> = Vec::new();
        let mut tally: Vec<usize> = Vec::new();
        proof {
            assert(all.take(0) =~= Seq::<Seq<char>>::empty());
            assert(key_texts(keys@) =~= Seq::<Seq<char>>::empty());
        }
        for k in 0..names.len()
            invariant
                names@.map_values(|s: &'static str| s@) == all,
                all.len() <= usize::MAX,
                tallies(key_texts(keys@), tally@, all.take(k as int)),
        {
            assert(names@[k as int]@ == all[k as int]);
            record(&mut keys, &mut tally, names[k], Ghost(all.take(k as int)));
            assert(all.take(k + 1) =~= all.take(k as int).push(all[k as int]));
        }
        assert(all.take(all.len() as int) =~= all);
        let mut counts: Vec<(String, usize)> = Vec::new();
        for i in 0..keys.len()
            invariant
                keys@.len() == tally@.len(),
                counts@.len() == i,
                forall|a: int| 0 <= a < i ==> (#[trigger] counts@[a]).0@ == keys@[a]@ && counts@[a].1 == tally@[a],
        {
            counts.push((keys[i].to_owned(), tally[i]));
        }
        proof {
            let kt = key_texts(keys@);
            assert forall|i: int, j: int| 0 <= i < j < counts@.len() implies (#[trigger] counts@[i]).0@ != (#[trigger] counts@[j]).0@ by {
                assert(kt[i] == counts@[i].0@ && kt[j] == counts@[j].0@);
            }
            assert forall|i: int| 0 <= i < counts@.len() implies (#[trigger] counts@[i]).1 == occurrences(all, counts@[i].0@)
                && counts@[i].1 > 0 by {
                assert(kt[i] == counts@[i].0@);
            }
            assert forall|k: int| 0 <= k < all.len() implies lists_name(counts@, #[trigger] all[k]) by {
                assert(kt.contains(all[k]));
                let a = choose|a: int| 0 <= a < kt.len() && kt[a] == all[k];
                assert(counts@[a].0@ == all[k]);
            }
        }
        counts
    }
}

/// Whether a name is listed.
pub open spec fn lists_name(counts: Seq<(String, usize)>, name: Seq<char>) -> bool {
    exists|i: int| 0 <= i < counts.len() && (#[trigger] counts[i]).0@ == name
}

/// The sum of the counts.
pub open spec fn sum_counts(counts: Seq<(String, usize)>) -> int
    decreases counts.len(),
{
    if counts.len() == 0 {
        0
    } else {
        sum_counts(counts.drop_last()) + counts.last().1
    }
}

/// The sum, over the names `ks`, of their occurrences in `names`.
spec fn occurrence_sum(names: Seq<Seq<char>>, ks: Seq<Seq<char>>) -> int
    decreases ks.len(),
{
    if ks.len() == 0 {
        0
    } else {
        occurrence_sum(names, ks.drop_last()) + occurrences(names, ks.last())
    }
}

/// How many of `ks` equal `x`.
spec fn copies(ks: Seq<Seq<char>>, x: Seq<char>) -> int
    decreases ks.len(),
{
    if ks.len() == 0 {
        0
    } else {
        copies(ks.drop_last(), x) + if ks.last() == x {
            1int
        } else {
            0int
        }
    }
}

/// How many of `names` are among `ks`.
spec fn hits(names: Seq<Seq<char>>, ks: Seq<Seq<char>>) -> int
    decreases names.len(),
{
    if names.len() == 0 {
        0
    } else {
        hits(names.drop_last(), ks) + if ks.contains(names.last()) {
            1int
        } else {
            0int
        }
    }
}

proof fn lemma_occurrence_sum_push(names: Seq<Seq<char>>, ks: Seq<Seq<char>>, x: Seq<char>)
    ensures
        occurrence_sum(names.push(x), ks) == occurrence_sum(names, ks) + copies(ks, x),
    decreases ks.len(),
{
    assert(names.push(x).drop_last() =~= names);
    if ks.len() > 0 {
        lemma_occurrence_sum_push(names, ks.drop_last(), x);
    }
}

proof fn lemma_copies_distinct(ks: Seq<Seq<char>>, x: Seq<char>)
    requires
        forall|a: int, b: int| 0 <= a < b < ks.len() ==> ks[a] != ks[b],
    ensures
        copies(ks, x) == if ks.contains(x) {
            1int
        } else {
            0int
        },
    decreases ks.len(),
{
    if ks.len() > 0 {
        let d = ks.drop_last();
        lemma_copies_distinct(d, x);
        if ks.last() == x {
            assert(ks[ks.len() - 1] == x);
            if d.contains(x) {
                let a = choose|a: int| 0 <= a < d.len() && d[a] == x;
                assert(ks[a] == ks[ks.len() - 1]);
            }
        } else {
            if ks.contains(x) {
                let a = choose|a: int| 0 <= a < ks.len() && ks[a] == x;
                assert(d[a] == x);
            }
            if d.contains(x) {
                let a = choose|a: int| 0 <= a < d.len() && d[a] == x;
                assert(ks[a] == x);
            }
        }
    }
}

proof fn lemma_occurrence_sum_hits(names: Seq<Seq<char>>, ks: Seq<Seq<char>>)
    requires
        forall|a: int, b: int| 0 <= a < b < ks.len() ==> ks[a] != ks[b],
    ensures
        occurrence_sum(names, ks) == hits(names, ks),
    decreases names.len(),
{
    if names.len() == 0 {
        lemma_occurrence_sum_empty(names, ks);
    } else {
        let d = names.drop_last();
        lemma_occurrence_sum_hits(d, ks);
        assert(d.push(names.last()) =~= names);
        lemma_occurrence_sum_push(d, ks, names.last());
        lemma_copies_distinct(ks, names.last());
    }
}

proof fn lemma_occurrence_sum_empty(names: Seq<Seq<char>>, ks: Seq<Seq<char>>)
    requires
        names.len() == 0,
    ensures
        occurrence_sum(names, ks) == 0,
    decreases ks.len(),
{
    if ks.len() > 0 {
        lemma_occurrence_sum_empty(names, ks.drop_last());
    }
}

proof fn lemma_hits_all(names: Seq<Seq<char>>, ks: Seq<Seq<char>>)
    requires
        forall|m: int| 0 <= m < names.len() ==> ks.contains(#[trigger] names[m]),
    ensures
        hits(names, ks) == names.len(),
    decreases names.len(),
{
    if names.len() > 0 {
        let d = names.drop_last();
        assert forall|m: int| 0 <= m < d.len() implies ks.contains(#[trigger] d[m]) by {
            assert(d[m] == names[m]);
        }
        lemma_hits_all(d, ks);
        assert(ks.contains(names[names.len() - 1]));
    }
}

proof fn lemma_sum_counts(counts: Seq<(String, usize)>, names: Seq<Seq<char>>)
    requires
        forall|i: int| 0 <= i < counts.len() ==> (#[trigger] counts[i]).1 == occurrences(names, counts[i].0@),
    ensures
        sum_counts(counts) == occurrence_sum(names, counts.map_values(|p: (String, usize)| p.0@)),
    decreases counts.len(),
{
    let ks = counts.map_values(|p: (String, usize)| p.0@);
    if counts.len() > 0 {
        let d = counts.drop_last();
        assert forall|i: int| 0 <= i < d.len() implies (#[trigger] d[i]).1 == occurrences(names, d[i].0@) by {
            assert(d[i] == counts[i]);
        }
        lemma_sum_counts(d, names);
        assert(ks.drop_last() =~= d.map_values(|p: (String, usize)| p.0@));
        assert(counts.last() == counts[counts.len() - 1]);
    }
}

/// The counts by kind of a circuit's gates add up to its number of gates.
pub proof fn law_counts_add_up(c: QuantumCircuit, counts: Seq<(String, usize)>)
    requires
        forall|i: int, j: int| 0 <= i < j < counts.len() ==> (#[trigger] counts[i]).0@ != (#[trigger] counts[j]).0@,
        forall|i: int| 0 <= i < counts.len() ==> (#[trigger] counts[i]).1 == occurrences(
            gate_names(c.spec_layers()),
            counts[i].0@,
        ),
        forall|k: int| 0 <= k < gate_names(c.spec_layers()).len() ==> lists_name(counts, #[trigger] gate_names(c.spec_layers())[k]),
    ensures
        sum_counts(counts) == c.spec_gate_count(),
{
    let names = gate_names(c.spec_layers());
    let ks = counts.map_values(|p: (String, usize)| p.0@);
    lemma_sum_counts(counts, names);
    assert forall|a: int, b: int| 0 <= a < b < ks.len() implies ks[a] != ks[b] by {
        assert(ks[a] == counts[a].0@ && ks[b] == counts[b].0@);
    }
    lemma_occurrence_sum_hits(names, ks);
    assert forall|m: int| 0 <= m < names.len() implies ks.contains(#[trigger] names[m]) by {
        assert(lists_name(counts, names[m]));
        let i = choose|i: int| 0 <= i < counts.len() && (#[trigger] counts[i]).0@ == names[m];
        assert(ks[i] == names[m]);
    }
    lemma_hits_all(names, ks);
    lemma_all_gates_len(c.spec_layers());
}

/// The texts of some names.
spec fn key_texts(keys: Seq<&'static str>) -> Seq<Seq<char>> {
    keys.map_values(|s: &'static str| s@)
}

/// `keys` and `tally` count the names of `seen`: each name once, with its
/// number of occurrences, and every name seen is there.
spec fn tallies(keys: Seq<Seq<char>>, tally: Seq<usize>, seen: Seq<Seq<char>>) -> bool {
    &&& keys.len() == tally.len()
    &&& forall|a: int, b: int| 0 <= a < b < keys.len() ==> keys[a] != keys[b]
    &&& forall|a: int| 0 <= a < keys.len() ==> tally[a] == occurrences(seen, keys[a]) && tally[a] > 0
    &&& forall|m: int| 0 <= m < seen.len() ==> keys.contains(seen[m])
}

/// Counts one more occurrence of `name`.
fn record(keys: &mut Vec<&'static str>, tally: &mut Vec<usize>, name: &'static str, seen: Ghost<Seq<Seq<char>>>)
    requires
        tallies(key_texts(old(keys)@), old(tally)@, seen@),
        seen@.len() < usize::MAX,
    ensures
        tallies(key_texts(final(keys)@), final(tally)@, seen@.push(name@)),
{
    let ghost kt0 = key_texts(keys@);
    let ghost t = seen@.push(name@);
    assert(t.drop_last() =~= seen@);
    assert(t.last() == name@);
    let mut found: Option<usize> = None;
    for a in 0..keys.len()
        invariant
            kt0 == key_texts(keys@),
            found.is_none() ==> forall|b: int| 0 <= b < a ==> kt0[b] != name@,
            found matches Some(x) ==> x < keys@.len() && kt0[x as int] == name@,
    {
        if found.is_none() && same_name(keys[a], name) {
            found = Some(a);
        }
    }
    proof {
        lemma_occurrences_bound(seen@, name@);
    }
    match found {
        Some(x) => {
            let c = tally[x];
            tally.set(x, c + 1);
            proof {
                let kt = key_texts(keys@);
                assert(kt == kt0);
                assert forall|a: int| 0 <= a < kt.len() implies tally@[a] == occurrences(t, kt[a]) && tally@[a] > 0 by {}
                assert forall|m: int| 0 <= m < t.len() implies kt.contains(t[m]) by {
                    if m == seen@.len() {
                        assert(kt[x as int] == t[m]);
                    } else {
                        assert(t[m] == seen@[m]);
                    }
                }
            }
        },
        None => {
            keys.push(name);
            tally.push(1);
            proof {
                let kt = key_texts(keys@);
                assert(kt =~= kt0.push(name@));
                assert forall|m: int| 0 <= m < seen@.len() implies seen@[m] != name@ by {
                    assert(kt0.contains(seen@[m]));
                }
                assert(!seen@.contains(name@));
                assert forall|a: int| 0 <= a < kt.len() implies tally@[a] == occurrences(t, kt[a]) && tally@[a] > 0 by {
                    if a < kt0.len() {
                        assert(kt[a] == kt0[a]);
                    }
                }
                assert forall|m: int| 0 <= m < t.len() implies kt.contains(t[m]) by {
                    if m == seen@.len() {
                        assert(kt[kt.len() - 1] == t[m]);
                    } else {
                        assert(t[m] == seen@[m]);
                        assert(kt0.contains(seen@[m]));
                        let a = choose|a: int| 0 <= a < kt0.len() && kt0[a] == seen@[m];
                        assert(kt[a] == kt0[a]);
                    }
                }
            }
        },
    }
}

// ---------------------------------------------------------------------
// Connectivity
// ---------------------------------------------------------------------

/// Whether a gate on the qubits `qs` joins `a` and `b`: two of its
/// places, the first before the second, hold them, in either order.
pub open spec fn joins(qs: Seq<usize>, a: usize, b: usize) -> bool {
    exists|i: int, j: int| 0 <= i < j < qs.len() && ((qs[i] == a && qs[j] == b) || (qs[i] == b && qs[j] == a))
}

/// Whether one of the gates joins `a` and `b`.
pub open spec fn linked(gates: Seq<SpecGate>, a: usize, b: usize) -> bool {
    exists|k: int| 0 <= k < gates.len() && joins(#[trigger] gates[k].qubits, a, b)
}

/// Whether the pair of places `(i, j)` of a gate is handled before the
/// pair `(x, y)`, pairs being taken by their first place, then their
/// second.
pub open spec fn pair_before(i: int, j: int, x: int, y: int) -> bool {
    i < x || (i == x && j < y)
}

/// `joins`, over the pairs handled before `(x, y)`.
pub open spec fn joins_before(qs: Seq<usize>, a: usize, b: usize, x: int, y: int) -> bool {
    exists|i: int, j: int|
        0 <= i < j < qs.len() && pair_before(i, j, x, y) && ((qs[i] == a && qs[j] == b) || (qs[i] == b && qs[j] == a))
}

/// Taking in the pair `(i, j)` extends `joins_before` by that pair alone.
proof fn lemma_joins_before_step(qs: Seq<usize>, a: usize, b: usize, i: int, j: int)
    requires
        0 <= i < j < qs.len(),
    ensures
        joins_before(qs, a, b, i, j + 1) <==> (joins_before(qs, a, b, i, j) || (qs[i] == a && qs[j] == b) || (qs[i]
            == b && qs[j] == a)),
{
    if joins_before(qs, a, b, i, j + 1) {
        let (x, y) = choose|x: int, y: int|
            0 <= x < y < qs.len() && pair_before(x, y, i, j + 1) && ((qs[x] == a && qs[y] == b) || (qs[x] == b
                && qs[y] == a));
        if x != i || y != j {
            assert(pair_before(x, y, i, j));
        }
    }
    if joins_before(qs, a, b, i, j) {
        let (x, y) = choose|x: int, y: int|
            0 <= x < y < qs.len() && pair_before(x, y, i, j) && ((qs[x] == a && qs[y] == b) || (qs[x] == b && qs[y]
                == a));
        assert(pair_before(x, y, i, j + 1));
    }
    if (qs[i] == a && qs[j] == b) || (qs[i] == b && qs[j] == a) {
        assert(pair_before(i, j, i, j + 1));
    }
}

/// Adds `x` to `v` unless it is there.
fn push_unique(v: &mut Vec<usize>, x: usize)
    requires
        old(v)@.no_duplicates(),
    ensures
        final(v)@.no_duplicates(),
        forall|b: usize| final(v)@.contains(b) <==> (old(v)@.contains(b) || b == x),
{
    let ghost o0 = v@;
    for k in 0..v.len()
        invariant
            v@ == o0,
            o0.no_duplicates(),
            forall|m: int| 0 <= m < k ==> v@[m] != x,
    {
        if v[k] == x {
            assert(v@.contains(x));
            return;
        }
    }
    let ghost o = v@;
    v.push(x);
    assert forall|b: usize| v@.contains(b) implies (o.contains(b) || b == x) by {
        let m = choose|m: int| 0 <= m < v@.len() && v@[m] == b;
        if m < o.len() {
            assert(o[m] == b);
        }
    }
    assert forall|b: usize| o.contains(b) implies v@.contains(b) by {
        let m = choose|m: int| 0 <= m < o.len() && o[m] == b;
        assert(v@[m] == b);
    }
    assert(v@[v@.len() - 1] == x);
}

/// Adds `x` to the neighbours of `q`.
fn add_neighbour(conn: &mut Vec<Vec<usize>>, q: usize, x: usize)
    requires
        q < old(conn)@.len(),
        forall|p: int| 0 <= p < old(conn)@.len() ==> (#[trigger] old(conn)@[p])@.no_duplicates(),
    ensures
        final(conn)@.len() == old(conn)@.len(),
        forall|p: int| 0 <= p < final(conn)@.len() ==> (#[trigger] final(conn)@[p])@.no_duplicates(),
        forall|p: int, b: usize| 0 <= p < final(conn)@.len() ==> (#[trigger] final(conn)@[p]@.contains(b) <==> (old(
            conn,
        )@[p]@.contains(b) || (p == q && b == x))),
{
    let ghost o = conn@;
    let mut v = conn.remove(q);
    push_unique(&mut v, x);
    conn.insert(q, v);
    assert forall|p: int| 0 <= p < conn@.len() && p != q implies conn@[p] == o[p] by {}
}

/// Adds the links of a gate on the qubits `qs` to the neighbour lists.
fn add_links(conn: &mut Vec<Vec<usize>>, qs: &Vec<usize>)
    requires
        forall|k: int| 0 <= k < qs@.len() ==> qs@[k] < old(conn)@.len(),
        forall|p: int| 0 <= p < old(conn)@.len() ==> (#[trigger] old(conn)@[p])@.no_duplicates(),
    ensures
        final(conn)@.len() == old(conn)@.len(),
        forall|p: int| 0 <= p < final(conn)@.len() ==> (#[trigger] final(conn)@[p])@.no_duplicates(),
        forall|p: int, b: usize| 0 <= p < final(conn)@.len() ==> (#[trigger] final(conn)@[p]@.contains(b) <==> (old(
            conn,
        )@[p]@.contains(b) || joins(qs@, p as usize, b))),
{
    let ghost o = conn@;
    let n = qs.len();
    for i in 0..n
        invariant
            n == qs@.len(),
            conn@.len() == o.len(),
            forall|k: int| 0 <= k < qs@.len() ==> qs@[k] < o.len(),
            forall|p: int| 0 <= p < conn@.len() ==> (#[trigger] conn@[p])@.no_duplicates(),
            forall|p: int, b: usize| 0 <= p < conn@.len() ==> (#[trigger] conn@[p]@.contains(b) <==> (o[p]@.contains(b)
                || joins_before(qs@, p as usize, b, i as int, 0))),
    {
        assert forall|p: int, b: usize| 0 <= p < conn@.len() implies (#[trigger] joins_before(qs@, p as usize, b, i as int, i + 1)
            <==> joins_before(qs@, p as usize, b, i as int, 0)) by {
            if joins_before(qs@, p as usize, b, i as int, i + 1) {
                let (x, y) = choose|x: int, y: int|
                    0 <= x < y < qs@.len() && pair_before(x, y, i as int, i + 1) && ((qs@[x] == p as usize && qs@[y] == b) || (
                    qs@[x] == b && qs@[y] == p as usize));
                assert(pair_before(x, y, i as int, 0));
            }
            if joins_before(qs@, p as usize, b, i as int, 0) {
                let (x, y) = choose|x: int, y: int|
                    0 <= x < y < qs@.len() && pair_before(x, y, i as int, 0) && ((qs@[x] == p as usize && qs@[y] == b) || (
                    qs@[x] == b && qs@[y] == p as usize));
                assert(pair_before(x, y, i as int, i + 1));
            }
        }
        for j in i + 1..n
            invariant
                n == qs@.len(),
                i < n,
                conn@.len() == o.len(),
                forall|k: int| 0 <= k < qs@.len() ==> qs@[k] < o.len(),
                forall|p: int| 0 <= p < conn@.len() ==> (#[trigger] conn@[p])@.no_duplicates(),
                forall|p: int, b: usize| 0 <= p < conn@.len() ==> (#[trigger] conn@[p]@.contains(b) <==> (
                o[p]@.contains(b) || joins_before(qs@, p as usize, b, i as int, j as int))),
        {
            let q1 = qs[i];
            let q2 = qs[j];
            let ghost before = conn@;
            add_neighbour(conn, q1, q2);
            let ghost mid = conn@;
            add_neighbour(conn, q2, q1);
            let cl = conn.len();
            assert forall|p: int, b: usize| 0 <= p < conn@.len() implies (#[trigger] conn@[p]@.contains(b) <==> (
            o[p]@.contains(b) || joins_before(qs@, p as usize, b, i as int, j + 1))) by {
                assert(conn@[p]@.contains(b) <==> (mid[p]@.contains(b) || (p == q2 as int && b == q1)));
                assert(mid[p]@.contains(b) <==> (before[p]@.contains(b) || (p == q1 as int && b == q2)));
                assert(before[p]@.contains(b) <==> (o[p]@.contains(b) || joins_before(qs@, p as usize, b, i as int, j as int)));
                assert(p < cl);
                lemma_joins_before_step(qs@, p as usize, b, i as int, j as int);
            }
        }
        assert forall|p: int, b: usize| 0 <= p < conn@.len() implies (#[trigger] conn@[p]@.contains(b) <==> (
        o[p]@.contains(b) || joins_before(qs@, p as usize, b, i + 1, 0))) by {
            if joins_before(qs@, p as usize, b, i + 1, 0) {
                let (x, y) = choose|x: int, y: int|
                    0 <= x < y < qs@.len() && pair_before(x, y, i + 1, 0) && ((qs@[x] == p as usize && qs@[y] == b) || (
                    qs@[x] == b && qs@[y] == p as usize));
                assert(pair_before(x, y, i as int, n as int));
            }
            if joins_before(qs@, p as usize, b, i as int, n as int) {
                let (x, y) = choose|x: int, y: int|
                    0 <= x < y < qs@.len() && pair_before(x, y, i as int, n as int) && ((qs@[x] == p as usize && qs@[y]
                        == b) || (qs@[x] == b && qs@[y] == p as usize));
                assert(pair_before(x, y, i + 1, 0));
            }
        }
    }
    assert forall|p: int, b: usize| 0 <= p < conn@.len() implies (#[trigger] joins_before(qs@, p as usize, b, n as int, 0) <==> joins(
        qs@,
        p as usize,
        b,
    )) by {
        if joins(qs@, p as usize, b) {
            let (x, y) = choose|x: int, y: int|
                0 <= x < y < qs@.len() && ((qs@[x] == p as usize && qs@[y] == b) || (qs@[x] == b && qs@[y] == p as usize));
            assert(pair_before(x, y, n as int, 0));
        }
    }
}

/// Connectivity goes both ways: `b` is a neighbour of `q` exactly when `q`
/// is a neighbour of `b`.
pub proof fn law_connectivity_symmetric(c: QuantumCircuit, conn: Seq<Seq<usize>>, q: usize, b: usize)
    requires
        conn.len() == c.num_qubits,
        forall|p: int, x: usize| 0 <= p < conn.len() ==> (#[trigger] conn[p].contains(x) <==> linked(
            all_gates(c.spec_layers()),
            p as usize,
            x,
        )),
        q < conn.len(),
        b < conn.len(),
    ensures
        conn[q as int].contains(b) <==> conn[b as int].contains(q),
{
    let gs = all_gates(c.spec_layers());
    assert(conn[q as int].contains(b) <==> linked(gs, q, b));
    assert(conn[b as int].contains(q) <==> linked(gs, b, q));
    if linked(gs, q, b) {
        let k = choose|k: int| 0 <= k < gs.len() && joins(#[trigger] gs[k].qubits, q, b);
        assert(joins(gs[k].qubits, b, q));
    }
    if linked(gs, b, q) {
        let k = choose|k: int| 0 <= k < gs.len() && joins(#[trigger] gs[k].qubits, b, q);
        assert(joins(gs[k].qubits, q, b));
    }
}

impl QuantumCircuit {
    /// For each qubit, the qubits it shares a gate with (each once).
    pub fn qubit_connectivity(&self) -> (conn: Vec<Vec<QubitIndex>>)
        requires
            self.wf(),
        ensures
            conn@.len() == self.num_qubits,
            forall|q: int| 0 <= q < conn@.len() ==> (#[trigger] conn@[q])@.no_duplicates(),
            forall|q: int, b: usize| 0 <= q < conn@.len() ==> (#[trigger] conn@[q]@.contains(b) <==> linked(
                all_gates(self.spec_layers()),
                q as usize,
                b,
            )),
    {
        let ghost ls = self.spec_layers();
        let n = self.num_qubits;
        let mut conn: Vec<Vec<QubitIndex>> = Vec::new();
        for q in 0..n
            invariant
                conn@.len() == q,
                forall|p: int| 0 <= p < q ==> (#[trigger] conn@[p])@ == Seq::<usize>::empty(),
        {
            conn.push(Vec::new());
        }
        proof {
            assert(ls.take(0) =~= Seq::<Seq<SpecGate>>::empty());
        }
        for i in 0..self.layers.len()
            invariant
                ls == self.spec_layers(),
                self.wf(),
                conn@.len() == n,
                n == self.num_qubits,
                forall|p: int| 0 <= p < conn@.len() ==> (#[trigger] conn@[p])@.no_duplicates(),
                forall|p: int, b: usize| 0 <= p < conn@.len() ==> (#[trigger] conn@[p]@.contains(b) <==> linked(
                    all_gates(ls.take(i as int)),
                    p as usize,
                    b,
                )),
        {
            let ghost gs = ls[i as int];
            let ghost done = all_gates(ls.take(i as int));
            assert(gs == self.layers@[i as int].spec_gates());
            assert(crate::quantum::circuit::gates_in_bounds(gs, n));
            let ng = self.layers[i].gates.len();
            for j in 0..ng
                invariant
                    i < self.layers@.len(),
                    ng == self.layers@[i as int].gates@.len(),
                    gs == self.layers@[i as int].spec_gates(),
                    crate::quantum::circuit::gates_in_bounds(gs, n),
                    conn@.len() == n,
                    forall|p: int| 0 <= p < conn@.len() ==> (#[trigger] conn@[p])@.no_duplicates(),
                    forall|p: int, b: usize| 0 <= p < conn@.len() ==> (#[trigger] conn@[p]@.contains(b) <==> linked(
                        done + gs.take(j as int),
                        p as usize,
                        b,
                    )),
            {
                let g = &self.layers[i].gates[j];
                assert(gs[j as int] == g@);
                assert(crate::quantum::circuit::qubits_in_bounds(gs[j as int].qubits, n));
                add_links(&mut conn, &g.qubits);
                proof {
                    let s0 = done + gs.take(j as int);
                    let s1 = done + gs.take(j + 1);
                    assert(s1 =~= s0.push(g@));
                    assert forall|p: int, b: usize| 0 <= p < conn@.len() implies (#[trigger] conn@[p]@.contains(b) <==> linked(
                        s1,
                        p as usize,
                        b,
                    )) by {
                        if linked(s1, p as usize, b) && !joins(g.qubits@, p as usize, b) {
                            let k = choose|k: int| 0 <= k < s1.len() && joins(#[trigger] s1[k].qubits, p as usize, b);
                            assert(k < s0.len());
                            assert(s0[k] == s1[k]);
                        }
                        if linked(s0, p as usize, b) {
                            let k = choose|k: int| 0 <= k < s0.len() && joins(#[trigger] s0[k].qubits, p as usize, b);
                            assert(s1[k] == s0[k]);
                        }
                        if joins(g.qubits@, p as usize, b) {
                            assert(s1[s0.len() as int] == g@);
                        }
                    }
                }
            }
            proof {
                assert(gs.take(ng as int) =~= gs);
                let t = ls.take(i + 1);
                assert(t.drop_last() =~= ls.take(i as int));
                assert(t.last() == gs);
            }
        }
        proof {
            assert(ls.take(ls.len() as int) =~= ls);
        }
        conn
    }
}

} // verus!
