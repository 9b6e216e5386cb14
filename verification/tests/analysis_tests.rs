use matrix_lang::quantum::circuit::QuantumCircuit;
use matrix_lang::quantum::commands::{apply_gate_command, parse_gate_command, GateCommand};

#[test]
fn gate_counts_of_a_bell_circuit() {
    let mut circuit = QuantumCircuit::new(2);
    circuit.h(0).unwrap();
    circuit.cnot(0, 1).unwrap();
    let counts = circuit.gate_count_by_type();
    assert_eq!(counts, vec![("H".to_string(), 1), ("CNOT".to_string(), 1)]);
}

#[test]
fn gate_counts_add_up_repeated_kinds() {
    let mut circuit = QuantumCircuit::new(3);
    circuit.h(0).unwrap();
    circuit.h(1).unwrap();
    circuit.x(2).unwrap();
    circuit.h(2).unwrap();
    let counts = circuit.gate_count_by_type();
    assert_eq!(counts, vec![("H".to_string(), 3), ("X".to_string(), 1)]);
    let total: usize = counts.iter().map(|(_, c)| *c).sum();
    assert_eq!(total, circuit.gate_count());
}

#[test]
fn gate_counts_of_an_empty_circuit() {
    let circuit = QuantumCircuit::new(2);
    assert!(circuit.gate_count_by_type().is_empty());
}

#[test]
fn connectivity_of_one_cnot() {
    let mut circuit = QuantumCircuit::new(3);
    circuit.cnot(0, 1).unwrap();
    assert_eq!(circuit.qubit_connectivity(), vec![vec![1], vec![0], vec![]]);
}

#[test]
fn connectivity_lists_each_neighbour_once() {
    let mut circuit = QuantumCircuit::new(3);
    circuit.cnot(0, 1).unwrap();
    circuit.cnot(1, 0).unwrap();
    circuit.h(2).unwrap();
    assert_eq!(circuit.qubit_connectivity(), vec![vec![1], vec![0], vec![]]);
}

#[test]
fn connectivity_of_a_toffoli_joins_all_three() {
    let mut circuit = QuantumCircuit::new(3);
    circuit.toffoli(0, 1, 2).unwrap();
    let conn = circuit.qubit_connectivity();
    assert_eq!(conn[0], vec![1, 2]);
    assert_eq!(conn[1], vec![0, 2]);
    assert_eq!(conn[2], vec![0, 1]);
}

#[test]
fn connectivity_is_symmetric() {
    let mut circuit = QuantumCircuit::new(4);
    circuit.cnot(0, 3).unwrap();
    circuit.swap(1, 2).unwrap();
    circuit.cz(3, 2).unwrap();
    let conn = circuit.qubit_connectivity();
    for q in 0..4 {
        for &b in &conn[q] {
            assert!(conn[b].contains(&q));
        }
    }
    assert_eq!(conn[3], vec![0, 2]);
    assert_eq!(conn[2], vec![1, 3]);
}

#[test]
fn designer_lines_are_read_into_commands() {
    assert!(matches!(parse_gate_command("H 0"), Some(GateCommand::H(0))));
    assert!(matches!(parse_gate_command("  CNOT\t0   1 "), Some(GateCommand::Cnot(0, 1))));
    assert!(matches!(parse_gate_command("SWAP +2 3"), Some(GateCommand::Swap(2, 3))));
    assert!(matches!(parse_gate_command("TOFFOLI 0 1 2"), Some(GateCommand::Toffoli(0, 1, 2))));
    assert!(matches!(parse_gate_command("MEASURE 4"), Some(GateCommand::Measure(4))));
    assert!(matches!(parse_gate_command("MEASURE_ALL"), Some(GateCommand::MeasureAll)));
    match parse_gate_command("RX 1 1.57") {
        Some(GateCommand::Rx(1, t)) => assert_eq!(t, "1.57"),
        _ => panic!("expected an RX command"),
    }
    assert!(parse_gate_command("h 0").is_none());
    assert!(parse_gate_command("H").is_none());
    assert!(parse_gate_command("H -1").is_none());
    assert!(parse_gate_command("H +").is_none());
    assert!(parse_gate_command("H 18446744073709551616").is_none());
    assert!(parse_gate_command("CNOT 0").is_none());
    assert!(parse_gate_command("FOO 0 1").is_none());
    assert!(parse_gate_command("").is_none());
}

#[test]
fn designer_commands_change_the_circuit() {
    let mut circuit = QuantumCircuit::new(2);
    let h = parse_gate_command("H 0").unwrap();
    assert!(apply_gate_command(&mut circuit, &h, None));
    let bad = parse_gate_command("CNOT 0 5").unwrap();
    assert!(!apply_gate_command(&mut circuit, &bad, None));
    let rz = parse_gate_command("RZ 1 0.5").unwrap();
    assert!(!apply_gate_command(&mut circuit, &rz, None));
    assert!(apply_gate_command(&mut circuit, &rz, Some(0.5f64.to_bits())));
    let m = parse_gate_command("MEASURE_ALL").unwrap();
    assert!(apply_gate_command(&mut circuit, &m, None));
    assert_eq!(circuit.gate_count(), 2);
    assert_eq!(circuit.measurements.len(), 2);
}

#[test]
fn new_layers_take_their_index_as_depth() {
    let mut circuit = QuantumCircuit::new(2);
    circuit.h(0).unwrap();
    circuit.h(1).unwrap();
    assert_eq!(circuit.layers.len(), 1);
    assert_eq!(circuit.layers[0].depth, 0);
    circuit.cnot(0, 1).unwrap();
    assert_eq!(circuit.layers.len(), 2);
    assert_eq!(circuit.layers[1].depth, 1);
    assert!(circuit.metadata.is_empty());
}
