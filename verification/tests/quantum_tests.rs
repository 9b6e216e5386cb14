use matrix_lang::quantum::algorithms::{
    RandomGate, AlgorithmLibrary, BernsteinVazirani, DeutschJozsa, GroverSearch, QuantumAlgorithm,
    QuantumFourierTransform, QuantumPhaseEstimation, QuantumSupremacyCircuits, ShorAlgorithm,
};
use matrix_lang::quantum::circuit::{CircuitBuilder, CircuitError, QuantumCircuit};
use matrix_lang::quantum::gates::{Amplitude, GateType, QuantumGate};
use std::f64::consts::PI;

fn optimal_iterations(num_qubits: usize, marked: usize) -> usize {
    if marked == 0 {
        return 0;
    }
    let total_items = 1usize << num_qubits;
    let theta = (marked as f64 / total_items as f64).sqrt().asin();
    ((PI / 4.0) / theta - 0.5).round() as usize
}

#[test]
fn test_circuit_creation() {
    let circuit = QuantumCircuit::new(3);
    assert_eq!(circuit.num_qubits, 3);
    assert_eq!(circuit.layers.len(), 0);
    assert_eq!(circuit.total_depth, 0);
}

#[test]
fn test_bell_state_circuit() {
    let mut circuit = QuantumCircuit::new(2);
    circuit.h(0).unwrap();
    circuit.cnot(0, 1).unwrap();

    assert_eq!(circuit.layers.len(), 2);
    assert_eq!(circuit.gate_count(), 2);
}

#[test]
fn test_circuit_builder() {
    let circuit = CircuitBuilder::new(2).h(0).cnot(0, 1).measure_all().build();

    assert_eq!(circuit.num_qubits, 2);
    assert_eq!(circuit.gate_count(), 2);
    assert_eq!(circuit.measurements.len(), 2);
}

#[test]
fn test_bernstein_vazirani() {
    let secret = vec![true, false, true, true];
    let bv = BernsteinVazirani::new(secret);
    let circuit = bv.build_circuit();

    assert_eq!(circuit.num_qubits, 5);
    assert!(circuit.gate_count() > 0);
}

#[test]
fn test_grover_search() {
    let grover = GroverSearch::new(3, vec![5, 7], optimal_iterations(3, 2));
    let circuit = grover.build_circuit();

    assert_eq!(circuit.num_qubits, 3);
    assert!(circuit.gate_count() > 0);
}

#[test]
fn test_qft() {
    let qft = QuantumFourierTransform::new(4);
    let circuit = qft.build_circuit();

    assert_eq!(circuit.num_qubits, 4);
    assert!(circuit.gate_count() > 0);
}

#[test]
fn test_algorithm_library() {
    let algorithms = AlgorithmLibrary::list_algorithms();
    assert_eq!(algorithms.len(), 6);

    let bv = AlgorithmLibrary::bernstein_vazirani("1011");
    assert_eq!(bv.required_qubits(), 5);
}

#[test]
fn gates_join_the_last_layer_when_disjoint() {
    let mut c = QuantumCircuit::new(3);
    c.h(0).unwrap();
    c.h(1).unwrap();
    c.cnot(0, 2).unwrap();
    c.x(1).unwrap();
    assert_eq!(c.layers.len(), 2);
    assert_eq!(c.layers[0].gates.len(), 2);
    assert_eq!(c.layers[1].gates.len(), 2);
    assert_eq!(c.total_depth, 2);
    assert_eq!(c.layers[1].depth, 1);
    assert_eq!(c.layers[0].parallel_gates, vec![vec![0, 1]]);
}

#[test]
fn out_of_bounds_gate_is_refused() {
    let mut c = QuantumCircuit::new(2);
    let e = c.cnot(0, 5).unwrap_err();
    assert_eq!(e, CircuitError::QubitOutOfBounds { qubit: 5, num_qubits: 2 });
    assert_eq!(e.message(), "Qubit 5 out of bounds for 2-qubit circuit");
    assert_eq!(c.layers.len(), 0);
}

#[test]
fn add_layer_groups_overlapping_gates() {
    let mut c = QuantumCircuit::new(3);
    c.add_layer(vec![QuantumGate::hadamard(0), QuantumGate::cnot(0, 1), QuantumGate::pauli_x(2)])
        .unwrap();
    assert_eq!(c.layers[0].parallel_gates, vec![vec![0], vec![1, 2]]);
    let e = c.add_layer(vec![QuantumGate::hadamard(0), QuantumGate::hadamard(3)]).unwrap_err();
    assert_eq!(e, CircuitError::QubitOutOfBounds { qubit: 3, num_qubits: 3 });
    assert_eq!(c.layers.len(), 1);
}

#[test]
fn compose_appends_layers_and_checks_sizes() {
    let mut a = QuantumCircuit::new(2);
    a.h(0).unwrap();
    let mut b = QuantumCircuit::new(2);
    b.x(1).unwrap();
    b.cnot(0, 1).unwrap();
    a.compose(&b).unwrap();
    assert_eq!(a.layers.len(), 3);
    assert_eq!(a.gate_count(), 3);
    let c = QuantumCircuit::new(3);
    assert_eq!(a.compose(&c).unwrap_err(), CircuitError::QubitCountMismatch);
}

#[test]
fn identity_removal_and_cancellation() {
    let mut c = QuantumCircuit::new(2);
    c.add_layer(vec![QuantumGate::identity(0)]).unwrap();
    c.add_layer(vec![QuantumGate::pauli_x(0), QuantumGate::pauli_x(0), QuantumGate::s_gate(1), QuantumGate::s_gate(1)])
        .unwrap();
    c.remove_identity_gates();
    assert_eq!(c.layers.len(), 1);
    assert_eq!(c.total_depth, 1);
    c.cancel_adjacent_gates();
    assert_eq!(c.layers[0].gates.len(), 2);
    assert!(matches!(c.layers[0].gates[0].gate_type, GateType::S));
}

#[test]
fn info_summarises_the_circuit() {
    let mut c = QuantumCircuit::new(2);
    c.h(0).unwrap();
    assert_eq!(c.info(), "Circuit: Circuit_2\nQubits: 2\nDepth: 1\nGates: 1\nLayers: 1");
}

#[test]
fn custom_gate_checks_the_matrix_size() {
    let one = Amplitude { re: 1.0f64.to_bits(), im: 0 };
    let zero = Amplitude { re: 0, im: 0 };
    assert!(QuantumGate::custom_gate(vec![0], vec![one, zero, zero, one]).is_ok());
    let e = QuantumGate::custom_gate(vec![0, 1], vec![one]).unwrap_err();
    assert_eq!((e.matrix_len, e.qubit_count), (1, 2));
}

#[test]
fn qft_angles_are_exact_halvings_of_pi() {
    let circuit = QuantumFourierTransform::new(2).build_circuit();
    // H(0), then the controlled phase of pi/2 from qubit 1 onto qubit 0.
    let angles: Vec<f64> = circuit
        .layers
        .iter()
        .flat_map(|l| l.gates.iter())
        .filter_map(|g| match g.gate_type {
            GateType::RZ(a) => Some(f64::from_bits(a)),
            _ => None,
        })
        .collect();
    assert_eq!(angles, vec![PI / 2.0 / 2.0, -PI / 2.0 / 2.0, PI / 2.0 / 2.0]);
    assert_eq!(circuit.name, "QFT_2");
    let inv = QuantumFourierTransform::inverse(3).build_circuit();
    assert_eq!(inv.name, "QFT_inv_3");
    assert_eq!(inv.gate_count(), 1 + 3 * 5 + 3);
}

#[test]
fn algorithm_circuit_names_and_measurements() {
    let bv = AlgorithmLibrary::bernstein_vazirani("1011").build_circuit();
    assert_eq!(bv.name, "Bernstein-Vazirani_1011");
    assert_eq!(bv.measurements.len(), 4);
    assert_eq!(bv.gate_count(), 1 + 5 + 3 + 4);
    let dj = DeutschJozsa::balanced(vec![true, false]).build_circuit();
    assert_eq!(dj.name, "Deutsch-Jozsa");
    assert_eq!(dj.gate_count(), 1 + 3 + 1 + 2);
    let dj2 = DeutschJozsa::constant(2, true).build_circuit();
    assert_eq!(dj2.gate_count(), 1 + 3 + 1 + 2);
    let g = GroverSearch::new(2, vec![3], 1).build_circuit();
    assert_eq!(g.name, "Grover_2_qubits");
    // H H, oracle (CZ; item 3 has no zero digit), diffusion H H X X CZ X X H H.
    assert_eq!(g.gate_count(), 2 + 1 + 9);
    let qpe = QuantumPhaseEstimation::new(2, 0).build_circuit();
    assert_eq!(qpe.name, "QPE_2_0");
    assert_eq!(qpe.measurements.len(), 2);
}

#[test]
fn shor_register_matches_the_float_formula() {
    for n in [0u64, 1, 2, 3, 4, 5, 15, 16, 17, 21, 1000, 1 << 20, (1 << 20) + 1] {
        let expected = if n == 0 { 1 } else { (n as f64).log2().ceil() as usize + 1 };
        assert_eq!(ShorAlgorithm::new(n).register_size, expected, "n = {}", n);
    }
    assert_eq!(AlgorithmLibrary::shor_factoring(15).required_qubits(), 15);
}

#[test]
fn supremacy_circuit_shape() {
    let c = QuantumSupremacyCircuits::google_supremacy_inspired(3);
    assert_eq!(c.name, "Google_Supremacy_3q");
    assert_eq!(c.gate_count(), 20 * (3 + 1));
    assert_eq!(c.measurements.len(), 3);
    let ry = c.layers.iter().flat_map(|l| l.gates.iter()).find_map(|g| match g.gate_type {
        GateType::RY(a) => Some(f64::from_bits(a)),
        _ => None,
    });
    assert_eq!(ry, Some(PI / 3.0));
}

#[test]
fn drawn_gates_are_added_in_order() {
    let draws = vec![
        RandomGate::H(0),
        RandomGate::Cnot(0, 1),
        RandomGate::Ry(1, 0.5f64.to_bits()),
        RandomGate::X(2),
    ];
    let c = QuantumSupremacyCircuits::circuit_from_draws(3, &draws);
    assert_eq!(c.num_qubits, 3);
    assert_eq!(c.gate_count(), 4);
    assert_eq!(c.layers.len(), 3);
    assert_eq!(c.layers[2].gates.len(), 2);
    assert!(matches!(c.layers[2].gates[0].gate_type, GateType::RY(_)));
    assert!(c.measurements.is_empty());
    assert_eq!(c.name, "Circuit_3");
}
