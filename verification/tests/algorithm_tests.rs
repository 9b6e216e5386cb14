use matrix_lang::quantum::algorithms::{
    AlgorithmLibrary, BernsteinVazirani, DeutschJozsa, GroverSearch, QuantumAlgorithm, QuantumFourierTransform,
    QuantumPhaseEstimation, ShorAlgorithm,
};

#[test]
fn algorithm_names_and_descriptions() {
    assert_eq!(BernsteinVazirani::new(vec![true]).name(), "Bernstein-Vazirani");
    assert_eq!(GroverSearch::new(2, vec![1], 1).name(), "Grover Search");
    assert_eq!(QuantumFourierTransform::new(4).name(), "QFT");
    assert_eq!(QuantumFourierTransform::inverse(4).name(), "Inverse QFT");
    assert_eq!(QuantumPhaseEstimation::new(3, 2).name(), "Quantum Phase Estimation");
    assert_eq!(ShorAlgorithm::new(15).name(), "Shor's Algorithm");
    assert_eq!(DeutschJozsa::constant(2, false).name(), "Deutsch-Jozsa");
    assert_eq!(
        QuantumFourierTransform::new(1).description(),
        "Quantum Fourier Transform - quantum analog of classical DFT"
    );
    assert_eq!(AlgorithmLibrary::shor_factoring(15).name(), "Shor's Algorithm");
}

#[test]
fn required_qubits_of_every_algorithm() {
    assert_eq!(QuantumPhaseEstimation::new(3, 2).required_qubits(), 5);
    assert_eq!(ShorAlgorithm::new(15).required_qubits(), 15);
    assert_eq!(ShorAlgorithm::new(16).register_size, 5);
    assert_eq!(ShorAlgorithm::new(1).register_size, 1);
    assert_eq!(AlgorithmLibrary::phase_estimation(3, 2).required_qubits(), 5);
    assert_eq!(QuantumFourierTransform::new(4).required_qubits(), 4);
}

#[test]
fn inverse_transform_matches_the_transform_in_size() {
    let f = QuantumFourierTransform::new(3).build_circuit();
    let i = QuantumFourierTransform::inverse(3).build_circuit();
    assert_eq!(i.name, "QFT_inv_3");
    assert_eq!(i.gate_count(), f.gate_count());
}
