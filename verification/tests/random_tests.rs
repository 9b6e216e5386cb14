use matrix_lang::quantum::algorithms::{QuantumSupremacyCircuits, RandomGate};
use matrix_lang::quantum::random::{draw_of, random_draws, RandomDraw};

#[test]
fn draws_are_fixed_by_the_seed() {
    let a = random_draws(4, 30, 7);
    let b = random_draws(4, 30, 7);
    assert_eq!(a, b);
    assert!(a.len() <= 30);
}

#[test]
fn draws_name_only_qubits_of_the_circuit() {
    for seed in 0..20u64 {
        for d in random_draws(3, 25, seed) {
            match d {
                RandomDraw::H(q) | RandomDraw::X(q) | RandomDraw::Z(q) | RandomDraw::Ry(q, _) => assert!(q < 3),
                RandomDraw::Cnot(a, b) => {
                    assert!(a < 3 && b < 3);
                    assert_ne!(a, b);
                }
            }
        }
    }
}

#[test]
fn no_steps_no_draws() {
    assert!(random_draws(0, 0, 1).is_empty());
    assert!(random_draws(5, 0, 1).is_empty());
}

#[test]
fn one_qubit_circuits_draw_no_cnot() {
    for seed in 0..10u64 {
        assert!(random_draws(1, 40, seed).iter().all(|d| !matches!(d, RandomDraw::Cnot(_, _))));
    }
}

#[test]
fn random_circuit_is_named_by_its_size() {
    let gates = vec![RandomGate::H(0), RandomGate::Cnot(0, 1), RandomGate::Ry(1, 0.5f64.to_bits())];
    let c = QuantumSupremacyCircuits::random_circuit(2, 5, &gates);
    assert_eq!(c.name, "Random_2q_5d");
    assert_eq!(c.num_qubits, 2);
    assert_eq!(c.gate_count(), 3);
}

#[test]
fn each_step_gives_its_draw() {
    assert_eq!(draw_of(0, 2, 0, 0, 0), Some(RandomDraw::H(2)));
    assert_eq!(draw_of(0, 2, 1, 0, 0), Some(RandomDraw::X(2)));
    assert_eq!(draw_of(0, 2, 2, 0, 0), Some(RandomDraw::Z(2)));
    assert_eq!(draw_of(1, 0, 0, 3, 0), Some(RandomDraw::Cnot(0, 3)));
    assert_eq!(draw_of(1, 3, 0, 3, 0), None);
    assert_eq!(draw_of(2, 1, 0, 0, 99), Some(RandomDraw::Ry(1, 99)));
}
