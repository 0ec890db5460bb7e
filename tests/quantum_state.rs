use math_universe::{QuantumState, QubitError, MAX_QUBITS};
use num_complex::Complex64;
use std::f64::consts::FRAC_1_SQRT_2;

const TOL: f64 = 1e-9;

fn c(re: f64, im: f64) -> Complex64 {
    Complex64::new(re, im)
}

fn register(n: usize) -> QuantumState<Complex64> {
    QuantumState::new(n, c(0.0, 0.0), c(1.0, 0.0)).unwrap()
}

fn hadamard(state: &mut QuantumState<Complex64>, target: usize) -> Result<(), QubitError> {
    state.apply_single_qubit_gate(target, |a: Complex64, b: Complex64| {
        ((a + b) * FRAC_1_SQRT_2, (a - b) * FRAC_1_SQRT_2)
    })
}

fn probability_of_one(state: &QuantumState<Complex64>, target: usize) -> f64 {
    state
        .amplitudes_with_qubit_one(target)
        .unwrap()
        .iter()
        .map(|a| a.norm_sqr())
        .sum()
}

fn total_probability(state: &QuantumState<Complex64>) -> f64 {
    state.amplitudes().iter().map(|a| a.norm_sqr()).sum()
}

fn close(a: Complex64, b: Complex64) -> bool {
    (a - b).norm() < TOL
}

#[test]
fn new_register_is_all_zero_basis_state() {
    for n in 1..=5 {
        let s = register(n);
        assert_eq!(s.num_qubits(), n);
        assert_eq!(s.amplitudes().len(), 1 << n);
        assert_eq!(s.amplitudes()[0], c(1.0, 0.0));
        for a in &s.amplitudes()[1..] {
            assert_eq!(*a, c(0.0, 0.0));
        }
        assert!((total_probability(&s) - 1.0).abs() < TOL);
    }
}

#[test]
fn new_register_with_zero_qubits_has_one_amplitude() {
    let s = register(0);
    assert_eq!(s.amplitudes(), &vec![c(1.0, 0.0)]);
}

#[test]
fn new_register_rejects_too_many_qubits() {
    let r = QuantumState::new(MAX_QUBITS + 1, c(0.0, 0.0), c(1.0, 0.0));
    assert_eq!(
        r.err(),
        Some(QubitError::TooManyQubits { requested: MAX_QUBITS + 1, max: MAX_QUBITS })
    );
}

#[test]
fn bit_flip_on_one_qubit() {
    let mut s = register(1);
    assert_eq!(s.apply_x(0), Ok(()));
    assert_eq!(s.amplitudes(), &vec![c(0.0, 0.0), c(1.0, 0.0)]);
}

#[test]
fn bit_flip_on_higher_qubit_moves_mass_to_that_bit() {
    let mut s = register(3);
    assert_eq!(s.apply_x(2), Ok(()));
    for (i, a) in s.amplitudes().iter().enumerate() {
        let expected = if i == 4 { c(1.0, 0.0) } else { c(0.0, 0.0) };
        assert_eq!(*a, expected);
    }
}

#[test]
fn bit_flip_twice_restores_exactly() {
    let mut s = register(3);
    hadamard(&mut s, 0).unwrap();
    s.apply_x(1).unwrap();
    let before = s.amplitudes().clone();
    s.apply_x(0).unwrap();
    s.apply_x(0).unwrap();
    assert_eq!(s.amplitudes(), &before);
    s.apply_x(2).unwrap();
    assert_ne!(s.amplitudes(), &before);
    s.apply_x(2).unwrap();
    assert_eq!(s.amplitudes(), &before);
}

#[test]
fn hadamard_on_one_qubit() {
    let mut s = register(1);
    assert_eq!(hadamard(&mut s, 0), Ok(()));
    let amps = s.amplitudes();
    assert!((amps[0].re - 0.70710678).abs() < 1e-8 && amps[0].im.abs() < TOL);
    assert!((amps[1].re - 0.70710678).abs() < 1e-8 && amps[1].im.abs() < TOL);
    assert!((probability_of_one(&s, 0) - 0.5).abs() < TOL);
}

#[test]
fn hadamard_scales_imaginary_parts_too() {
    let mut s = QuantumState::new(1, c(0.0, 0.0), c(0.0, 1.0)).unwrap();
    hadamard(&mut s, 0).unwrap();
    assert!(close(s.amplitudes()[0], c(0.0, FRAC_1_SQRT_2)));
    assert!(close(s.amplitudes()[1], c(0.0, FRAC_1_SQRT_2)));
}

#[test]
fn hadamard_on_qubit_one_reads_basis_one() {
    let mut s = register(1);
    s.apply_x(0).unwrap();
    hadamard(&mut s, 0).unwrap();
    assert!(close(s.amplitudes()[0], c(FRAC_1_SQRT_2, 0.0)));
    assert!(close(s.amplitudes()[1], c(-FRAC_1_SQRT_2, 0.0)));
}

#[test]
fn hadamard_twice_restores_within_tolerance() {
    let mut s = register(3);
    s.apply_x(1).unwrap();
    hadamard(&mut s, 0).unwrap();
    s.apply_cnot(0, 2).unwrap();
    let before = s.amplitudes().clone();
    for k in 0..3 {
        hadamard(&mut s, k).unwrap();
        hadamard(&mut s, k).unwrap();
        for (a, b) in s.amplitudes().iter().zip(before.iter()) {
            assert!(close(*a, *b));
        }
    }
}

#[test]
fn bell_pair() {
    let mut s = register(2);
    hadamard(&mut s, 0).unwrap();
    assert_eq!(s.apply_cnot(0, 1), Ok(()));
    let amps = s.amplitudes();
    assert!(close(amps[0], c(FRAC_1_SQRT_2, 0.0)));
    assert!(close(amps[1], c(0.0, 0.0)));
    assert!(close(amps[2], c(0.0, 0.0)));
    assert!(close(amps[3], c(FRAC_1_SQRT_2, 0.0)));
    assert!((amps[3].re - 0.70710678).abs() < 1e-8);
    assert!((probability_of_one(&s, 0) - 0.5).abs() < TOL);
    assert!((probability_of_one(&s, 1) - 0.5).abs() < TOL);
}

#[test]
fn cnot_with_control_zero_changes_nothing() {
    let mut s = register(2);
    s.apply_cnot(0, 1).unwrap();
    assert_eq!(s.amplitudes()[0], c(1.0, 0.0));
    s.apply_x(0).unwrap();
    s.apply_cnot(0, 1).unwrap();
    assert_eq!(s.amplitudes()[3], c(1.0, 0.0));
    assert_eq!(s.amplitudes()[1], c(0.0, 0.0));
}

#[test]
fn cnot_with_control_equal_to_target_is_refused() {
    let mut s = register(2);
    hadamard(&mut s, 0).unwrap();
    let before = s.amplitudes().clone();
    assert_eq!(s.apply_cnot(0, 0), Err(QubitError::SameControlAndTarget { qubit: 0 }));
    assert_eq!(s.amplitudes(), &before);
}

#[test]
fn out_of_range_qubits_are_refused_and_change_nothing() {
    let mut s = register(2);
    hadamard(&mut s, 1).unwrap();
    let before = s.amplitudes().clone();
    let oor = |q: usize| Err(QubitError::OutOfRange { qubit: q, num_qubits: 2 });
    assert_eq!(s.apply_x(2), oor(2));
    assert_eq!(hadamard(&mut s, 5), oor(5));
    assert_eq!(s.apply_cnot(2, 0), oor(2));
    assert_eq!(s.apply_cnot(0, 3), oor(3));
    assert_eq!(s.apply_cnot(4, 4), oor(4));
    assert_eq!(s.amplitudes(), &before);
    assert_eq!(
        s.amplitudes_with_qubit_one(2),
        Err(QubitError::OutOfRange { qubit: 2, num_qubits: 2 })
    );
}

#[test]
fn amplitudes_with_qubit_one_selects_by_bit() {
    let mut s = QuantumState::new(3, 0u32, 1u32).unwrap();
    // An integer amplitude type makes the pair map's effect easy to read.
    s.apply_single_qubit_gate(0, |a: u32, b: u32| (a * 10 + 1, b * 10 + 2)).unwrap();
    let amps = s.amplitudes().clone();
    assert_eq!(amps, vec![11, 2, 1, 2, 1, 2, 1, 2]);
    assert_eq!(s.amplitudes_with_qubit_one(0).unwrap(), vec![2, 2, 2, 2]);
    assert_eq!(s.amplitudes_with_qubit_one(1).unwrap(), vec![1, 2, 1, 2]);
    assert_eq!(s.amplitudes_with_qubit_one(2).unwrap(), vec![1, 2, 1, 2]);
}

#[test]
fn normalization_kept_over_a_gate_sequence() {
    let mut s = register(4);
    let steps: Vec<(u8, usize, usize)> = vec![
        (0, 0, 0),
        (1, 1, 0),
        (2, 0, 2),
        (0, 3, 0),
        (2, 3, 1),
        (1, 2, 0),
        (0, 1, 0),
        (2, 1, 3),
    ];
    for (kind, a, b) in steps {
        match kind {
            0 => hadamard(&mut s, a).unwrap(),
            1 => s.apply_x(a).unwrap(),
            _ => s.apply_cnot(a, b).unwrap(),
        }
        assert!((total_probability(&s) - 1.0).abs() < TOL);
    }
}

#[test]
fn marginal_probabilities_lie_in_unit_interval() {
    let mut s = register(3);
    hadamard(&mut s, 0).unwrap();
    s.apply_cnot(0, 1).unwrap();
    s.apply_x(2).unwrap();
    let mut sum = 0.0;
    for k in 0..3 {
        let p = probability_of_one(&s, k);
        assert!((0.0..=1.0 + TOL).contains(&p));
        sum += p;
    }
    assert!((probability_of_one(&s, 2) - 1.0).abs() < TOL);
    assert!((sum - 2.0).abs() < TOL);
}
