use quantum_ir::order::Cmp;
use quantum_ir::pauli::Pauli;
use quantum_ir::pauli::PauliString;

#[test]
fn identity_operators_are_removed() {
    let ps = PauliString::new(vec![(0, Pauli::X), (1, Pauli::I), (2, Pauli::Z)]);
    assert_eq!(ps, PauliString::new(vec![(0, Pauli::X), (2, Pauli::Z)]));
    assert_eq!(ps.to_text(), "X0 Z2");
}

#[test]
fn pauli_operators_are_sorted() {
    let ps = PauliString::new(vec![(2, Pauli::X), (1, Pauli::Z), (0, Pauli::Y)]);
    assert_eq!(ps, PauliString::new(vec![(0, Pauli::Y), (1, Pauli::Z), (2, Pauli::X)]));
    assert_eq!(ps.to_text(), "Y0 Z1 X2");
}

#[test]
fn empty_pauli_equivalent_to_identity() {
    let ps = PauliString::new(vec![]);
    assert_eq!(ps, PauliString::new(vec![]));
    assert_eq!(ps.to_text(), "I");
}

#[test]
fn convert_string_to_paulistring() {
    PauliString::from_string("XZYIZZ").unwrap();
}

#[test]
fn invalid_pauli_chars_return_error() {
    assert!(PauliString::from_string("XZTAL").is_err());
}

#[test]
fn from_string_positions_become_indices() {
    let ps = PauliString::from_string("XZYIZZ").unwrap();
    assert_eq!(ps.to_text(), "X0 Z1 Y2 Z4 Z5");
}

#[test]
fn from_string_all_identities_collapse() {
    let ps = PauliString::from_string("III").unwrap();
    assert_eq!(ps.to_text(), "I");
}

#[test]
fn invalid_pauli_char_is_named_in_error() {
    let err = PauliString::from_string("XZTAL").unwrap_err();
    assert_eq!(err, "Invalid Pauli character: 'T'");
}

#[test]
fn pauli_try_from_reads_all_four_operators() {
    assert_eq!(Pauli::try_from('I').unwrap(), Pauli::I);
    assert_eq!(Pauli::try_from('X').unwrap(), Pauli::X);
    assert_eq!(Pauli::try_from('Y').unwrap(), Pauli::Y);
    assert_eq!(Pauli::try_from('Z').unwrap(), Pauli::Z);
    assert_eq!(Pauli::try_from('q').unwrap_err(), "Invalid Pauli character: 'q'");
}

#[test]
fn normalization_drops_identity_and_sorts() {
    let ps = PauliString::new(vec![(2, Pauli::X), (1, Pauli::I), (0, Pauli::Y)]);
    assert_eq!(ps, PauliString::new(vec![(0, Pauli::Y), (2, Pauli::X)]));
    assert_eq!(ps.to_text(), "Y0 X2");
}

#[test]
fn duplicate_indices_are_kept() {
    let ps = PauliString::new(vec![(1, Pauli::Z), (1, Pauli::X)]);
    assert_eq!(ps.to_text(), "Z1 X1");
}

#[test]
fn two_digit_indices_render_in_full() {
    let ps = PauliString::new(vec![(10, Pauli::X), (205, Pauli::Y)]);
    assert_eq!(ps.to_text(), "X10 Y205");
}

#[test]
fn order_ignores_operator_kind() {
    let a = PauliString::new(vec![(0, Pauli::X)]);
    let b = PauliString::new(vec![(0, Pauli::Y)]);
    assert_eq!(a.cmp(&b), Cmp::Eq);
    assert_ne!(a, b);
    let c = PauliString::new(vec![(1, Pauli::X)]);
    assert_eq!(a.cmp(&c), Cmp::Lt);
    assert_eq!(c.cmp(&a), Cmp::Gt);
    let d = PauliString::new(vec![(0, Pauli::X), (1, Pauli::X)]);
    assert_eq!(a.cmp(&d), Cmp::Lt);
}
