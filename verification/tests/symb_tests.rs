use quantum_ir::symb::Symbol;

#[test]
fn named_symbols_with_same_name_are_equal() {
    let a = Symbol::new("theta");
    let b = Symbol::new("theta");

    assert_eq!(a, b);
}

#[test]
fn bound_and_unbound_symbols_are_not_equal() {
    let a = Symbol::new("theta");
    let b = Symbol::Bound { name: "theta".to_string(), value: 1.0f64.to_bits() };
    assert_ne!(a, b);
}

#[test]
fn symbol_name_preserved_when_bound() {
    let s = Symbol::Bound { name: "phi".to_string(), value: 1.0f64.to_bits() };
    assert_eq!(s.name(), "phi");
}

#[test]
fn bound_symbols_with_different_values_are_not_equal() {
    let a = Symbol::Bound { name: "phi".to_string(), value: 1.0f64.to_bits() };
    let b = Symbol::Bound { name: "phi".to_string(), value: 2.0f64.to_bits() };
    assert_ne!(a, b);
    assert_eq!(a.name(), b.name());
}
