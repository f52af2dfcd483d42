use std::sync::Arc;

use quantum_ir::expr::Expr;
use quantum_ir::pauli::Pauli;
use quantum_ir::pauli::PauliString;
use quantum_ir::symb::Symbol;

#[test]
fn test_flatten_simple_sum() {
    // (a + (b + c)) -> (a + b + c)

    let a = Expr::symbol(Symbol::new("a"));
    let b = Expr::symbol(Symbol::new("b"));
    let c = Expr::symbol(Symbol::new("c"));

    let inner_sum = Expr::sum(vec![b.clone(), c.clone()]);
    let nested_sum = Expr::sum(vec![a.clone(), inner_sum]);

    let flattened = nested_sum.flatten();

    // Expect flattened sum to have exactly 3 terms: a, b, c
    if let Expr::Sum(terms) = flattened.as_ref() {
        assert_eq!(terms.len(), 3);
        assert!(terms.contains(&a));
        assert!(terms.contains(&b));
        assert!(terms.contains(&c));
    } else {
        panic!("Flatten did not return a Sum");
    }
}

#[test]
fn test_flatten_nested_product() {
    // (x * (y * z)) -> (x * y * z)

    let x = Expr::pauli(PauliString::new(vec![(0, Pauli::X)]));
    let y = Expr::pauli(PauliString::new(vec![(1, Pauli::Y)]));
    let z = Expr::pauli(PauliString::new(vec![(2, Pauli::Z)]));

    let inner_prod = Expr::product(vec![y.clone(), z.clone()]);
    let nested_prod = Expr::product(vec![x.clone(), inner_prod]);

    let flattened = nested_prod.flatten();

    if let Expr::Product(factors) = flattened.as_ref() {
        assert_eq!(factors.len(), 3);
        assert!(factors.contains(&x));
        assert!(factors.contains(&y));
        assert!(factors.contains(&z));
    } else {
        panic!("Flatten did not return a Product");
    }
}

#[test]
fn test_flatten_leaf_node() {
    let s = Expr::symbol(Symbol::new("phi"));
    let flattened = s.flatten();
    assert_eq!(&*s, &*flattened); // should be the same value
}

#[test]
fn test_canonical_same_order() {
    let a = Expr::symbol(Symbol::new("a"));
    let b = Expr::symbol(Symbol::new("b"));
    let c = Expr::symbol(Symbol::new("c"));

    let sum1 = Expr::sum(vec![a.clone(), b.clone(), c.clone()]);
    let sum2 = Expr::sum(vec![a.clone(), b.clone(), c.clone()]);

    assert_eq!(sum1.canonical(), sum2.canonical());
}

#[test]
fn test_canonical_different_order() {
    let a = Expr::symbol(Symbol::new("a"));
    let b = Expr::symbol(Symbol::new("b"));
    let c = Expr::symbol(Symbol::new("c"));

    let sum1 = Expr::sum(vec![a.clone(), b.clone(), c.clone()]);
    let sum2 = Expr::sum(vec![c.clone(), a.clone(), b.clone()]);

    assert_eq!(sum1.canonical(), sum2.canonical());
}

#[test]
fn test_canonical_nested() {
    let a = Expr::symbol(Symbol::new("a"));
    let b = Expr::symbol(Symbol::new("b"));
    let c = Expr::symbol(Symbol::new("c"));

    let inner_sum1 = Expr::sum(vec![c.clone(), b.clone()]);
    let nested1 = Expr::sum(vec![a.clone(), inner_sum1]);

    let inner_sum2 = Expr::sum(vec![b.clone(), c.clone()]);
    let nested2 = Expr::sum(vec![a.clone(), inner_sum2]);

    assert_eq!(nested1.canonical(), nested2.canonical());
}

#[test]
fn test_canonicalized_nested_products_different_order_not_equal() {
    let x = Expr::pauli(PauliString::new(vec![(0, Pauli::X)]));
    let y = Expr::pauli(PauliString::new(vec![(0, Pauli::Y)]));

    let s = Expr::symbol(Symbol::new("phi"));
    let a = Expr::sum(vec![Expr::scalar(6.0f64.to_bits()), s.clone(), x.clone()]);

    let combined1 = Expr::product(vec![a.clone(), x.clone(), s.clone(), y.clone()]);

    let combined2: Arc<Expr> = Expr::product(vec![x, y, s, a]);

    assert_ne!(combined1.canonical(), combined2.canonical());
}

#[test]
fn test_canonicalized_products_with_changed_internal_sums_equal() {
    let x = Expr::pauli(PauliString::new(vec![(0, Pauli::X)]));
    let y = Expr::pauli(PauliString::new(vec![(0, Pauli::Y)]));

    let s = Expr::symbol(Symbol::new("phi"));
    let a = Expr::sum(vec![Expr::scalar(6.0f64.to_bits()), s.clone(), x.clone()]);
    let a_changed = Expr::sum(vec![Expr::scalar(6.0f64.to_bits()), x.clone(), s.clone()]);

    let combined1 = Expr::product(vec![a.clone(), x.clone(), s.clone(), y.clone()]);

    let combined2: Arc<Expr> = Expr::product(vec![a_changed, x, s, y]);

    assert_eq!(combined1.canonical(), combined2.canonical());
}

#[test]
fn canonicalize_is_idempotent_on_a_nested_tree() {
    let a = Expr::symbol(Symbol::new("a"));
    let b = Expr::symbol(Symbol::new("b"));
    let inner = Expr::sum(vec![b.clone(), a.clone()]);
    let tree = Expr::product(vec![inner, Expr::scalar(3.5f64.to_bits())]);

    let once = tree.canonical();
    let twice = once.get().canonical();
    assert_eq!(once, twice);
}

#[test]
fn flatten_is_idempotent_on_a_nested_tree() {
    let a = Expr::symbol(Symbol::new("a"));
    let b = Expr::symbol(Symbol::new("b"));
    let c = Expr::symbol(Symbol::new("c"));
    let tree = Expr::sum(vec![a, Expr::sum(vec![b, Expr::sum(vec![c])])]);

    let once = tree.flatten();
    let twice = once.flatten();
    assert_eq!(&*once, &*twice);
}

#[test]
fn scalars_sort_before_symbols_and_paulis() {
    let s = Expr::symbol(Symbol::new("a"));
    let p = Expr::pauli(PauliString::new(vec![(0, Pauli::Z)]));
    let k = Expr::scalar(9.0f64.to_bits());

    let sum1 = Expr::sum(vec![p.clone(), s.clone(), k.clone()]);
    let sum2 = Expr::sum(vec![k.clone(), s.clone(), p.clone()]);
    let expected = Expr::sum(vec![k, s, p]);

    assert_eq!(sum1.canonical(), sum2.canonical());
    assert_eq!(sum1.canonical().get(), &*expected);
}

#[test]
fn negative_scalars_sort_below_positive() {
    let neg = Expr::scalar((-2.0f64).to_bits());
    let pos = Expr::scalar(1.5f64.to_bits());

    let sum = Expr::sum(vec![pos.clone(), neg.clone()]);
    let expected = Expr::sum(vec![neg, pos]);
    assert_eq!(sum.canonical().get(), &*expected);
}

#[test]
fn distributed_product_does_not_merge_with_plain_sum() {
    // a*(b + c) versus (a*b + a*c): algebraically equal, structurally
    // different, and deliberately kept distinct by canonicalization.
    let a = Expr::symbol(Symbol::new("a"));
    let b = Expr::symbol(Symbol::new("b"));
    let c = Expr::symbol(Symbol::new("c"));

    let factored = Expr::product(vec![a.clone(), Expr::sum(vec![b.clone(), c.clone()])]);
    let distributed = Expr::sum(vec![
        Expr::product(vec![a.clone(), b]),
        Expr::product(vec![a, c]),
    ]);

    assert_ne!(factored.canonical(), distributed.canonical());
}

#[test]
fn get_returns_the_canonical_tree() {
    let a = Expr::symbol(Symbol::new("a"));
    let b = Expr::symbol(Symbol::new("b"));
    let sum = Expr::sum(vec![b.clone(), a.clone()]);
    let expected = Expr::sum(vec![a, b]);

    let canonical = sum.canonical();
    assert_eq!(canonical.get(), &*expected);
}
