//! Symbolic parameters used in quantum expressions.
//!
//! This module defines immutable symbolic values that may appear in
//! operator expressions. Symbols are not variables and carry no
//! evaluation semantics by themselves.
use vstd::prelude::*;

verus! {

/// A symbolic parameter, either free or bound to a numeric value.
///
/// A bound value is carried as the bit pattern of an IEEE-754 double;
/// binding does not imply evaluation, and two symbols are equal only if
/// variant and all fields match.
#[derive(Clone, Debug, PartialEq, Eq)]
pub enum Symbol {
    /// A symbol representing a parameter in an operator expression.
    Named(String),
    /// A symbol that has been bound to a numeric value.
    ///
    /// Bound symbols still retain symbolic identity; binding does not
    /// imply evaluation.
    Bound { name: String, value: u64 },
}

/// Mathematical model of a [`Symbol`].
pub ghost enum SymbolV {
    Named(Seq<char>),
    Bound { name: Seq<char>, value: u64 },
}

impl View for Symbol {
    type V = SymbolV;

    open spec fn view(&self) -> SymbolV {
        match self {
            Symbol::Named(name) => SymbolV::Named(name@),
            Symbol::Bound { name, value } => SymbolV::Bound { name: name@, value: *value },
        }
    }
}

/// The name a symbol carries, whatever its variant.
pub open spec fn symbol_name(s: SymbolV) -> Seq<char> {
    match s {
        SymbolV::Named(name) => name,
        SymbolV::Bound { name, .. } => name,
    }
}

impl Symbol {
    /// Create new named symbolic parameter.
    pub fn new(name: &str) -> (r: Self)
        ensures
            r@ == SymbolV::Named(name@),
    {
        Symbol::Named(name.to_owned())
    }

    /// An equal copy of the symbol.
    pub fn duplicate(&self) -> (r: Self)
        ensures
            r@ == self@,
    {
        match self {
            Symbol::Named(name) => Symbol::Named(name.clone()),
            Symbol::Bound { name, value } => Symbol::Bound { name: name.clone(), value: *value },
        }
    }

    /// Returns the name of symbol, ignoring any bound value.
    pub fn name(&self) -> (r: &str)
        ensures
            r@ == symbol_name(self@),
    {
        match self {
            Symbol::Named(name) => name.as_str(),
            Symbol::Bound { name, .. } => name.as_str(),
        }
    }
}

} // verus!
