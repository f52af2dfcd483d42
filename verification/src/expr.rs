//! Semantic graph IR for quantum programs.
//!
//! Does not implement any evaluation semantics, but provides a structured
//! representation of quantum expressions and operators. Subexpressions are
//! shared, never copied: every node sits behind a shared immutable handle,
//! so a node may be referenced from several parents. Equality is purely
//! structural.
use vstd::prelude::*;

verus! {

use std::sync::Arc;
use crate::pauli::Pauli;
use crate::pauli::PauliString;
use crate::symb::Symbol;
use crate::symb::SymbolV;

/// An algebraic expression over quantum operators.
///
/// Expressions form a purely symbolic representation and carry no
/// evaluation semantics. All expressions are immutable. A scalar constant
/// is carried as the bit pattern of an IEEE-754 double.
#[derive(Clone, Debug, PartialEq)]
pub enum Expr {
    /// Real scalar constant, as IEEE-754 double bits
    Scalar(u64),
    /// Symbolic parameter
    Symbol(Symbol),
    /// Pauli string operator
    Pauli(PauliString),
    /// A sum of expressions
    /// in which order is not meaningful
    Sum(Vec<Arc<Expr>>),
    /// Products of expressions
    /// Not generally invertible, and order is meaningful
    Product(Vec<Arc<Expr>>),
}

/// Mathematical model of an [`Expr`] tree: each shared handle is erased
/// and every list of children becomes a sequence of child models.
pub ghost enum ExprV {
    Scalar(u64),
    Symbol(SymbolV),
    Pauli(Seq<(usize, Pauli)>),
    Sum(Seq<ExprV>),
    Product(Seq<ExprV>),
}

/// The model of an expression tree.
pub open spec fn expr_view(e: Expr) -> ExprV
    decreases e, 1int,
{
    match e {
        Expr::Scalar(bits) => ExprV::Scalar(bits),
        Expr::Symbol(sym) => ExprV::Symbol(sym@),
        Expr::Pauli(ps) => ExprV::Pauli(ps@),
        Expr::Sum(terms) => ExprV::Sum(expr_list_view(terms@)),
        Expr::Product(factors) => ExprV::Product(expr_list_view(factors@)),
    }
}

/// Model of a list of shared subexpressions, element by element.
pub open spec fn expr_list_view(s: Seq<Arc<Expr>>) -> Seq<ExprV>
    decreases s, 0int,
{
    if s.len() == 0 {
        Seq::empty()
    } else {
        seq![expr_view(*s[0])] + expr_list_view(s.drop_first())
    }
}

/// The list model has one entry per child, the child's model.
pub broadcast proof fn lemma_expr_list_view(s: Seq<Arc<Expr>>)
    ensures
        #![trigger expr_list_view(s)]
        expr_list_view(s).len() == s.len(),
        forall|i: int| 0 <= i < s.len() ==> expr_list_view(s)[i] == expr_view(*s[i]),
    decreases s.len(),
{
    if s.len() > 0 {
        lemma_expr_list_view(s.drop_first());
    }
}

impl View for Expr {
    type V = ExprV;

    open spec fn view(&self) -> ExprV {
        expr_view(*self)
    }
}

impl Expr {
    /// Wrap a scalar constant, given as IEEE-754 double bits, in a shared
    /// expression handle.
    pub fn scalar(bits: u64) -> (r: Arc<Self>)
        ensures
            r@ == ExprV::Scalar(bits),
    {
        Arc::new(Expr::Scalar(bits))
    }

    /// Wrap a symbolic parameter in a shared expression handle.
    pub fn symbol(sym: Symbol) -> (r: Arc<Self>)
        ensures
            r@ == ExprV::Symbol(sym@),
    {
        Arc::new(Expr::Symbol(sym))
    }

    /// Wrap a Pauli string operator in a shared expression handle.
    pub fn pauli(p: PauliString) -> (r: Arc<Self>)
        ensures
            r@ == ExprV::Pauli(p@),
    {
        Arc::new(Expr::Pauli(p))
    }

    /// Wrap a list of terms as their sum. No flattening, sorting or
    /// simplification happens here; children are reused as given.
    pub fn sum(s: Vec<Arc<Expr>>) -> (r: Arc<Self>)
        ensures
            r@ == ExprV::Sum(expr_list_view(s@)),
    {
        Arc::new(Expr::Sum(s))
    }

    /// Wrap a list of factors as their product. No flattening, sorting or
    /// simplification happens here; children are reused as given.
    pub fn product(factors: Vec<Arc<Expr>>) -> (r: Arc<Self>)
        ensures
            r@ == ExprV::Product(expr_list_view(factors@)),
    {
        Arc::new(Expr::Product(factors))
    }
}

/// Relies on Arc::clone: the returned handle shares the very same value.
#[verifier::external_body]
pub(crate) fn arc_clone_expr(a: &Arc<Expr>) -> (r: Arc<Expr>)
    ensures
        *r == **a,
{
    Arc::clone(a)
}

/// The bit pattern encodes an IEEE-754 NaN: exponent all ones and a
/// nonzero mantissa.
pub open spec fn is_nan_bits(bits: u64) -> bool {
    (bits >> 52) & 0x7ff == 0x7ff && (bits & 0xf_ffff_ffff_ffff) != 0
}

/// No scalar constant and no bound symbol value anywhere in the tree is a
/// NaN. NaN values compare as incomparable, which the canonical order
/// silently treats as ties, so several laws hold only on NaN-free trees.
pub open spec fn nan_free(e: ExprV) -> bool
    decreases e, 1int,
{
    match e {
        ExprV::Scalar(bits) => !is_nan_bits(bits),
        ExprV::Symbol(sym) => match sym {
            SymbolV::Named(_) => true,
            SymbolV::Bound { value, .. } => !is_nan_bits(value),
        },
        ExprV::Pauli(_) => true,
        ExprV::Sum(terms) => nan_free_list(terms),
        ExprV::Product(factors) => nan_free_list(factors),
    }
}

/// Every tree in the list is NaN-free.
pub open spec fn nan_free_list(s: Seq<ExprV>) -> bool
    decreases s, 0int,
{
    if s.len() == 0 {
        true
    } else {
        nan_free(s[0]) && nan_free_list(s.drop_first())
    }
}

/// The elementwise reading of `nan_free_list`.
pub broadcast proof fn lemma_nan_free_list(s: Seq<ExprV>)
    ensures
        #![trigger nan_free_list(s)]
        nan_free_list(s) <==> (forall|i: int| 0 <= i < s.len() ==> nan_free(s[i])),
    decreases s.len(),
{
    if s.len() > 0 {
        lemma_nan_free_list(s.drop_first());
        if nan_free_list(s) {
            assert forall|i: int| 0 <= i < s.len() implies nan_free(s[i]) by {
                if i > 0 {
                    assert(s.drop_first()[i - 1] == s[i]);
                }
            }
        }
        if forall|i: int| 0 <= i < s.len() ==> nan_free(s[i]) {
            assert forall|j: int| 0 <= j < s.drop_first().len() implies nan_free(
                s.drop_first()[j],
            ) by {
                assert(s.drop_first()[j] == s[j + 1]);
            }
        }
    }
}

/// Number of nodes of a tree; the termination measure for passes that
/// rebuild a tree from its flattened form.
pub open spec fn expr_size(e: ExprV) -> nat
    decreases e, 1int,
{
    match e {
        ExprV::Scalar(_) => 1,
        ExprV::Symbol(_) => 1,
        ExprV::Pauli(_) => 1,
        ExprV::Sum(terms) => 1 + expr_list_size(terms),
        ExprV::Product(factors) => 1 + expr_list_size(factors),
    }
}

/// Total node count of a list of trees.
pub open spec fn expr_list_size(s: Seq<ExprV>) -> nat
    decreases s, 0int,
{
    if s.len() == 0 {
        0
    } else {
        expr_size(s[0]) + expr_list_size(s.drop_first())
    }
}

/// Node counts split over concatenation.
pub proof fn lemma_expr_list_size_add(a: Seq<ExprV>, b: Seq<ExprV>)
    ensures
        expr_list_size(a + b) == expr_list_size(a) + expr_list_size(b),
    decreases a.len(),
{
    if a.len() == 0 {
        assert(a + b =~= b);
    } else {
        lemma_expr_list_size_add(a.drop_first(), b);
        assert((a + b).drop_first() =~= a.drop_first() + b);
    }
}

/// Each element counts no more nodes than its whole list.
pub proof fn lemma_expr_list_size_elem(s: Seq<ExprV>, i: int)
    requires
        0 <= i < s.len(),
    ensures
        expr_size(s[i]) <= expr_list_size(s),
    decreases s.len(),
{
    if i > 0 {
        lemma_expr_list_size_elem(s.drop_first(), i - 1);
    }
}

} // verus!
