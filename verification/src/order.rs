//! The strict order used to canonicalize sums.
//!
//! Expressions are ranked by variant kind first, then by value or
//! substructure within the same kind: numeric comparison for scalars,
//! field-wise comparison for symbols, index-sequence comparison for Pauli
//! strings, and recursive element-by-element comparison for sums and
//! products. NaN scalar values are incomparable; the sort that uses this
//! order silently treats incomparable values as order-equal.
use vstd::prelude::*;

verus! {

use std::sync::Arc;
use crate::expr::Expr;
use crate::expr::ExprV;
use crate::expr::expr_list_size;
use crate::expr::expr_list_view;
use crate::expr::expr_size;
use crate::expr::expr_view;
use crate::expr::is_nan_bits;
use crate::expr::lemma_expr_list_size_elem;
use crate::expr::lemma_expr_list_view;
use crate::pauli::Pauli;
use crate::symb::Symbol;
use crate::symb::SymbolV;
use vstd::string::StrSliceExecFns;

/// Outcome of a comparison.
#[derive(Clone, Copy, Debug, PartialEq, Eq, Structural)]
pub enum Cmp {
    Lt,
    Eq,
    Gt,
}

/// The order of two integers.
pub open spec fn cmp_of_int(a: int, b: int) -> Cmp {
    if a < b {
        Cmp::Lt
    } else if a == b {
        Cmp::Eq
    } else {
        Cmp::Gt
    }
}

/// The magnitude bits of an IEEE-754 double: everything but the sign.
pub open spec fn f64_magnitude(bits: u64) -> u64 {
    bits & 0x7fff_ffff_ffff_ffff
}

/// An integer whose order is the numeric order of the doubles the bits
/// encode, for non-NaN values: the magnitude, negated under a set sign
/// bit. Both zeros map to 0.
pub open spec fn f64_key(bits: u64) -> int {
    if bits >> 63 == 1 {
        -(f64_magnitude(bits) as int)
    } else {
        f64_magnitude(bits) as int
    }
}

/// How doubles compare, read off their bit patterns: a NaN is
/// incomparable with everything; otherwise numeric order, with the two
/// zeros equal.
pub open spec fn pcmp_f64(a: u64, b: u64) -> Option<Cmp> {
    if is_nan_bits(a) || is_nan_bits(b) {
        None
    } else {
        Some(cmp_of_int(f64_key(a), f64_key(b)))
    }
}

/// The order of two characters: by code point, as text compares.
pub open spec fn cmp_char(a: char, b: char) -> Cmp {
    cmp_of_int(a as int, b as int)
}

/// Lexicographic order of two character sequences; a proper prefix comes
/// first. This is the order of the underlying texts.
pub open spec fn cmp_chars(a: Seq<char>, b: Seq<char>) -> Cmp
    decreases a.len(),
{
    if a.len() == 0 && b.len() == 0 {
        Cmp::Eq
    } else if a.len() == 0 {
        Cmp::Lt
    } else if b.len() == 0 {
        Cmp::Gt
    } else if cmp_char(a[0], b[0]) != Cmp::Eq {
        cmp_char(a[0], b[0])
    } else {
        cmp_chars(a.drop_first(), b.drop_first())
    }
}

/// How symbols compare: a named symbol before a bound one; named symbols
/// by name; bound symbols by name, then by value.
pub open spec fn pcmp_symbol(a: SymbolV, b: SymbolV) -> Option<Cmp> {
    match (a, b) {
        (SymbolV::Named(x), SymbolV::Named(y)) => Some(cmp_chars(x, y)),
        (SymbolV::Named(_), SymbolV::Bound { .. }) => Some(Cmp::Lt),
        (SymbolV::Bound { .. }, SymbolV::Named(_)) => Some(Cmp::Gt),
        (SymbolV::Bound { name: nx, value: vx }, SymbolV::Bound { name: ny, value: vy }) => if cmp_chars(
            nx,
            ny,
        ) != Cmp::Eq {
            Some(cmp_chars(nx, ny))
        } else {
            pcmp_f64(vx, vy)
        },
    }
}

/// The rank of each expression kind in the canonical order.
pub open spec fn rank(e: ExprV) -> int {
    match e {
        ExprV::Scalar(_) => 0,
        ExprV::Symbol(_) => 1,
        ExprV::Pauli(_) => 2,
        ExprV::Sum(_) => 3,
        ExprV::Product(_) => 4,
    }
}

/// How expressions compare: by kind rank first, then within the same
/// kind. Two Pauli strings compare by their index sequences alone, so
/// order-equal Pauli strings may be value-unequal.
pub open spec fn pcmp_expr(a: ExprV, b: ExprV) -> Option<Cmp>
    decreases a, b, 1int,
{
    if rank(a) != rank(b) {
        Some(cmp_of_int(rank(a), rank(b)))
    } else {
        match (a, b) {
            (ExprV::Scalar(x), ExprV::Scalar(y)) => pcmp_f64(x, y),
            (ExprV::Symbol(x), ExprV::Symbol(y)) => pcmp_symbol(x, y),
            (ExprV::Pauli(x), ExprV::Pauli(y)) => Some(crate::pauli::cmp_indices(x, y)),
            (ExprV::Sum(x), ExprV::Sum(y)) => pcmp_list(x, y),
            (ExprV::Product(x), ExprV::Product(y)) => pcmp_list(x, y),
            _ => None,
        }
    }
}

/// Lexicographic comparison of child lists; an incomparable pair decides
/// the whole comparison as incomparable.
pub open spec fn pcmp_list(a: Seq<ExprV>, b: Seq<ExprV>) -> Option<Cmp>
    decreases a, b, 0int,
{
    if a.len() == 0 && b.len() == 0 {
        Some(Cmp::Eq)
    } else if a.len() == 0 {
        Some(Cmp::Lt)
    } else if b.len() == 0 {
        Some(Cmp::Gt)
    } else {
        match pcmp_expr(a[0], b[0]) {
            None => None,
            Some(Cmp::Eq) => pcmp_list(a.drop_first(), b.drop_first()),
            Some(o) => Some(o),
        }
    }
}

/// The comparator the canonical sort runs: incomparable expressions are
/// silently treated as order-equal.
pub open spec fn cmp_eff(a: ExprV, b: ExprV) -> Cmp {
    match pcmp_expr(a, b) {
        None => Cmp::Eq,
        Some(o) => o,
    }
}

/// The bits encode a NaN.
fn is_nan_exec(bits: u64) -> (r: bool)
    ensures
        r == is_nan_bits(bits),
{
    (bits >> 52) & 0x7ff == 0x7ff && (bits & 0xf_ffff_ffff_ffff) != 0
}

/// Compare two doubles given as bits.
fn cmp_f64_bits(a: u64, b: u64) -> (r: Option<Cmp>)
    ensures
        r == pcmp_f64(a, b),
{
    if is_nan_exec(a) || is_nan_exec(b) {
        return None;
    }
    let ma = a & 0x7fff_ffff_ffff_ffff;
    let mb = b & 0x7fff_ffff_ffff_ffff;
    let na = (a >> 63) == 1;
    let nb = (b >> 63) == 1;
    if na && nb {
        if mb < ma {
            Some(Cmp::Lt)
        } else if ma == mb {
            Some(Cmp::Eq)
        } else {
            Some(Cmp::Gt)
        }
    } else if !na && !nb {
        if ma < mb {
            Some(Cmp::Lt)
        } else if ma == mb {
            Some(Cmp::Eq)
        } else {
            Some(Cmp::Gt)
        }
    } else if na {
        if ma == 0 && mb == 0 {
            Some(Cmp::Eq)
        } else {
            Some(Cmp::Lt)
        }
    } else {
        if ma == 0 && mb == 0 {
            Some(Cmp::Eq)
        } else {
            Some(Cmp::Gt)
        }
    }
}

/// Compare two texts character by character.
fn cmp_str(a: &str, b: &str) -> (r: Cmp)
    ensures
        r == cmp_chars(a@, b@),
{
    let la = a.unicode_len();
    let lb = b.unicode_len();
    proof {
        assert(a@.skip(0) =~= a@);
        assert(b@.skip(0) =~= b@);
    }
    let mut i: usize = 0;
    while i < la && i < lb
        invariant
            la == a@.len(),
            lb == b@.len(),
            i <= la,
            i <= lb,
            cmp_chars(a@, b@) == cmp_chars(a@.skip(i as int), b@.skip(i as int)),
        decreases la - i,
    {
        let ca = a.get_char(i);
        let cb = b.get_char(i);
        proof {
            assert(a@.skip(i as int)[0] == a@[i as int]);
            assert(b@.skip(i as int)[0] == b@[i as int]);
            assert(a@.skip(i + 1) =~= a@.skip(i as int).drop_first());
            assert(b@.skip(i + 1) =~= b@.skip(i as int).drop_first());
        }
        if (ca as u32) < (cb as u32) {
            return Cmp::Lt;
        }
        if (ca as u32) > (cb as u32) {
            return Cmp::Gt;
        }
        i = i + 1;
    }
    if la == lb {
        Cmp::Eq
    } else if la < lb {
        Cmp::Lt
    } else {
        Cmp::Gt
    }
}

/// Compare two symbols.
fn cmp_symbol_exec(a: &Symbol, b: &Symbol) -> (r: Option<Cmp>)
    ensures
        r == pcmp_symbol(a@, b@),
{
    match (a, b) {
        (Symbol::Named(x), Symbol::Named(y)) => Some(cmp_str(x.as_str(), y.as_str())),
        (Symbol::Named(_), Symbol::Bound { .. }) => Some(Cmp::Lt),
        (Symbol::Bound { .. }, Symbol::Named(_)) => Some(Cmp::Gt),
        (Symbol::Bound { name: nx, value: vx }, Symbol::Bound { name: ny, value: vy }) => {
            let c = cmp_str(nx.as_str(), ny.as_str());
            if !matches!(c, Cmp::Eq) {
                Some(c)
            } else {
                cmp_f64_bits(*vx, *vy)
            }
        },
    }
}

/// Compare two expression trees; `None` means incomparable.
pub(crate) fn pcmp_exec(a: &Expr, b: &Expr) -> (r: Option<Cmp>)
    ensures
        r == pcmp_expr(a@, b@),
    decreases expr_size(a@), 1int,
{
    broadcast use lemma_expr_list_view;

    match (a, b) {
        (Expr::Scalar(x), Expr::Scalar(y)) => cmp_f64_bits(*x, *y),
        (Expr::Scalar(_), _) => Some(Cmp::Lt),
        (Expr::Symbol(_), Expr::Scalar(_)) => Some(Cmp::Gt),
        (Expr::Symbol(x), Expr::Symbol(y)) => cmp_symbol_exec(x, y),
        (Expr::Symbol(_), _) => Some(Cmp::Lt),
        (Expr::Pauli(_), Expr::Scalar(_)) => Some(Cmp::Gt),
        (Expr::Pauli(_), Expr::Symbol(_)) => Some(Cmp::Gt),
        (Expr::Pauli(x), Expr::Pauli(y)) => Some(x.cmp(y)),
        (Expr::Pauli(_), _) => Some(Cmp::Lt),
        (Expr::Sum(x), Expr::Sum(y)) => pcmp_children(a, x, y),
        (Expr::Sum(_), Expr::Product(_)) => Some(Cmp::Lt),
        (Expr::Sum(_), _) => Some(Cmp::Gt),
        (Expr::Product(x), Expr::Product(y)) => pcmp_children(a, x, y),
        (Expr::Product(_), _) => Some(Cmp::Gt),
    }
}

/// Compare the child lists of two same-kind nodes, left to right. The
/// first parameter is the node owning `x`, the termination measure.
fn pcmp_children(parent: &Expr, x: &Vec<Arc<Expr>>, y: &Vec<Arc<Expr>>) -> (r: Option<Cmp>)
    requires
        expr_list_size(expr_list_view(x@)) < expr_size(parent@),
    ensures
        r == pcmp_list(expr_list_view(x@), expr_list_view(y@)),
    decreases expr_size(parent@), 0int,
{
    broadcast use lemma_expr_list_view;

    let ghost lx = expr_list_view(x@);
    let ghost ly = expr_list_view(y@);
    let la = x.len();
    let lb = y.len();
    proof {
        assert(lx.skip(0) =~= lx);
        assert(ly.skip(0) =~= ly);
    }
    let mut i: usize = 0;
    while i < la && i < lb
        invariant
            la == x@.len(),
            lb == y@.len(),
            la == lx.len(),
            lb == ly.len(),
            i <= la,
            i <= lb,
            lx == expr_list_view(x@),
            ly == expr_list_view(y@),
            expr_list_size(lx) < expr_size(parent@),
            pcmp_list(lx, ly) == pcmp_list(lx.skip(i as int), ly.skip(i as int)),
        decreases la - i,
    {
        proof {
            lemma_expr_list_size_elem(lx, i as int);
            lemma_expr_list_view(x@);
            lemma_expr_list_view(y@);
            assert(lx[i as int] == expr_view(*x@[i as int]));
            assert(ly[i as int] == expr_view(*y@[i as int]));
            assert(expr_size(lx[i as int]) < expr_size(parent@));
            assert(lx.skip(i as int)[0] == lx[i as int]);
            assert(ly.skip(i as int)[0] == ly[i as int]);
            assert(lx.skip(i + 1) =~= lx.skip(i as int).drop_first());
            assert(ly.skip(i + 1) =~= ly.skip(i as int).drop_first());
        }
        let c = pcmp_exec(&x[i], &y[i]);
        match c {
            Some(Cmp::Eq) => {
                i = i + 1;
            },
            _ => {
                return c;
            },
        }
    }
    if la == lb {
        Some(Cmp::Eq)
    } else if la < lb {
        Some(Cmp::Lt)
    } else {
        Some(Cmp::Gt)
    }
}

/// The comparator the canonical sort runs: incomparable expressions are
/// treated as order-equal rather than failing.
pub(crate) fn cmp_eff_exec(a: &Expr, b: &Expr) -> (r: Cmp)
    ensures
        r == cmp_eff(a@, b@),
{
    match pcmp_exec(a, b) {
        None => Cmp::Eq,
        Some(o) => o,
    }
}

/// The outcome of comparing in the other direction.
pub open spec fn cmp_rev(c: Cmp) -> Cmp {
    match c {
        Cmp::Lt => Cmp::Gt,
        Cmp::Eq => Cmp::Eq,
        Cmp::Gt => Cmp::Lt,
    }
}

/// The outcome of a partial comparison in the other direction.
pub open spec fn pcmp_rev(c: Option<Cmp>) -> Option<Cmp> {
    match c {
        None => None,
        Some(o) => Some(cmp_rev(o)),
    }
}

/// Swapping the texts reverses their order.
proof fn lemma_cmp_chars_reverse(a: Seq<char>, b: Seq<char>)
    ensures
        cmp_chars(b, a) == cmp_rev(cmp_chars(a, b)),
    decreases a.len(), b.len(),
{
    if a.len() > 0 && b.len() > 0 {
        lemma_cmp_chars_reverse(a.drop_first(), b.drop_first());
    }
}

/// Order-equal texts are the same text.
proof fn lemma_cmp_chars_eq(a: Seq<char>, b: Seq<char>)
    requires
        cmp_chars(a, b) == Cmp::Eq,
    ensures
        a == b,
    decreases a.len(),
{
    if a.len() == 0 {
        assert(a =~= b);
    } else {
        lemma_cmp_chars_eq(a.drop_first(), b.drop_first());
        assert(a =~= seq![a[0]] + a.drop_first());
        assert(b =~= seq![b[0]] + b.drop_first());
    }
}

/// The order of texts is transitive.
proof fn lemma_cmp_chars_trans(a: Seq<char>, b: Seq<char>, c: Seq<char>)
    requires
        cmp_chars(a, b) == Cmp::Lt,
        cmp_chars(b, c) == Cmp::Lt,
    ensures
        cmp_chars(a, c) == Cmp::Lt,
    decreases a.len(),
{
    if a.len() > 0 && b.len() > 0 && c.len() > 0 {
        if cmp_char(a[0], b[0]) == Cmp::Eq && cmp_char(b[0], c[0]) == Cmp::Eq {
            lemma_cmp_chars_trans(a.drop_first(), b.drop_first(), c.drop_first());
        }
    }
}

/// Swapping the strings reverses the index order.
proof fn lemma_cmp_indices_reverse(a: Seq<(usize, Pauli)>, b: Seq<(usize, Pauli)>)
    ensures
        crate::pauli::cmp_indices(b, a) == cmp_rev(crate::pauli::cmp_indices(a, b)),
    decreases a.len(), b.len(),
{
    if a.len() > 0 && b.len() > 0 {
        lemma_cmp_indices_reverse(a.drop_first(), b.drop_first());
    }
}

/// Index-order-equal strings compare alike with every third string.
proof fn lemma_cmp_indices_congruent(
    a: Seq<(usize, Pauli)>,
    b: Seq<(usize, Pauli)>,
    c: Seq<(usize, Pauli)>,
)
    requires
        crate::pauli::cmp_indices(a, b) == Cmp::Eq,
    ensures
        crate::pauli::cmp_indices(a, c) == crate::pauli::cmp_indices(b, c),
        crate::pauli::cmp_indices(c, a) == crate::pauli::cmp_indices(c, b),
    decreases a.len(), c.len(),
{
    lemma_cmp_indices_reverse(a, c);
    lemma_cmp_indices_reverse(b, c);
    if a.len() > 0 && b.len() > 0 && c.len() > 0 {
        lemma_cmp_indices_congruent(a.drop_first(), b.drop_first(), c.drop_first());
    }
}

/// The index order is transitive.
proof fn lemma_cmp_indices_trans(
    a: Seq<(usize, Pauli)>,
    b: Seq<(usize, Pauli)>,
    c: Seq<(usize, Pauli)>,
)
    requires
        crate::pauli::cmp_indices(a, b) == Cmp::Lt,
        crate::pauli::cmp_indices(b, c) == Cmp::Lt,
    ensures
        crate::pauli::cmp_indices(a, c) == Cmp::Lt,
    decreases a.len(),
{
    if a.len() > 0 && b.len() > 0 && c.len() > 0 {
        if a[0].0 == b[0].0 && b[0].0 == c[0].0 {
            lemma_cmp_indices_trans(a.drop_first(), b.drop_first(), c.drop_first());
        }
    }
}

/// Swapping the symbols reverses their order.
proof fn lemma_pcmp_symbol_reverse(a: SymbolV, b: SymbolV)
    ensures
        pcmp_symbol(b, a) == pcmp_rev(pcmp_symbol(a, b)),
{
    match (a, b) {
        (SymbolV::Named(x), SymbolV::Named(y)) => {
            lemma_cmp_chars_reverse(x, y);
        },
        (SymbolV::Bound { name: nx, value: vx }, SymbolV::Bound { name: ny, value: vy }) => {
            lemma_cmp_chars_reverse(nx, ny);
        },
        _ => {},
    }
}

/// Order-equal symbols compare alike with every third symbol.
proof fn lemma_pcmp_symbol_congruent(a: SymbolV, b: SymbolV, c: SymbolV)
    requires
        pcmp_symbol(a, b) == Some(Cmp::Eq),
    ensures
        pcmp_symbol(a, c) == pcmp_symbol(b, c),
        pcmp_symbol(c, a) == pcmp_symbol(c, b),
{
    lemma_pcmp_symbol_reverse(a, c);
    lemma_pcmp_symbol_reverse(b, c);
    match (a, b) {
        (SymbolV::Named(x), SymbolV::Named(y)) => {
            lemma_cmp_chars_eq(x, y);
        },
        (SymbolV::Bound { name: nx, value: vx }, SymbolV::Bound { name: ny, value: vy }) => {
            if cmp_chars(nx, ny) == Cmp::Eq {
                lemma_cmp_chars_eq(nx, ny);
            }
        },
        _ => {},
    }
}

/// The symbol order is transitive.
proof fn lemma_pcmp_symbol_trans(a: SymbolV, b: SymbolV, c: SymbolV)
    requires
        pcmp_symbol(a, b) == Some(Cmp::Lt),
        pcmp_symbol(b, c) == Some(Cmp::Lt),
    ensures
        pcmp_symbol(a, c) == Some(Cmp::Lt),
{
    match (a, b, c) {
        (SymbolV::Named(x), SymbolV::Named(y), SymbolV::Named(z)) => {
            lemma_cmp_chars_trans(x, y, z);
        },
        (
            SymbolV::Bound { name: nx, value: vx },
            SymbolV::Bound { name: ny, value: vy },
            SymbolV::Bound { name: nz, value: vz },
        ) => {
            if cmp_chars(nx, ny) == Cmp::Eq {
                lemma_cmp_chars_eq(nx, ny);
            } else if cmp_chars(ny, nz) == Cmp::Eq {
                lemma_cmp_chars_eq(ny, nz);
            } else {
                lemma_cmp_chars_trans(nx, ny, nz);
            }
        },
        _ => {},
    }
}

/// Swapping the trees reverses their order; incomparable stays
/// incomparable.
pub proof fn lemma_pcmp_expr_reverse(a: ExprV, b: ExprV)
    ensures
        pcmp_expr(b, a) == pcmp_rev(pcmp_expr(a, b)),
    decreases a, b, 1int,
{
    if rank(a) == rank(b) {
        match (a, b) {
            (ExprV::Symbol(x), ExprV::Symbol(y)) => {
                lemma_pcmp_symbol_reverse(x, y);
            },
            (ExprV::Pauli(x), ExprV::Pauli(y)) => {
                lemma_cmp_indices_reverse(x, y);
            },
            (ExprV::Sum(x), ExprV::Sum(y)) => {
                lemma_pcmp_list_reverse(x, y);
            },
            (ExprV::Product(x), ExprV::Product(y)) => {
                lemma_pcmp_list_reverse(x, y);
            },
            _ => {},
        }
    }
}

/// Swapping the lists reverses their order.
proof fn lemma_pcmp_list_reverse(a: Seq<ExprV>, b: Seq<ExprV>)
    ensures
        pcmp_list(b, a) == pcmp_rev(pcmp_list(a, b)),
    decreases a, b, 0int,
{
    if a.len() > 0 && b.len() > 0 {
        lemma_pcmp_expr_reverse(a[0], b[0]);
        lemma_pcmp_list_reverse(a.drop_first(), b.drop_first());
    }
}

/// Order-equal trees compare alike with every third tree.
pub proof fn lemma_pcmp_expr_congruent(a: ExprV, b: ExprV, c: ExprV)
    requires
        pcmp_expr(a, b) == Some(Cmp::Eq),
    ensures
        pcmp_expr(a, c) == pcmp_expr(b, c),
        pcmp_expr(c, a) == pcmp_expr(c, b),
    decreases a, c, 1int,
{
    lemma_pcmp_expr_reverse(a, c);
    lemma_pcmp_expr_reverse(b, c);
    if rank(a) == rank(c) && rank(b) == rank(c) {
        match (a, b, c) {
            (ExprV::Symbol(x), ExprV::Symbol(y), ExprV::Symbol(z)) => {
                lemma_pcmp_symbol_congruent(x, y, z);
            },
            (ExprV::Pauli(x), ExprV::Pauli(y), ExprV::Pauli(z)) => {
                lemma_cmp_indices_congruent(x, y, z);
            },
            (ExprV::Sum(x), ExprV::Sum(y), ExprV::Sum(z)) => {
                lemma_pcmp_list_congruent(x, y, z);
            },
            (ExprV::Product(x), ExprV::Product(y), ExprV::Product(z)) => {
                lemma_pcmp_list_congruent(x, y, z);
            },
            _ => {},
        }
    }
}

/// Order-equal lists compare alike with every third list.
proof fn lemma_pcmp_list_congruent(a: Seq<ExprV>, b: Seq<ExprV>, c: Seq<ExprV>)
    requires
        pcmp_list(a, b) == Some(Cmp::Eq),
    ensures
        pcmp_list(a, c) == pcmp_list(b, c),
        pcmp_list(c, a) == pcmp_list(c, b),
    decreases a, c, 0int,
{
    lemma_pcmp_list_reverse(a, c);
    lemma_pcmp_list_reverse(b, c);
    if a.len() > 0 && b.len() > 0 {
        if c.len() > 0 {
            lemma_pcmp_expr_congruent(a[0], b[0], c[0]);
            lemma_pcmp_list_congruent(a.drop_first(), b.drop_first(), c.drop_first());
        }
    }
}

/// Strict order of trees is transitive.
pub proof fn lemma_pcmp_expr_trans(a: ExprV, b: ExprV, c: ExprV)
    requires
        pcmp_expr(a, b) == Some(Cmp::Lt),
        pcmp_expr(b, c) == Some(Cmp::Lt),
    ensures
        pcmp_expr(a, c) == Some(Cmp::Lt),
    decreases a, c, 1int,
{
    if rank(a) == rank(b) && rank(b) == rank(c) {
        match (a, b, c) {
            (ExprV::Symbol(x), ExprV::Symbol(y), ExprV::Symbol(z)) => {
                lemma_pcmp_symbol_trans(x, y, z);
            },
            (ExprV::Pauli(x), ExprV::Pauli(y), ExprV::Pauli(z)) => {
                lemma_cmp_indices_trans(x, y, z);
            },
            (ExprV::Sum(x), ExprV::Sum(y), ExprV::Sum(z)) => {
                lemma_pcmp_list_trans(x, y, z);
            },
            (ExprV::Product(x), ExprV::Product(y), ExprV::Product(z)) => {
                lemma_pcmp_list_trans(x, y, z);
            },
            _ => {},
        }
    }
}

/// Strict order of lists is transitive.
proof fn lemma_pcmp_list_trans(a: Seq<ExprV>, b: Seq<ExprV>, c: Seq<ExprV>)
    requires
        pcmp_list(a, b) == Some(Cmp::Lt),
        pcmp_list(b, c) == Some(Cmp::Lt),
    ensures
        pcmp_list(a, c) == Some(Cmp::Lt),
    decreases a, c, 0int,
{
    if a.len() > 0 && b.len() > 0 && c.len() > 0 {
        let ab = pcmp_expr(a[0], b[0]);
        let bc = pcmp_expr(b[0], c[0]);
        if ab == Some(Cmp::Eq) && bc == Some(Cmp::Eq) {
            lemma_pcmp_expr_congruent(a[0], b[0], c[0]);
            lemma_pcmp_list_trans(a.drop_first(), b.drop_first(), c.drop_first());
        } else if ab == Some(Cmp::Eq) {
            lemma_pcmp_expr_congruent(a[0], b[0], c[0]);
        } else if bc == Some(Cmp::Eq) {
            lemma_pcmp_expr_congruent(b[0], c[0], a[0]);
            lemma_pcmp_expr_reverse(a[0], b[0]);
            lemma_pcmp_expr_reverse(b[0], a[0]);
            lemma_pcmp_expr_reverse(c[0], a[0]);
        } else {
            lemma_pcmp_expr_trans(a[0], b[0], c[0]);
        }
    }
}

/// NaN-free trees are always comparable.
pub proof fn lemma_pcmp_some(a: ExprV, b: ExprV)
    requires
        crate::expr::nan_free(a),
        crate::expr::nan_free(b),
    ensures
        pcmp_expr(a, b) is Some,
    decreases a, b, 1int,
{
    broadcast use crate::expr::lemma_nan_free_list;

    if rank(a) == rank(b) {
        match (a, b) {
            (ExprV::Sum(x), ExprV::Sum(y)) => {
                lemma_pcmp_list_some(x, y);
            },
            (ExprV::Product(x), ExprV::Product(y)) => {
                lemma_pcmp_list_some(x, y);
            },
            _ => {},
        }
    }
}

/// Lists of NaN-free trees are always comparable.
proof fn lemma_pcmp_list_some(a: Seq<ExprV>, b: Seq<ExprV>)
    requires
        crate::expr::nan_free_list(a),
        crate::expr::nan_free_list(b),
    ensures
        pcmp_list(a, b) is Some,
    decreases a, b, 0int,
{
    broadcast use crate::expr::lemma_nan_free_list;

    if a.len() > 0 && b.len() > 0 {
        lemma_pcmp_some(a[0], b[0]);
        lemma_pcmp_list_some(a.drop_first(), b.drop_first());
    }
}

/// Every tree is order-equal to itself.
pub proof fn lemma_cmp_eff_refl(a: ExprV)
    ensures
        cmp_eff(a, a) == Cmp::Eq,
{
    lemma_pcmp_expr_reverse(a, a);
}

} // verus!
