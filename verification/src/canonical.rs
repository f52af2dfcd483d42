//! Canonicalization of structurally identical expressions.
//!
//! Provides a single deterministic output that is identical for all
//! structurally equivalent expressions: nesting of same-kind sums and
//! products is flattened away, and the terms of every sum are sorted in
//! the canonical order. Importantly, it does not provide a single output
//! for all ALGEBRAICALLY equivalent expressions, and it never reorders
//! the factors of a product.
use vstd::prelude::*;

verus! {

use std::sync::Arc;
use crate::expr::Expr;
use crate::expr::ExprV;
use crate::expr::arc_clone_expr;
use crate::expr::expr_list_size;
use crate::expr::expr_list_view;
use crate::expr::expr_size;
use crate::expr::expr_view;
use crate::expr::lemma_expr_list_size_add;
use crate::expr::lemma_expr_list_size_elem;
use crate::expr::lemma_expr_list_view;
use crate::expr::nan_free;
use crate::expr::nan_free_list;
use crate::expr::lemma_nan_free_list;
use crate::order::Cmp;
use crate::order::cmp_eff;
use crate::order::lemma_cmp_eff_refl;
use crate::order::lemma_pcmp_expr_congruent;
use crate::order::lemma_pcmp_expr_reverse;
use crate::order::lemma_pcmp_expr_trans;
use crate::order::lemma_pcmp_some;
use crate::order::pcmp_expr;
use vstd::multiset::Multiset;

/// What a flattened term contributes to the term list of its sum:
/// a nested sum is spliced in place, anything else stands alone.
pub open spec fn sum_block(f: ExprV) -> Seq<ExprV> {
    match f {
        ExprV::Sum(inner) => inner,
        _ => seq![f],
    }
}

/// What a flattened factor contributes to the factor list of its product.
pub open spec fn prod_block(f: ExprV) -> Seq<ExprV> {
    match f {
        ExprV::Product(inner) => inner,
        _ => seq![f],
    }
}

/// The flatten pass: for a sum, each term is flattened and nested sums
/// are spliced in place; likewise for products. Leaves pass through
/// unchanged, and no semantic merging happens.
pub open spec fn flatten_spec(e: ExprV) -> ExprV
    decreases e, 1int,
{
    match e {
        ExprV::Sum(terms) => ExprV::Sum(flat_sum_list(terms)),
        ExprV::Product(factors) => ExprV::Product(flat_prod_list(factors)),
        _ => e,
    }
}

/// The flattened term list of a sum.
pub open spec fn flat_sum_list(s: Seq<ExprV>) -> Seq<ExprV>
    decreases s, 0int,
{
    if s.len() == 0 {
        Seq::empty()
    } else {
        sum_block(flatten_spec(s[0])) + flat_sum_list(s.drop_first())
    }
}

/// The flattened factor list of a product.
pub open spec fn flat_prod_list(s: Seq<ExprV>) -> Seq<ExprV>
    decreases s, 0int,
{
    if s.len() == 0 {
        Seq::empty()
    } else {
        prod_block(flatten_spec(s[0])) + flat_prod_list(s.drop_first())
    }
}

/// No element of the list is a sum.
pub open spec fn no_sum(s: Seq<ExprV>) -> bool {
    forall|i: int| 0 <= i < s.len() ==> !(s[i] is Sum)
}

/// No element of the list is a product.
pub open spec fn no_product(s: Seq<ExprV>) -> bool {
    forall|i: int| 0 <= i < s.len() ==> !(s[i] is Product)
}

/// The tree holds no sum directly under a sum and no product directly
/// under a product: the shape the flatten pass establishes.
pub open spec fn is_flat(e: ExprV) -> bool
    decreases e, 1int,
{
    match e {
        ExprV::Sum(terms) => no_sum(terms) && all_flat(terms),
        ExprV::Product(factors) => no_product(factors) && all_flat(factors),
        _ => true,
    }
}

/// Every tree in the list is flat.
pub open spec fn all_flat(s: Seq<ExprV>) -> bool
    decreases s, 0int,
{
    if s.len() == 0 {
        true
    } else {
        is_flat(s[0]) && all_flat(s.drop_first())
    }
}

/// The elementwise reading of `all_flat`.
pub broadcast proof fn lemma_all_flat(s: Seq<ExprV>)
    ensures
        #![trigger all_flat(s)]
        all_flat(s) <==> (forall|i: int| 0 <= i < s.len() ==> is_flat(s[i])),
    decreases s.len(),
{
    if s.len() > 0 {
        lemma_all_flat(s.drop_first());
        if all_flat(s) {
            assert forall|i: int| 0 <= i < s.len() implies is_flat(s[i]) by {
                if i > 0 {
                    assert(s.drop_first()[i - 1] == s[i]);
                }
            }
        }
        if forall|i: int| 0 <= i < s.len() ==> is_flat(s[i]) {
            assert forall|j: int| 0 <= j < s.drop_first().len() implies is_flat(
                s.drop_first()[j],
            ) by {
                assert(s.drop_first()[j] == s[j + 1]);
            }
        }
    }
}

/// Block lists concatenate over concatenated inputs.
pub proof fn lemma_flat_sum_list_add(a: Seq<ExprV>, b: Seq<ExprV>)
    ensures
        flat_sum_list(a + b) == flat_sum_list(a) + flat_sum_list(b),
    decreases a.len(),
{
    if a.len() == 0 {
        assert(a + b =~= b);
        assert(flat_sum_list(a) + flat_sum_list(b) =~= flat_sum_list(b));
    } else {
        lemma_flat_sum_list_add(a.drop_first(), b);
        assert((a + b).drop_first() =~= a.drop_first() + b);
        assert((a + b)[0] == a[0]);
        assert(sum_block(flatten_spec(a[0])) + (flat_sum_list(a.drop_first()) + flat_sum_list(b))
            =~= (sum_block(flatten_spec(a[0])) + flat_sum_list(a.drop_first())) + flat_sum_list(
            b,
        ));
    }
}

/// Block lists concatenate over concatenated inputs.
pub proof fn lemma_flat_prod_list_add(a: Seq<ExprV>, b: Seq<ExprV>)
    ensures
        flat_prod_list(a + b) == flat_prod_list(a) + flat_prod_list(b),
    decreases a.len(),
{
    if a.len() == 0 {
        assert(a + b =~= b);
        assert(flat_prod_list(a) + flat_prod_list(b) =~= flat_prod_list(b));
    } else {
        lemma_flat_prod_list_add(a.drop_first(), b);
        assert((a + b).drop_first() =~= a.drop_first() + b);
        assert((a + b)[0] == a[0]);
        assert(prod_block(flatten_spec(a[0])) + (flat_prod_list(a.drop_first()) + flat_prod_list(
            b,
        )) =~= (prod_block(flatten_spec(a[0])) + flat_prod_list(a.drop_first())) + flat_prod_list(
            b,
        ));
    }
}

/// Appending a term appends its block.
proof fn lemma_flat_sum_snoc(s: Seq<ExprV>, x: ExprV)
    ensures
        flat_sum_list(s.push(x)) == flat_sum_list(s) + sum_block(flatten_spec(x)),
{
    let single = seq![x];
    assert(single.len() == 1);
    assert(single[0] == x);
    assert(single.drop_first() =~= Seq::<ExprV>::empty());
    assert(flat_sum_list(single) == sum_block(flatten_spec(x)) + flat_sum_list(
        Seq::<ExprV>::empty(),
    ));
    assert(sum_block(flatten_spec(x)) + Seq::<ExprV>::empty() =~= sum_block(flatten_spec(x)));
    assert(s.push(x) =~= s + single);
    lemma_flat_sum_list_add(s, single);
}

/// Appending a factor appends its block.
proof fn lemma_flat_prod_snoc(s: Seq<ExprV>, x: ExprV)
    ensures
        flat_prod_list(s.push(x)) == flat_prod_list(s) + prod_block(flatten_spec(x)),
{
    let single = seq![x];
    assert(single.len() == 1);
    assert(single[0] == x);
    assert(single.drop_first() =~= Seq::<ExprV>::empty());
    assert(flat_prod_list(single) == prod_block(flatten_spec(x)) + flat_prod_list(
        Seq::<ExprV>::empty(),
    ));
    assert(prod_block(flatten_spec(x)) + Seq::<ExprV>::empty() =~= prod_block(flatten_spec(x)));
    assert(s.push(x) =~= s + single);
    lemma_flat_prod_list_add(s, single);
}

/// Pushing a child pushes its model.
proof fn lemma_expr_list_view_push(s: Seq<Arc<Expr>>, a: Arc<Expr>)
    ensures
        expr_list_view(s.push(a)) == expr_list_view(s).push(expr_view(*a)),
{
    lemma_expr_list_view(s.push(a));
    lemma_expr_list_view(s);
    assert(expr_list_view(s.push(a)) =~= expr_list_view(s).push(expr_view(*a)));
}

/// The flatten pass returns a flat tree and never adds nodes.
pub proof fn lemma_flatten_is_flat(e: ExprV)
    ensures
        is_flat(flatten_spec(e)),
        expr_size(flatten_spec(e)) <= expr_size(e),
    decreases e, 1int,
{
    broadcast use lemma_all_flat;

    match e {
        ExprV::Sum(terms) => {
            lemma_flat_sum_list_props(terms);
        },
        ExprV::Product(factors) => {
            lemma_flat_prod_list_props(factors);
        },
        _ => {},
    }
}

/// The flattened term list of a sum is made of flat non-sum trees and
/// counts no more nodes than the original terms.
pub proof fn lemma_flat_sum_list_props(s: Seq<ExprV>)
    ensures
        no_sum(flat_sum_list(s)),
        all_flat(flat_sum_list(s)),
        expr_list_size(flat_sum_list(s)) <= expr_list_size(s),
    decreases s, 0int,
{
    broadcast use lemma_all_flat;

    if s.len() > 0 {
        lemma_flatten_is_flat(s[0]);
        lemma_flat_sum_list_props(s.drop_first());
        let f = flatten_spec(s[0]);
        let block = sum_block(f);
        let rest = flat_sum_list(s.drop_first());
        lemma_expr_list_size_add(block, rest);
        assert(flat_sum_list(s) == block + rest);
        assert(expr_list_size(s) == expr_size(s[0]) + expr_list_size(s.drop_first()));
        match f {
            ExprV::Sum(inner) => {
                assert(block == inner);
                assert(expr_size(f) == 1 + expr_list_size(inner));
                assert(no_sum(inner) && all_flat(inner));
            },
            _ => {
                assert(block == seq![f]);
                assert(block[0] == f);
                assert(block.drop_first() =~= Seq::<ExprV>::empty());
                assert(expr_list_size(block) == expr_size(f) + expr_list_size(
                    Seq::<ExprV>::empty(),
                ));
                assert(forall|i: int| 0 <= i < block.len() ==> !(block[i] is Sum) && is_flat(
                    block[i],
                ));
            },
        }
        assert(expr_list_size(block) <= expr_size(s[0]));
        assert forall|i: int| 0 <= i < (block + rest).len() implies !((block + rest)[i] is Sum)
            && is_flat((block + rest)[i]) by {
            if i < block.len() {
                assert((block + rest)[i] == block[i]);
            } else {
                assert((block + rest)[i] == rest[i - block.len()]);
            }
        }
    }
}

/// The flattened factor list of a product is made of flat non-product
/// trees and counts no more nodes than the original factors.
pub proof fn lemma_flat_prod_list_props(s: Seq<ExprV>)
    ensures
        no_product(flat_prod_list(s)),
        all_flat(flat_prod_list(s)),
        expr_list_size(flat_prod_list(s)) <= expr_list_size(s),
    decreases s, 0int,
{
    broadcast use lemma_all_flat;

    if s.len() > 0 {
        lemma_flatten_is_flat(s[0]);
        lemma_flat_prod_list_props(s.drop_first());
        let f = flatten_spec(s[0]);
        let block = prod_block(f);
        let rest = flat_prod_list(s.drop_first());
        lemma_expr_list_size_add(block, rest);
        assert(flat_prod_list(s) == block + rest);
        assert(expr_list_size(s) == expr_size(s[0]) + expr_list_size(s.drop_first()));
        match f {
            ExprV::Product(inner) => {
                assert(block == inner);
                assert(expr_size(f) == 1 + expr_list_size(inner));
                assert(no_product(inner) && all_flat(inner));
            },
            _ => {
                assert(block == seq![f]);
                assert(block[0] == f);
                assert(block.drop_first() =~= Seq::<ExprV>::empty());
                assert(expr_list_size(block) == expr_size(f) + expr_list_size(
                    Seq::<ExprV>::empty(),
                ));
                assert(forall|i: int| 0 <= i < block.len() ==> !(block[i] is Product) && is_flat(
                    block[i],
                ));
            },
        }
        assert(expr_list_size(block) <= expr_size(s[0]));
        assert forall|i: int| 0 <= i < (block + rest).len() implies !((block + rest)[i] is Product)
            && is_flat((block + rest)[i]) by {
            if i < block.len() {
                assert((block + rest)[i] == block[i]);
            } else {
                assert((block + rest)[i] == rest[i - block.len()]);
            }
        }
    }
}

/// Flattening a flat tree returns it unchanged.
pub proof fn lemma_flatten_of_flat(e: ExprV)
    requires
        is_flat(e),
    ensures
        flatten_spec(e) == e,
    decreases e, 1int,
{
    broadcast use lemma_all_flat;

    match e {
        ExprV::Sum(terms) => {
            lemma_flat_list_of_flat(terms);
            assert(flat_sum_list(terms) =~= terms);
        },
        ExprV::Product(factors) => {
            lemma_flat_list_of_flat(factors);
            assert(flat_prod_list(factors) =~= factors);
        },
        _ => {},
    }
}

/// On a list of flat trees with no nested sum or product to splice, both
/// block lists are the identity.
proof fn lemma_flat_list_of_flat(s: Seq<ExprV>)
    requires
        all_flat(s),
    ensures
        no_sum(s) ==> flat_sum_list(s) == s,
        no_product(s) ==> flat_prod_list(s) == s,
    decreases s, 0int,
{
    broadcast use lemma_all_flat;

    if s.len() > 0 {
        lemma_flatten_of_flat(s[0]);
        lemma_flat_list_of_flat(s.drop_first());
        if no_sum(s) {
            assert forall|j: int| 0 <= j < s.drop_first().len() implies !(s.drop_first()[j]
                is Sum) by {
                assert(s.drop_first()[j] == s[j + 1]);
            }
            assert(flat_sum_list(s) =~= seq![s[0]] + s.drop_first());
            assert(seq![s[0]] + s.drop_first() =~= s);
        }
        if no_product(s) {
            assert forall|j: int| 0 <= j < s.drop_first().len() implies !(s.drop_first()[j]
                is Product) by {
                assert(s.drop_first()[j] == s[j + 1]);
            }
            assert(flat_prod_list(s) =~= seq![s[0]] + s.drop_first());
            assert(seq![s[0]] + s.drop_first() =~= s);
        }
    }
}


impl Expr {
    /// Flatten the abstract syntax tree of an expression.
    /// Does not simplify algebra; it only removes redundant nesting
    /// introduced by repeated sum-of-sum or product-of-product
    /// construction.
    pub fn flatten(&self) -> (r: Arc<Expr>)
        ensures
            r@ == flatten_spec(self@),
        decreases expr_size(self@), 2int,
    {
        match self {
            Expr::Sum(summands) => {
                let ghost ts = expr_list_view(summands@);
                let mut output_terms: Vec<Arc<Expr>> = Vec::new();
                let n = summands.len();
                proof {
                    lemma_expr_list_view(summands@);
                    assert(ts.take(0) =~= Seq::<ExprV>::empty());
                    assert(expr_list_view(output_terms@) =~= flat_sum_list(ts.take(0)));
                }
                let mut i: usize = 0;
                while i < n
                    invariant
                        n == summands@.len(),
                        i <= n,
                        ts == expr_list_view(summands@),
                        ts.len() == n,
                        expr_view(*self) == ExprV::Sum(ts),
                        expr_list_view(output_terms@) == flat_sum_list(ts.take(i as int)),
                    decreases n - i,
                {
                    proof {
                        lemma_expr_list_view(summands@);
                        lemma_expr_list_size_elem(ts, i as int);
                        assert(expr_size(ts[i as int]) < expr_size(ExprV::Sum(ts)));
                    }
                    let flat_term = summands[i].flatten();
                    proof {
                        assert(ts.take(i + 1) =~= ts.take(i as int).push(ts[i as int]));
                        lemma_flat_sum_snoc(ts.take(i as int), ts[i as int]);
                    }
                    let ghost base = expr_list_view(output_terms@);
                    match &*flat_term {
                        Expr::Sum(inner_terms) => {
                            let ghost iv = expr_list_view(inner_terms@);
                            proof {
                                lemma_expr_list_view(inner_terms@);
                                assert(flat_term@ == ExprV::Sum(iv));
                                assert(sum_block(flatten_spec(ts[i as int])) == iv);
                                assert(base + iv.take(0) =~= base);
                            }
                            let m = inner_terms.len();
                            let mut j: usize = 0;
                            while j < m
                                invariant
                                    m == inner_terms@.len(),
                                    j <= m,
                                    iv == expr_list_view(inner_terms@),
                                    iv.len() == m,
                                    expr_list_view(output_terms@) == base + iv.take(j as int),
                                decreases m - j,
                            {
                                let cloned = arc_clone_expr(&inner_terms[j]);
                                proof {
                                    lemma_expr_list_view(inner_terms@);
                                    lemma_expr_list_view_push(output_terms@, cloned);
                                    assert(expr_view(*cloned) == iv[j as int]);
                                    assert(iv.take(j + 1) =~= iv.take(j as int).push(
                                        iv[j as int],
                                    ));
                                    assert((base + iv.take(j as int)).push(iv[j as int]) =~= base
                                        + iv.take(j + 1));
                                }
                                output_terms.push(cloned);
                                j = j + 1;
                            }
                            proof {
                                assert(iv.take(m as int) =~= iv);
                            }
                        },
                        _ => {
                            proof {
                                assert(!(flat_term@ is Sum));
                                assert(sum_block(flatten_spec(ts[i as int])) =~= seq![flat_term@]);
                                lemma_expr_list_view_push(output_terms@, flat_term);
                                assert(base.push(flat_term@) =~= base + seq![flat_term@]);
                            }
                            output_terms.push(flat_term);
                        },
                    }
                    i = i + 1;
                }
                proof {
                    assert(ts.take(n as int) =~= ts);
                }
                Expr::sum(output_terms)
            },
            Expr::Product(factors) => {
                let ghost fs = expr_list_view(factors@);
                let mut output_terms: Vec<Arc<Expr>> = Vec::new();
                let n = factors.len();
                proof {
                    lemma_expr_list_view(factors@);
                    assert(fs.take(0) =~= Seq::<ExprV>::empty());
                    assert(expr_list_view(output_terms@) =~= flat_prod_list(fs.take(0)));
                }
                let mut i: usize = 0;
                while i < n
                    invariant
                        n == factors@.len(),
                        i <= n,
                        fs == expr_list_view(factors@),
                        fs.len() == n,
                        expr_view(*self) == ExprV::Product(fs),
                        expr_list_view(output_terms@) == flat_prod_list(fs.take(i as int)),
                    decreases n - i,
                {
                    proof {
                        lemma_expr_list_view(factors@);
                        lemma_expr_list_size_elem(fs, i as int);
                        assert(expr_size(fs[i as int]) < expr_size(ExprV::Product(fs)));
                    }
                    let flat_term = factors[i].flatten();
                    proof {
                        assert(fs.take(i + 1) =~= fs.take(i as int).push(fs[i as int]));
                        lemma_flat_prod_snoc(fs.take(i as int), fs[i as int]);
                    }
                    let ghost base = expr_list_view(output_terms@);
                    match &*flat_term {
                        Expr::Product(inner_terms) => {
                            let ghost iv = expr_list_view(inner_terms@);
                            proof {
                                lemma_expr_list_view(inner_terms@);
                                assert(flat_term@ == ExprV::Product(iv));
                                assert(prod_block(flatten_spec(fs[i as int])) == iv);
                                assert(base + iv.take(0) =~= base);
                            }
                            let m = inner_terms.len();
                            let mut j: usize = 0;
                            while j < m
                                invariant
                                    m == inner_terms@.len(),
                                    j <= m,
                                    iv == expr_list_view(inner_terms@),
                                    iv.len() == m,
                                    expr_list_view(output_terms@) == base + iv.take(j as int),
                                decreases m - j,
                            {
                                let cloned = arc_clone_expr(&inner_terms[j]);
                                proof {
                                    lemma_expr_list_view(inner_terms@);
                                    lemma_expr_list_view_push(output_terms@, cloned);
                                    assert(expr_view(*cloned) == iv[j as int]);
                                    assert(iv.take(j + 1) =~= iv.take(j as int).push(
                                        iv[j as int],
                                    ));
                                    assert((base + iv.take(j as int)).push(iv[j as int]) =~= base
                                        + iv.take(j + 1));
                                }
                                output_terms.push(cloned);
                                j = j + 1;
                            }
                            proof {
                                assert(iv.take(m as int) =~= iv);
                            }
                        },
                        _ => {
                            proof {
                                assert(!(flat_term@ is Product));
                                assert(prod_block(flatten_spec(fs[i as int])) =~= seq![
                                    flat_term@,
                                ]);
                                lemma_expr_list_view_push(output_terms@, flat_term);
                                assert(base.push(flat_term@) =~= base + seq![flat_term@]);
                            }
                            output_terms.push(flat_term);
                        },
                    }
                    i = i + 1;
                }
                proof {
                    assert(fs.take(n as int) =~= fs);
                }
                Expr::product(output_terms)
            },
            Expr::Scalar(bits) => Arc::new(Expr::Scalar(*bits)),
            Expr::Symbol(sym) => Arc::new(Expr::Symbol(sym.duplicate())),
            Expr::Pauli(ps) => Arc::new(Expr::Pauli(ps.duplicate())),
        }
    }
}

/// Insert an expression into a sorted term list after every term the
/// comparator does not place strictly above it: a stable insertion.
pub open spec fn insert_sorted(x: ExprV, s: Seq<ExprV>) -> Seq<ExprV>
    decreases s.len(),
{
    if s.len() == 0 {
        seq![x]
    } else if cmp_eff(s[0], x) != Cmp::Gt {
        seq![s[0]] + insert_sorted(x, s.drop_first())
    } else {
        seq![x] + s
    }
}

/// Stable insertion sort of a term list in the canonical order.
pub open spec fn sort_spec(s: Seq<ExprV>) -> Seq<ExprV>
    decreases s.len(),
{
    if s.len() == 0 {
        Seq::empty()
    } else {
        insert_sorted(s.last(), sort_spec(s.drop_last()))
    }
}

/// The canonical form of an already flat tree: every sum's terms are
/// recursively canonicalized and then sorted; a product's factors are
/// recursively canonicalized and never reordered; leaves pass through
/// unchanged.
pub open spec fn canon_flat(f: ExprV) -> ExprV
    decreases f, 1int,
{
    match f {
        ExprV::Sum(terms) => ExprV::Sum(sort_spec(canon_list(terms))),
        ExprV::Product(factors) => ExprV::Product(canon_list(factors)),
        _ => f,
    }
}

/// Recursive canonicalization of each tree in a list, in place.
pub open spec fn canon_list(s: Seq<ExprV>) -> Seq<ExprV>
    decreases s, 0int,
{
    if s.len() == 0 {
        Seq::empty()
    } else {
        seq![canon_flat(s[0])] + canon_list(s.drop_first())
    }
}

/// The canonicalization transform: flatten, then canonicalize the flat
/// tree. The result is the deterministic representative of the input's
/// structural-equivalence class under commutativity of sums and
/// associativity of sums and products.
pub open spec fn canon_spec(e: ExprV) -> ExprV {
    canon_flat(flatten_spec(e))
}

/// The canonicalized list has one entry per tree, the tree's canonical
/// form.
pub broadcast proof fn lemma_canon_list(s: Seq<ExprV>)
    ensures
        #![trigger canon_list(s)]
        canon_list(s).len() == s.len(),
        forall|i: int| 0 <= i < s.len() ==> canon_list(s)[i] == canon_flat(s[i]),
    decreases s.len(),
{
    if s.len() > 0 {
        lemma_canon_list(s.drop_first());
    }
}

/// Canonicalizing one more tree appends its canonical form.
proof fn lemma_canon_list_snoc(s: Seq<ExprV>, x: ExprV)
    ensures
        canon_list(s.push(x)) == canon_list(s).push(canon_flat(x)),
{
    lemma_canon_list(s.push(x));
    lemma_canon_list(s);
    assert(canon_list(s.push(x)) =~= canon_list(s).push(canon_flat(x)));
}

/// Where the scan in `sort_terms` stops, the spec-level insertion places
/// the element.
proof fn lemma_insert_sorted_at(s: Seq<ExprV>, x: ExprV, j: int)
    requires
        0 <= j <= s.len(),
        forall|t: int| 0 <= t < j ==> cmp_eff(s[t], x) != Cmp::Gt,
        j < s.len() ==> cmp_eff(s[j], x) == Cmp::Gt,
    ensures
        insert_sorted(x, s) == s.insert(j, x),
    decreases j,
{
    if j == 0 {
        if s.len() == 0 {
            assert(insert_sorted(x, s) =~= s.insert(0, x));
        } else {
            assert(insert_sorted(x, s) =~= s.insert(0, x));
        }
    } else {
        lemma_insert_sorted_at(s.drop_first(), x, j - 1);
        assert(insert_sorted(x, s) == seq![s[0]] + insert_sorted(x, s.drop_first()));
        assert(seq![s[0]] + s.drop_first().insert(j - 1, x) =~= s.insert(j, x));
    }
}

/// Inserting a child inserts its model.
proof fn lemma_expr_list_view_insert(s: Seq<Arc<Expr>>, j: int, a: Arc<Expr>)
    requires
        0 <= j <= s.len(),
    ensures
        expr_list_view(s.insert(j, a)) == expr_list_view(s).insert(j, expr_view(*a)),
{
    lemma_expr_list_view(s.insert(j, a));
    lemma_expr_list_view(s);
    assert(expr_list_view(s.insert(j, a)) =~= expr_list_view(s).insert(j, expr_view(*a)));
}

/// The position scan of the insertion sort: the first index whose term
/// the comparator places strictly above `x`.
fn find_insert_pos(sorted: &Vec<Arc<Expr>>, x: &Expr) -> (j: usize)
    ensures
        j <= sorted@.len(),
        forall|t: int| 0 <= t < j ==> cmp_eff(expr_list_view(sorted@)[t], x@) != Cmp::Gt,
        j < sorted@.len() ==> cmp_eff(expr_list_view(sorted@)[j as int], x@) == Cmp::Gt,
{
    let n = sorted.len();
    let mut j: usize = 0;
    while j < n
        invariant
            n == sorted@.len(),
            j <= n,
            forall|t: int| 0 <= t < j ==> cmp_eff(expr_list_view(sorted@)[t], x@) != Cmp::Gt,
        decreases n - j,
    {
        let c = crate::order::cmp_eff_exec(&sorted[j], x);
        proof {
            lemma_expr_list_view(sorted@);
        }
        if matches!(c, Cmp::Gt) {
            return j;
        }
        j = j + 1;
    }
    n
}

/// Sort a term list with the canonical comparator, stably.
fn sort_terms(terms: Vec<Arc<Expr>>) -> (r: Vec<Arc<Expr>>)
    ensures
        expr_list_view(r@) == sort_spec(expr_list_view(terms@)),
{
    let ghost tv = expr_list_view(terms@);
    let mut sorted: Vec<Arc<Expr>> = Vec::new();
    let n = terms.len();
    proof {
        lemma_expr_list_view(terms@);
        assert(tv.take(0) =~= Seq::<ExprV>::empty());
        assert(expr_list_view(sorted@) =~= sort_spec(tv.take(0)));
    }
    let mut i: usize = 0;
    while i < n
        invariant
            n == terms@.len(),
            i <= n,
            tv == expr_list_view(terms@),
            tv.len() == n,
            expr_list_view(sorted@) == sort_spec(tv.take(i as int)),
        decreases n - i,
    {
        let x = arc_clone_expr(&terms[i]);
        let j = find_insert_pos(&sorted, &x);
        proof {
            lemma_expr_list_view(terms@);
            lemma_expr_list_view(sorted@);
            assert(x@ == tv[i as int]);
            lemma_insert_sorted_at(expr_list_view(sorted@), x@, j as int);
            lemma_expr_list_view_insert(sorted@, j as int, x);
            assert(tv.take(i + 1).drop_last() =~= tv.take(i as int));
            assert(tv.take(i + 1).last() == tv[i as int]);
        }
        sorted.insert(j, x);
        i = i + 1;
    }
    proof {
        assert(tv.take(n as int) =~= tv);
    }
    sorted
}

/// Wrapper showing that the internal expression is canonicalized.
/// Functions may require arguments of canonical form to guarantee that
/// they work as intended: no public constructor accepts an arbitrary
/// expression, so a value of this type can only come out of
/// [`Expr::canonical`].
#[derive(Clone, Debug, PartialEq)]
pub struct Canonicalized<T> {
    inner: T,
}

impl View for Canonicalized<Expr> {
    type V = ExprV;

    closed spec fn view(&self) -> ExprV {
        self.inner@
    }
}

impl Canonicalized<Expr> {
    /// Read-only access to the canonical expression.
    pub fn get(&self) -> (r: &Expr)
        ensures
            r@ == self@,
    {
        &self.inner
    }

    /// Only the canonicalization procedure constructs the wrapper.
    fn new(expr: Expr) -> (r: Self)
        ensures
            r@ == expr@,
    {
        Canonicalized { inner: expr }
    }
}

impl Expr {
    /// Flatten and sort the tree.
    fn canonical_inner(&self) -> (r: Expr)
        ensures
            r@ == canon_spec(self@),
        decreases expr_size(self@), 3int,
    {
        let flat = self.flatten();
        proof {
            lemma_flatten_is_flat(self@);
        }
        match &*flat {
            Expr::Sum(terms) => {
                let ghost lv = expr_list_view(terms@);
                proof {
                    lemma_expr_list_view(terms@);
                    assert(flat@ == ExprV::Sum(lv));
                    assert(no_sum(lv) && all_flat(lv));
                    assert(expr_size(flat@) == 1 + expr_list_size(lv));
                    assert(canon_list(lv.take(0)) =~= Seq::<ExprV>::empty());
                    assert(expr_list_view(Seq::<Arc<Expr>>::empty()) =~= Seq::<ExprV>::empty());
                }
                let mut out: Vec<Arc<Expr>> = Vec::new();
                let n = terms.len();
                proof {
                    assert(expr_list_view(out@) =~= canon_list(lv.take(0)));
                }
                let mut i: usize = 0;
                while i < n
                    invariant
                        n == terms@.len(),
                        i <= n,
                        lv == expr_list_view(terms@),
                        lv.len() == n,
                        all_flat(lv),
                        expr_list_size(lv) < expr_size(self@),
                        expr_list_view(out@) == canon_list(lv.take(i as int)),
                    decreases n - i,
                {
                    proof {
                        lemma_expr_list_view(terms@);
                        lemma_expr_list_size_elem(lv, i as int);
                        lemma_all_flat(lv);
                        lemma_flatten_of_flat(lv[i as int]);
                    }
                    let tc = Arc::new(terms[i].canonical_inner());
                    proof {
                        assert(tc@ == canon_flat(lv[i as int]));
                        lemma_canon_list_snoc(lv.take(i as int), lv[i as int]);
                        assert(lv.take(i + 1) =~= lv.take(i as int).push(lv[i as int]));
                        lemma_expr_list_view_push(out@, tc);
                    }
                    out.push(tc);
                    i = i + 1;
                }
                proof {
                    assert(lv.take(n as int) =~= lv);
                }
                let sorted_terms = sort_terms(out);
                Expr::Sum(sorted_terms)
            },
            Expr::Product(factors) => {
                let ghost lv = expr_list_view(factors@);
                proof {
                    lemma_expr_list_view(factors@);
                    assert(flat@ == ExprV::Product(lv));
                    assert(no_product(lv) && all_flat(lv));
                    assert(expr_size(flat@) == 1 + expr_list_size(lv));
                    assert(canon_list(lv.take(0)) =~= Seq::<ExprV>::empty());
                }
                let mut out: Vec<Arc<Expr>> = Vec::new();
                let n = factors.len();
                proof {
                    assert(expr_list_view(out@) =~= canon_list(lv.take(0)));
                }
                let mut i: usize = 0;
                while i < n
                    invariant
                        n == factors@.len(),
                        i <= n,
                        lv == expr_list_view(factors@),
                        lv.len() == n,
                        all_flat(lv),
                        expr_list_size(lv) < expr_size(self@),
                        expr_list_view(out@) == canon_list(lv.take(i as int)),
                    decreases n - i,
                {
                    proof {
                        lemma_expr_list_view(factors@);
                        lemma_expr_list_size_elem(lv, i as int);
                        lemma_all_flat(lv);
                        lemma_flatten_of_flat(lv[i as int]);
                    }
                    let tc = Arc::new(factors[i].canonical_inner());
                    proof {
                        assert(tc@ == canon_flat(lv[i as int]));
                        lemma_canon_list_snoc(lv.take(i as int), lv[i as int]);
                        assert(lv.take(i + 1) =~= lv.take(i as int).push(lv[i as int]));
                        lemma_expr_list_view_push(out@, tc);
                    }
                    out.push(tc);
                    i = i + 1;
                }
                proof {
                    assert(lv.take(n as int) =~= lv);
                }
                Expr::Product(out)
            },
            Expr::Scalar(bits) => Expr::Scalar(*bits),
            Expr::Symbol(sym) => Expr::Symbol(sym.duplicate()),
            Expr::Pauli(ps) => Expr::Pauli(ps.duplicate()),
        }
    }

    /// Canonicalize the expression: flatten it, canonicalize every child,
    /// and sort each sum's terms in the canonical order, leaving product
    /// factors in place. The wrapper marks that the value has passed
    /// through the procedure.
    pub fn canonical(&self) -> (r: Arc<Canonicalized<Expr>>)
        ensures
            r@ == canon_spec(self@),
    {
        Arc::new(Canonicalized::new(self.canonical_inner()))
    }
}

/// Each term is placed no higher than its right neighbour: what the sort
/// guarantees of its output.
pub open spec fn sorted_eff(s: Seq<ExprV>) -> bool {
    forall|i: int, j: int|
        #![trigger cmp_eff(s[i], s[j])]
        0 <= i && j == i + 1 && j < s.len() ==> cmp_eff(s[i], s[j]) != Cmp::Gt
}

/// On this collection of terms the comparator's ties are genuine: terms
/// it places as order-equal are the same term. Pauli strings with equal
/// indices but different operators, and NaN scalars, break this.
pub open spec fn discriminating(m: Multiset<ExprV>) -> bool {
    forall|a: ExprV, b: ExprV|
        #![trigger m.count(a), m.count(b)]
        m.contains(a) && m.contains(b) && cmp_eff(a, b) == Cmp::Eq ==> a == b
}

/// Insertion keeps the list sorted and adds exactly the new term.
proof fn lemma_insert_sorted_props(x: ExprV, s: Seq<ExprV>)
    requires
        sorted_eff(s),
    ensures
        sorted_eff(insert_sorted(x, s)),
        insert_sorted(x, s).to_multiset() == s.to_multiset().insert(x),
        insert_sorted(x, s).len() == s.len() + 1,
    decreases s.len(),
{
    broadcast use vstd::seq_lib::group_to_multiset_ensures;

    if s.len() == 0 {
        assert(insert_sorted(x, s) =~= Seq::<ExprV>::empty().push(x));
        assert(insert_sorted(x, s).to_multiset() =~= s.to_multiset().insert(x));
    } else if cmp_eff(s[0], x) != Cmp::Gt {
        assert(sorted_eff(s.drop_first())) by {
            assert forall|i: int, j: int|
                #![trigger cmp_eff(s.drop_first()[i], s.drop_first()[j])]
                0 <= i && j == i + 1 && j < s.drop_first().len() implies cmp_eff(
                s.drop_first()[i],
                s.drop_first()[j],
            ) != Cmp::Gt by {
                assert(s.drop_first()[i] == s[i + 1]);
                assert(s.drop_first()[j] == s[i + 2]);
                assert(cmp_eff(s[i + 1], s[i + 2]) != Cmp::Gt);
            }
        }
        lemma_insert_sorted_props(x, s.drop_first());
        let rest = insert_sorted(x, s.drop_first());
        let r = seq![s[0]] + rest;
        assert(insert_sorted(x, s) == r);
        assert forall|i: int, j: int|
            #![trigger cmp_eff(r[i], r[j])]
            0 <= i && j == i + 1 && j < r.len() implies cmp_eff(r[i], r[j]) != Cmp::Gt by {
            if i == 0 {
                assert(r[0] == s[0]);
                assert(r[1] == rest[0]);
                if s.drop_first().len() == 0 {
                    assert(rest[0] == x);
                } else if cmp_eff(s.drop_first()[0], x) != Cmp::Gt {
                    assert(rest[0] == s.drop_first()[0]);
                    assert(s.drop_first()[0] == s[1]);
                    assert(cmp_eff(s[0], s[1]) != Cmp::Gt);
                } else {
                    assert(rest[0] == x);
                }
            } else {
                assert(r[i] == rest[i - 1]);
                assert(r[j] == rest[i]);
                assert(cmp_eff(rest[i - 1], rest[i]) != Cmp::Gt);
            }
        }
        assert(r.to_multiset() == s.to_multiset().insert(x)) by {
            vstd::seq_lib::lemma_multiset_commutative(seq![s[0]], rest);
            vstd::seq_lib::lemma_multiset_commutative(seq![s[0]], s.drop_first());
            assert(seq![s[0]] + s.drop_first() =~= s);
            assert(r.to_multiset() =~= s.to_multiset().insert(x));
        }
    } else {
        let r = seq![x] + s;
        assert(insert_sorted(x, s) == r);
        lemma_pcmp_expr_reverse(s[0], x);
        assert(cmp_eff(x, s[0]) != Cmp::Gt);
        assert forall|i: int, j: int|
            #![trigger cmp_eff(r[i], r[j])]
            0 <= i && j == i + 1 && j < r.len() implies cmp_eff(r[i], r[j]) != Cmp::Gt by {
            if i == 0 {
                assert(r[0] == x);
                assert(r[1] == s[0]);
            } else {
                assert(r[i] == s[i - 1]);
                assert(r[j] == s[i]);
                assert(cmp_eff(s[i - 1], s[i]) != Cmp::Gt);
            }
        }
        vstd::seq_lib::lemma_multiset_commutative(seq![x], s);
        assert(seq![x].to_multiset() =~= Multiset::empty().insert(x));
        assert(r.to_multiset() =~= s.to_multiset().insert(x));
    }
}

/// The sort returns a sorted permutation of its input.
pub proof fn lemma_sort_spec_props(s: Seq<ExprV>)
    ensures
        sorted_eff(sort_spec(s)),
        sort_spec(s).to_multiset() == s.to_multiset(),
        sort_spec(s).len() == s.len(),
    decreases s.len(),
{
    broadcast use vstd::seq_lib::group_to_multiset_ensures;

    if s.len() == 0 {
    } else {
        lemma_sort_spec_props(s.drop_last());
        lemma_insert_sorted_props(s.last(), sort_spec(s.drop_last()));
        assert(s.drop_last().push(s.last()) =~= s);
    }
}

/// In a sorted list over a discriminating collection the order reaches
/// across any distance, not only between neighbours.
proof fn lemma_le_chain(s: Seq<ExprV>, i: int, j: int)
    requires
        sorted_eff(s),
        discriminating(s.to_multiset()),
        0 <= i <= j < s.len(),
    ensures
        cmp_eff(s[i], s[j]) != Cmp::Gt,
    decreases j - i,
{
    broadcast use vstd::seq_lib::group_to_multiset_ensures;

    if i == j {
        lemma_cmp_eff_refl(s[i]);
    } else {
        lemma_le_chain(s, i, j - 1);
        let u = s[i];
        let v = s[j - 1];
        let w = s[j];
        assert(s.contains(u) && s.contains(v) && s.contains(w));
        assert(s.to_multiset().contains(u) && s.to_multiset().contains(v)
            && s.to_multiset().contains(w));
        assert(cmp_eff(s[j - 1], s[j]) != Cmp::Gt);
        if cmp_eff(u, v) == Cmp::Eq {
            assert(u == v);
        } else if cmp_eff(v, w) == Cmp::Eq {
            assert(v == w);
        } else {
            assert(pcmp_expr(u, v) == Some(Cmp::Lt));
            assert(pcmp_expr(v, w) == Some(Cmp::Lt));
            lemma_pcmp_expr_trans(u, v, w);
        }
    }
}

/// In a sorted list of NaN-free terms the order likewise reaches across
/// any distance.
proof fn lemma_le_chain_nan_free(s: Seq<ExprV>, i: int, j: int)
    requires
        sorted_eff(s),
        nan_free_list(s),
        0 <= i <= j < s.len(),
    ensures
        cmp_eff(s[i], s[j]) != Cmp::Gt,
    decreases j - i,
{
    broadcast use lemma_nan_free_list;

    if i == j {
        lemma_cmp_eff_refl(s[i]);
    } else {
        lemma_le_chain_nan_free(s, i, j - 1);
        let u = s[i];
        let v = s[j - 1];
        let w = s[j];
        lemma_pcmp_some(u, v);
        lemma_pcmp_some(v, w);
        lemma_pcmp_some(u, w);
        assert(cmp_eff(s[j - 1], s[j]) != Cmp::Gt);
        if pcmp_expr(u, v) == Some(Cmp::Eq) {
            lemma_pcmp_expr_congruent(u, v, w);
        } else if pcmp_expr(v, w) == Some(Cmp::Eq) {
            lemma_pcmp_expr_congruent(v, w, u);
            lemma_pcmp_expr_reverse(u, v);
            lemma_pcmp_expr_reverse(v, w);
            lemma_pcmp_expr_reverse(u, w);
        } else {
            lemma_pcmp_expr_trans(u, v, w);
        }
    }
}

/// Two sorted lists of the same discriminating collection of terms are
/// the same list: sorting is canonical there.
pub proof fn lemma_sorted_unique(s: Seq<ExprV>, t: Seq<ExprV>)
    requires
        sorted_eff(s),
        sorted_eff(t),
        s.to_multiset() == t.to_multiset(),
        discriminating(s.to_multiset()),
    ensures
        s == t,
    decreases s.len(),
{
    broadcast use vstd::seq_lib::group_to_multiset_ensures;

    if s.len() == 0 {
        assert(s.len() == s.to_multiset().len());
        assert(t.len() == t.to_multiset().len());
        assert(s =~= t);
    } else {
        assert(s.len() == s.to_multiset().len());
        assert(t.len() == t.to_multiset().len());
        assert(t.len() == s.len());
        assert(s.contains(s[0]));
        assert(s.to_multiset().contains(s[0]));
        assert(t.to_multiset().contains(s[0]));
        assert(t.contains(s[0]));
        let k = choose|k: int| 0 <= k < t.len() && t[k] == s[0];
        lemma_le_chain(t, 0, k);
        assert(cmp_eff(t[0], s[0]) != Cmp::Gt);
        assert(t.contains(t[0]));
        assert(t.to_multiset().contains(t[0]));
        assert(s.to_multiset().contains(t[0]));
        assert(s.contains(t[0]));
        let k2 = choose|k2: int| 0 <= k2 < s.len() && s[k2] == t[0];
        lemma_le_chain(s, 0, k2);
        assert(cmp_eff(s[0], t[0]) != Cmp::Gt);
        lemma_pcmp_expr_reverse(s[0], t[0]);
        assert(cmp_eff(s[0], t[0]) == Cmp::Eq);
        assert(s[0] == t[0]);
        let s1 = s.drop_first();
        let t1 = t.drop_first();
        assert(s.remove(0) =~= s1);
        assert(t.remove(0) =~= t1);
        assert(s1.to_multiset() == s.to_multiset().remove(s[0]));
        assert(t1.to_multiset() == t.to_multiset().remove(t[0]));
        assert(s1.to_multiset() == t1.to_multiset());
        assert(sorted_eff(s1)) by {
            assert forall|i: int, j: int|
                #![trigger cmp_eff(s1[i], s1[j])]
                0 <= i && j == i + 1 && j < s1.len() implies cmp_eff(s1[i], s1[j]) != Cmp::Gt by {
                assert(s1[i] == s[i + 1]);
                assert(s1[j] == s[i + 2]);
                assert(cmp_eff(s[i + 1], s[i + 2]) != Cmp::Gt);
            }
        }
        assert(sorted_eff(t1)) by {
            assert forall|i: int, j: int|
                #![trigger cmp_eff(t1[i], t1[j])]
                0 <= i && j == i + 1 && j < t1.len() implies cmp_eff(t1[i], t1[j]) != Cmp::Gt by {
                assert(t1[i] == t[i + 1]);
                assert(t1[j] == t[i + 2]);
                assert(cmp_eff(t[i + 1], t[i + 2]) != Cmp::Gt);
            }
        }
        assert(discriminating(s1.to_multiset())) by {
            assert forall|a: ExprV, b: ExprV|
                #![trigger s1.to_multiset().count(a), s1.to_multiset().count(b)]
                s1.to_multiset().contains(a) && s1.to_multiset().contains(b) && cmp_eff(a, b)
                    == Cmp::Eq implies a == b by {
                assert(s.to_multiset().count(a) >= s1.to_multiset().count(a));
                assert(s.to_multiset().count(b) >= s1.to_multiset().count(b));
            }
        }
        lemma_sorted_unique(s1, t1);
        assert forall|i: int| 0 <= i < s.len() implies s[i] == t[i] by {
            if i > 0 {
                assert(s1[i - 1] == s[i]);
                assert(t1[i - 1] == t[i]);
            }
        }
        assert(s =~= t);
    }
}

/// Inserting a term that no present term exceeds appends it.
proof fn lemma_insert_at_end(x: ExprV, s: Seq<ExprV>)
    requires
        forall|i: int| 0 <= i < s.len() ==> cmp_eff(s[i], x) != Cmp::Gt,
    ensures
        insert_sorted(x, s) == s.push(x),
    decreases s.len(),
{
    if s.len() == 0 {
        assert(insert_sorted(x, s) =~= s.push(x));
    } else {
        assert forall|i: int| 0 <= i < s.drop_first().len() implies cmp_eff(s.drop_first()[i], x)
            != Cmp::Gt by {
            assert(s.drop_first()[i] == s[i + 1]);
        }
        lemma_insert_at_end(x, s.drop_first());
        assert(seq![s[0]] + s.drop_first().push(x) =~= s.push(x));
    }
}

/// Sorting an already sorted list of NaN-free terms returns it
/// unchanged: the sort is stable, and on NaN-free terms stability fixes
/// sorted input in place.
pub proof fn lemma_sort_of_sorted(s: Seq<ExprV>)
    requires
        sorted_eff(s),
        nan_free_list(s),
    ensures
        sort_spec(s) == s,
    decreases s.len(),
{
    broadcast use lemma_nan_free_list;

    if s.len() > 0 {
        let s1 = s.drop_last();
        assert(sorted_eff(s1)) by {
            assert forall|i: int, j: int|
                #![trigger cmp_eff(s1[i], s1[j])]
                0 <= i && j == i + 1 && j < s1.len() implies cmp_eff(s1[i], s1[j]) != Cmp::Gt by {
                assert(s1[i] == s[i]);
                assert(s1[j] == s[i + 1]);
                assert(cmp_eff(s[i], s[i + 1]) != Cmp::Gt);
            }
        }
        assert(nan_free_list(s1)) by {
            assert forall|i: int| 0 <= i < s1.len() implies nan_free(s1[i]) by {
                assert(s1[i] == s[i]);
            }
        }
        lemma_sort_of_sorted(s1);
        assert forall|i: int| 0 <= i < s1.len() implies cmp_eff(s1[i], s.last()) != Cmp::Gt by {
            assert(s1[i] == s[i]);
            lemma_le_chain_nan_free(s, i, s.len() - 1);
        }
        lemma_insert_at_end(s.last(), s1);
        assert(s1.push(s.last()) =~= s);
    }
}

} // verus!
