//! The laws the canonicalizer obeys, stated and proved over the
//! mathematical model: idempotence of both passes, commutativity of sum
//! terms, order-sensitivity of product factors, associativity
//! flattening, and the deliberate refusal to merge algebraically equal
//! but structurally different trees.
use vstd::prelude::*;

verus! {

use crate::canonical::all_flat;
use crate::canonical::canon_flat;
use crate::canonical::canon_list;
use crate::canonical::canon_spec;
use crate::canonical::discriminating;
use crate::canonical::flat_prod_list;
use crate::canonical::flat_sum_list;
use crate::canonical::flatten_spec;
use crate::canonical::is_flat;
use crate::canonical::lemma_all_flat;
use crate::canonical::lemma_canon_list;
use crate::canonical::lemma_flat_prod_list_add;
use crate::canonical::lemma_flat_sum_list_add;
use crate::canonical::lemma_flatten_is_flat;
use crate::canonical::lemma_flatten_of_flat;
use crate::canonical::lemma_sort_of_sorted;
use crate::canonical::lemma_sort_spec_props;
use crate::canonical::lemma_sorted_unique;
use crate::canonical::no_product;
use crate::canonical::no_sum;
use crate::canonical::prod_block;
use crate::canonical::sort_spec;
use crate::canonical::sum_block;
use crate::expr::ExprV;
use crate::expr::lemma_nan_free_list;
use crate::expr::nan_free;
use crate::expr::nan_free_list;
use crate::order::rank;

/// Flattening keeps the kind of the root node.
pub proof fn lemma_flatten_keeps_rank(e: ExprV)
    ensures
        rank(flatten_spec(e)) == rank(e),
{
}

/// Canonicalizing a tree keeps the kind of the root node.
pub proof fn lemma_canon_flat_keeps_rank(f: ExprV)
    ensures
        rank(canon_flat(f)) == rank(f),
{
}

/// Idempotence of the flatten pass: flattening an already flattened tree
/// returns an equal tree.
pub proof fn lemma_flatten_idempotent(e: ExprV)
    ensures
        flatten_spec(flatten_spec(e)) == flatten_spec(e),
{
    lemma_flatten_is_flat(e);
    lemma_flatten_of_flat(flatten_spec(e));
}

/// The flatten pass never introduces or removes a NaN.
pub proof fn lemma_flatten_nan_free(e: ExprV)
    requires
        nan_free(e),
    ensures
        nan_free(flatten_spec(e)),
    decreases e, 1int,
{
    broadcast use lemma_nan_free_list;

    match e {
        ExprV::Sum(terms) => {
            lemma_flat_sum_list_nan_free(terms);
        },
        ExprV::Product(factors) => {
            lemma_flat_prod_list_nan_free(factors);
        },
        _ => {},
    }
}

/// NaN-freedom carries through the flattened term list of a sum.
proof fn lemma_flat_sum_list_nan_free(s: Seq<ExprV>)
    requires
        nan_free_list(s),
    ensures
        nan_free_list(flat_sum_list(s)),
    decreases s, 0int,
{
    broadcast use lemma_nan_free_list;

    if s.len() > 0 {
        lemma_flatten_nan_free(s[0]);
        lemma_flat_sum_list_nan_free(s.drop_first());
        let f = flatten_spec(s[0]);
        let block = sum_block(f);
        let rest = flat_sum_list(s.drop_first());
        assert(nan_free_list(block)) by {
            match f {
                ExprV::Sum(inner) => {},
                _ => {
                    assert(block == seq![f]);
                    assert(block[0] == f);
                },
            }
        }
        assert forall|i: int| 0 <= i < (block + rest).len() implies nan_free((block + rest)[i]) by {
            if i < block.len() {
                assert((block + rest)[i] == block[i]);
            } else {
                assert((block + rest)[i] == rest[i - block.len()]);
            }
        }
    }
}

/// NaN-freedom carries through the flattened factor list of a product.
proof fn lemma_flat_prod_list_nan_free(s: Seq<ExprV>)
    requires
        nan_free_list(s),
    ensures
        nan_free_list(flat_prod_list(s)),
    decreases s, 0int,
{
    broadcast use lemma_nan_free_list;

    if s.len() > 0 {
        lemma_flatten_nan_free(s[0]);
        lemma_flat_prod_list_nan_free(s.drop_first());
        let f = flatten_spec(s[0]);
        let block = prod_block(f);
        let rest = flat_prod_list(s.drop_first());
        assert(nan_free_list(block)) by {
            match f {
                ExprV::Product(inner) => {},
                _ => {
                    assert(block == seq![f]);
                    assert(block[0] == f);
                },
            }
        }
        assert forall|i: int| 0 <= i < (block + rest).len() implies nan_free((block + rest)[i]) by {
            if i < block.len() {
                assert((block + rest)[i] == block[i]);
            } else {
                assert((block + rest)[i] == rest[i - block.len()]);
            }
        }
    }
}

/// Canonicalizing a flat NaN-free tree gives a flat NaN-free tree, and
/// doing it twice changes nothing more than doing it once.
pub proof fn lemma_canon_flat_props(f: ExprV)
    requires
        is_flat(f),
        nan_free(f),
    ensures
        is_flat(canon_flat(f)),
        nan_free(canon_flat(f)),
        canon_flat(canon_flat(f)) == canon_flat(f),
    decreases f,
{
    broadcast use lemma_canon_list, lemma_all_flat, lemma_nan_free_list,
        vstd::seq_lib::group_to_multiset_ensures;

    match f {
        ExprV::Sum(terms) => {
            let cs = canon_list(terms);
            assert forall|i: int| 0 <= i < cs.len() implies is_flat(cs[i]) && nan_free(cs[i])
                && canon_flat(cs[i]) == cs[i] && !(cs[i] is Sum) by {
                assert(all_flat(terms) && nan_free_list(terms));
                assert(is_flat(terms[i]));
                assert(nan_free(terms[i]));
                lemma_canon_flat_props(terms[i]);
                lemma_canon_flat_keeps_rank(terms[i]);
                assert(cs[i] == canon_flat(terms[i]));
            }
            lemma_sort_spec_props(cs);
            let sorted = sort_spec(cs);
            assert forall|i: int| 0 <= i < sorted.len() implies is_flat(sorted[i]) && nan_free(
                sorted[i],
            ) && canon_flat(sorted[i]) == sorted[i] && !(sorted[i] is Sum) by {
                assert(sorted.contains(sorted[i]));
                assert(sorted.to_multiset().contains(sorted[i]));
                assert(cs.to_multiset().contains(sorted[i]));
                assert(cs.contains(sorted[i]));
            }
            assert(canon_flat(f) == ExprV::Sum(sorted));
            assert(no_sum(sorted));
            assert(all_flat(sorted));
            assert(nan_free_list(sorted));
            assert(is_flat(ExprV::Sum(sorted)));
            assert(nan_free(ExprV::Sum(sorted)));
            assert(canon_list(sorted) =~= sorted);
            lemma_sort_of_sorted(sorted);
        },
        ExprV::Product(factors) => {
            let cs = canon_list(factors);
            assert forall|i: int| 0 <= i < cs.len() implies is_flat(cs[i]) && nan_free(cs[i])
                && canon_flat(cs[i]) == cs[i] && !(cs[i] is Product) by {
                assert(all_flat(factors) && nan_free_list(factors));
                assert(is_flat(factors[i]));
                assert(nan_free(factors[i]));
                lemma_canon_flat_props(factors[i]);
                lemma_canon_flat_keeps_rank(factors[i]);
                assert(cs[i] == canon_flat(factors[i]));
            }
            assert(canon_flat(f) == ExprV::Product(cs));
            assert(no_product(cs));
            assert(all_flat(cs));
            assert(nan_free_list(cs));
            assert(is_flat(ExprV::Product(cs)));
            assert(nan_free(ExprV::Product(cs)));
            assert(canon_list(cs) =~= cs);
        },
        _ => {},
    }
}

/// Idempotence of canonicalization: on a NaN-free tree, canonicalizing
/// the canonical form returns it unchanged. A NaN scalar can break this,
/// because the comparator treats it as order-equal to everything.
pub proof fn lemma_canonical_idempotent(e: ExprV)
    requires
        nan_free(e),
    ensures
        canon_spec(canon_spec(e)) == canon_spec(e),
{
    lemma_flatten_is_flat(e);
    lemma_flatten_nan_free(e);
    lemma_canon_flat_props(flatten_spec(e));
    lemma_flatten_of_flat(canon_spec(e));
}

/// Associativity flattening: a sum holding a nested sum flattens to one
/// sum of the three terms, in order.
pub proof fn lemma_flatten_splices_nested_sum(a: ExprV, b: ExprV, c: ExprV)
    requires
        flatten_spec(a) == a,
        !(a is Sum),
        flatten_spec(b) == b,
        !(b is Sum),
        flatten_spec(c) == c,
        !(c is Sum),
    ensures
        flatten_spec(ExprV::Sum(seq![a, ExprV::Sum(seq![b, c])])) == ExprV::Sum(seq![a, b, c]),
{
    let inner = ExprV::Sum(seq![b, c]);
    assert(flat_sum_list(Seq::<ExprV>::empty()) == Seq::<ExprV>::empty());
    assert(seq![b, c].len() == 2 && seq![b, c][0] == b && seq![b, c][1] == c);
    assert(seq![c].len() == 1 && seq![c][0] == c);
    assert(seq![b, c].drop_first() =~= seq![c]);
    assert(seq![c].drop_first() =~= Seq::<ExprV>::empty());
    assert(sum_block(flatten_spec(c)) + Seq::<ExprV>::empty() =~= seq![c]);
    assert(flat_sum_list(seq![c]) == seq![c]);
    assert(sum_block(flatten_spec(b)) + seq![c] =~= seq![b, c]);
    assert(flat_sum_list(seq![b, c]) == seq![b, c]);
    assert(flatten_spec(inner) == ExprV::Sum(seq![b, c]));
    let outer = seq![a, inner];
    assert(outer.len() == 2 && outer[0] == a && outer[1] == inner);
    assert(seq![inner].len() == 1 && seq![inner][0] == inner);
    assert(outer.drop_first() =~= seq![inner]);
    assert(seq![inner].drop_first() =~= Seq::<ExprV>::empty());
    assert(sum_block(flatten_spec(inner)) + Seq::<ExprV>::empty() =~= seq![b, c]);
    assert(flat_sum_list(seq![inner]) == seq![b, c]);
    assert(sum_block(flatten_spec(a)) + seq![b, c] =~= seq![a, b, c]);
    assert(flat_sum_list(outer) == seq![a, b, c]);
}

/// A product of two factors, flattened and canonicalized member by
/// member.
proof fn lemma_canon_product_pair(a: ExprV, b: ExprV)
    requires
        !(a is Product),
        !(b is Product),
    ensures
        canon_spec(ExprV::Product(seq![a, b])) == ExprV::Product(
            seq![canon_spec(a), canon_spec(b)],
        ),
{
    broadcast use lemma_canon_list;

    lemma_flatten_keeps_rank(a);
    lemma_flatten_keeps_rank(b);
    let fa = flatten_spec(a);
    let fb = flatten_spec(b);
    assert(flat_prod_list(Seq::<ExprV>::empty()) == Seq::<ExprV>::empty());
    assert(seq![a, b].len() == 2 && seq![a, b][0] == a && seq![a, b][1] == b);
    assert(seq![b].len() == 1 && seq![b][0] == b);
    assert(seq![a, b].drop_first() =~= seq![b]);
    assert(seq![b].drop_first() =~= Seq::<ExprV>::empty());
    assert(prod_block(fb) + Seq::<ExprV>::empty() =~= seq![fb]);
    assert(flat_prod_list(seq![b]) == seq![fb]);
    assert(prod_block(fa) + seq![fb] =~= seq![fa, fb]);
    assert(flat_prod_list(seq![a, b]) == seq![fa, fb]);
    assert(canon_list(seq![fa, fb]) =~= seq![canon_flat(fa), canon_flat(fb)]);
}

/// Non-commutativity of products: swapping two factors with different
/// canonical forms changes the canonical result.
pub proof fn lemma_product_reorder_differs(a: ExprV, b: ExprV)
    requires
        canon_spec(a) != canon_spec(b),
        !(a is Product),
        !(b is Product),
    ensures
        canon_spec(ExprV::Product(seq![a, b])) != canon_spec(ExprV::Product(seq![b, a])),
{
    lemma_canon_product_pair(a, b);
    lemma_canon_product_pair(b, a);
    assert(seq![canon_spec(a), canon_spec(b)][0] == canon_spec(a));
    assert(seq![canon_spec(b), canon_spec(a)][0] == canon_spec(b));
}

/// A sum and a product never share a canonical form, whatever their
/// children hold: canonicalization recognizes no algebraic law that
/// could merge them.
pub proof fn lemma_sum_product_distinct(ts: Seq<ExprV>, fs: Seq<ExprV>)
    ensures
        canon_spec(ExprV::Sum(ts)) != canon_spec(ExprV::Product(fs)),
{
    lemma_flatten_keeps_rank(ExprV::Sum(ts));
    lemma_canon_flat_keeps_rank(flatten_spec(ExprV::Sum(ts)));
    lemma_flatten_keeps_rank(ExprV::Product(fs));
    lemma_canon_flat_keeps_rank(flatten_spec(ExprV::Product(fs)));
}

/// The canonicalized terms of a sum's flattened term list: what the
/// canonical sort of that sum puts in order.
pub open spec fn canon_sum_terms(ts: Seq<ExprV>) -> Seq<ExprV> {
    canon_list(flat_sum_list(ts))
}

/// Canonicalization of a list splits over concatenation.
proof fn lemma_canon_list_add(a: Seq<ExprV>, b: Seq<ExprV>)
    ensures
        canon_list(a + b) == canon_list(a) + canon_list(b),
{
    broadcast use lemma_canon_list;

    assert forall|i: int| 0 <= i < (a + b).len() implies canon_list(a + b)[i] == (canon_list(a)
        + canon_list(b))[i] by {
        if i < a.len() {
            assert((a + b)[i] == a[i]);
        } else {
            assert((a + b)[i] == b[i - a.len()]);
        }
    }
    assert(canon_list(a + b) =~= canon_list(a) + canon_list(b));
}

/// The canonicalized flattened terms split over concatenation of the
/// original term lists.
proof fn lemma_canon_sum_terms_split(a: Seq<ExprV>, b: Seq<ExprV>)
    ensures
        canon_sum_terms(a + b) == canon_sum_terms(a) + canon_sum_terms(b),
{
    lemma_flat_sum_list_add(a, b);
    lemma_canon_list_add(flat_sum_list(a), flat_sum_list(b));
}

/// Term lists with the same terms give the same collection of
/// canonicalized flattened terms, in some order.
proof fn lemma_canon_sum_terms_perm(s: Seq<ExprV>, t: Seq<ExprV>)
    requires
        s.to_multiset() == t.to_multiset(),
    ensures
        canon_sum_terms(s).to_multiset() == canon_sum_terms(t).to_multiset(),
    decreases s.len(),
{
    broadcast use vstd::seq_lib::group_to_multiset_ensures;

    if s.len() == 0 {
        assert(s.len() == s.to_multiset().len());
        assert(t.len() == t.to_multiset().len());
        assert(s =~= t);
    } else {
        let x = s[0];
        assert(s.contains(x));
        assert(s.to_multiset().contains(x));
        assert(t.to_multiset().contains(x));
        assert(t.contains(x));
        let k = choose|k: int| 0 <= k < t.len() && t[k] == x;
        let t1 = t.take(k);
        let t2 = t.skip(k + 1);
        let s1 = s.drop_first();
        assert(s.remove(0) =~= s1);
        assert(s1.to_multiset() == s.to_multiset().remove(x));
        assert(t.remove(k) =~= t1 + t2);
        assert((t1 + t2).to_multiset() == t.to_multiset().remove(x));
        lemma_canon_sum_terms_perm(s1, t1 + t2);
        assert(s =~= seq![x] + s1);
        assert(t =~= t1 + (seq![x] + t2));
        lemma_canon_sum_terms_split(seq![x], s1);
        lemma_canon_sum_terms_split(t1, seq![x] + t2);
        lemma_canon_sum_terms_split(seq![x], t2);
        lemma_canon_sum_terms_split(t1, t2);
        let hx = canon_sum_terms(seq![x]);
        let h1 = canon_sum_terms(t1);
        let h2 = canon_sum_terms(t2);
        vstd::seq_lib::lemma_multiset_commutative(hx, canon_sum_terms(s1));
        vstd::seq_lib::lemma_multiset_commutative(h1, hx + h2);
        vstd::seq_lib::lemma_multiset_commutative(hx, h2);
        vstd::seq_lib::lemma_multiset_commutative(h1, h2);
        assert(canon_sum_terms(t).to_multiset() =~= canon_sum_terms(s).to_multiset());
    }
}

/// The sorted canonicalized terms agree for permuted term lists, when
/// the comparator genuinely discriminates those terms.
proof fn lemma_sorted_canon_terms_eq(t1: Seq<ExprV>, t2: Seq<ExprV>)
    requires
        t1.to_multiset() == t2.to_multiset(),
        discriminating(canon_sum_terms(t1).to_multiset()),
    ensures
        sort_spec(canon_sum_terms(t1)) == sort_spec(canon_sum_terms(t2)),
{
    lemma_canon_sum_terms_perm(t1, t2);
    lemma_sort_spec_props(canon_sum_terms(t1));
    lemma_sort_spec_props(canon_sum_terms(t2));
    lemma_sorted_unique(sort_spec(canon_sum_terms(t1)), sort_spec(canon_sum_terms(t2)));
}

/// Commutativity of sums: sums whose term lists hold the same terms in
/// any order canonicalize identically, provided the comparator genuinely
/// discriminates the canonicalized terms. Pauli strings that differ only
/// in operator kind, and NaN scalars, are order-equal without being
/// equal, and are excluded by that proviso.
pub proof fn lemma_sum_commutes(t1: Seq<ExprV>, t2: Seq<ExprV>)
    requires
        t1.to_multiset() == t2.to_multiset(),
        discriminating(canon_sum_terms(t1).to_multiset()),
    ensures
        canon_spec(ExprV::Sum(t1)) == canon_spec(ExprV::Sum(t2)),
{
    lemma_sorted_canon_terms_eq(t1, t2);
}

/// Nested-structure insensitivity inside commutative contexts: a product
/// holding a sum canonicalizes identically when that inner sum's terms
/// are reordered, under the same proviso as sum commutativity — while
/// reordering the product's own factors is not covered, and in general
/// changes the result.
pub proof fn lemma_product_inner_sum_reorder(
    pre: Seq<ExprV>,
    t1: Seq<ExprV>,
    t2: Seq<ExprV>,
    post: Seq<ExprV>,
)
    requires
        t1.to_multiset() == t2.to_multiset(),
        discriminating(canon_sum_terms(t1).to_multiset()),
    ensures
        canon_spec(ExprV::Product(pre + seq![ExprV::Sum(t1)] + post)) == canon_spec(
            ExprV::Product(pre + seq![ExprV::Sum(t2)] + post),
        ),
{
    lemma_sorted_canon_terms_eq(t1, t2);
    lemma_canon_inner_sum(pre, t1, post);
    lemma_canon_inner_sum(pre, t2, post);
}

/// The canonical form of a product holding a sum, by segments.
proof fn lemma_canon_inner_sum(pre: Seq<ExprV>, ts: Seq<ExprV>, post: Seq<ExprV>)
    ensures
        canon_spec(ExprV::Product(pre + seq![ExprV::Sum(ts)] + post)) == ExprV::Product(
            canon_list(flat_prod_list(pre)) + seq![
                ExprV::Sum(sort_spec(canon_sum_terms(ts))),
            ] + canon_list(flat_prod_list(post)),
        ),
{
    let s = ExprV::Sum(ts);
    assert(seq![s].len() == 1 && seq![s][0] == s);
    assert(flat_prod_list(Seq::<ExprV>::empty()) == Seq::<ExprV>::empty());
    lemma_flat_prod_list_add(pre + seq![s], post);
    lemma_flat_prod_list_add(pre, seq![s]);
    assert(seq![s].drop_first() =~= Seq::<ExprV>::empty());
    assert(prod_block(flatten_spec(s)) + Seq::<ExprV>::empty() =~= seq![flatten_spec(s)]);
    assert(flat_prod_list(seq![s]) == seq![flatten_spec(s)]);
    assert(flatten_spec(s) == ExprV::Sum(flat_sum_list(ts)));
    let whole = flat_prod_list(pre) + seq![flatten_spec(s)] + flat_prod_list(post);
    assert(flat_prod_list(pre + seq![s] + post) == whole) by {
        assert((pre + seq![s]) + post =~= pre + seq![s] + post);
        assert((flat_prod_list(pre) + flat_prod_list(seq![s])) + flat_prod_list(post) =~= whole);
    }
    lemma_canon_list_add(flat_prod_list(pre) + seq![flatten_spec(s)], flat_prod_list(post));
    lemma_canon_list_add(flat_prod_list(pre), seq![flatten_spec(s)]);
    broadcast use lemma_canon_list;

    assert(canon_list(seq![flatten_spec(s)]) =~= seq![canon_flat(flatten_spec(s))]);
    assert(canon_flat(flatten_spec(s)) == ExprV::Sum(sort_spec(canon_sum_terms(ts))));
    assert((canon_list(flat_prod_list(pre)) + seq![canon_flat(flatten_spec(s))]) + canon_list(
        flat_prod_list(post),
    ) =~= canon_list(flat_prod_list(pre)) + seq![
        ExprV::Sum(sort_spec(canon_sum_terms(ts))),
    ] + canon_list(flat_prod_list(post)));
}

} // verus!
