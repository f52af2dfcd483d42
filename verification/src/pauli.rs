//! Pauli operators and Pauli strings.
//!
//! This module defines the atomic operators used to construct
//! Hamiltonians and observables. All Pauli strings are stored in a
//! canonical form: identity entries removed and the remaining entries
//! sorted by ascending qubit index.
use vstd::prelude::*;

verus! {

use vstd::multiset::Multiset;
use vstd::string::StringExecFns;

/// Single qubit Pauli operators.
#[derive(Clone, Copy, Debug, PartialEq, Eq, Structural)]
pub enum Pauli {
    I,
    X,
    Y,
    Z,
}

impl Pauli {
    /// The operator a character denotes, if any.
    pub open spec fn of_char(c: char) -> Option<Pauli> {
        if c == 'I' {
            Some(Pauli::I)
        } else if c == 'X' {
            Some(Pauli::X)
        } else if c == 'Y' {
            Some(Pauli::Y)
        } else if c == 'Z' {
            Some(Pauli::Z)
        } else {
            None
        }
    }

    /// The error text reported for a character that denotes no operator.
    pub open spec fn invalid_char_msg(c: char) -> Seq<char> {
        "Invalid Pauli character: '"@ + seq![c] + "'"@
    }

    /// Parse a single character as a Pauli operator; any character outside
    /// `{I, X, Y, Z}` is a construction error.
    pub fn try_from(c: char) -> (r: Result<Pauli, String>)
        ensures
            Pauli::of_char(c) is Some ==> r == Ok::<Pauli, String>(Pauli::of_char(c)->0),
            Pauli::of_char(c) is None ==> (r matches Err(m) && m@ == Pauli::invalid_char_msg(c)),
    {
        if c == 'I' {
            Ok(Pauli::I)
        } else if c == 'X' {
            Ok(Pauli::X)
        } else if c == 'Y' {
            Ok(Pauli::Y)
        } else if c == 'Z' {
            Ok(Pauli::Z)
        } else {
            let mut m = "Invalid Pauli character: '".to_owned();
            push_char(&mut m, c);
            m.append("'");
            Err(m)
        }
    }
}

/// Relies on String::push: it appends exactly the given character.
#[verifier::external_body]
fn push_char(s: &mut String, c: char)
    ensures
        final(s)@ == old(s)@ + seq![c],
{
    s.push(c)
}

/// Entries whose operator is the identity, dropped by normalization.
pub open spec fn keeps_entry(e: (usize, Pauli)) -> bool {
    e.1 != Pauli::I
}

/// The non-identity entries of a raw list, in their original order.
pub open spec fn pauli_filter(s: Seq<(usize, Pauli)>) -> Seq<(usize, Pauli)>
    decreases s.len(),
{
    if s.len() == 0 {
        Seq::empty()
    } else {
        let rest = pauli_filter(s.drop_last());
        if keeps_entry(s.last()) {
            rest.push(s.last())
        } else {
            rest
        }
    }
}

/// Insert an entry into a list after every entry of index at most its own,
/// as a stable insertion sort does.
pub open spec fn pauli_insert(x: (usize, Pauli), s: Seq<(usize, Pauli)>) -> Seq<(usize, Pauli)>
    decreases s.len(),
{
    if s.len() == 0 {
        seq![x]
    } else if s[0].0 <= x.0 {
        seq![s[0]] + pauli_insert(x, s.drop_first())
    } else {
        seq![x] + s
    }
}

/// Stable insertion sort of entries by ascending qubit index.
pub open spec fn pauli_sort(s: Seq<(usize, Pauli)>) -> Seq<(usize, Pauli)>
    decreases s.len(),
{
    if s.len() == 0 {
        Seq::empty()
    } else {
        pauli_insert(s.last(), pauli_sort(s.drop_last()))
    }
}

/// What construction does to a raw entry list: identities dropped, the
/// rest stably sorted by index.
pub open spec fn pauli_normalize(s: Seq<(usize, Pauli)>) -> Seq<(usize, Pauli)> {
    pauli_sort(pauli_filter(s))
}

/// Entries are in ascending (not necessarily strict) index order.
pub open spec fn idx_sorted(s: Seq<(usize, Pauli)>) -> bool {
    forall|i: int, j: int| 0 <= i < j < s.len() ==> s[i].0 <= s[j].0
}

/// No entry carries the identity operator.
pub open spec fn no_identity(s: Seq<(usize, Pauli)>) -> bool {
    forall|i: int| 0 <= i < s.len() ==> keeps_entry(s[i])
}

/// A tensor product of Pauli operators acting on specific qubit indices.
///
/// Invariants:
/// - Operators are stored in ascending index order
/// - Identity operators are omitted
///
/// Duplicate indices are currently accepted without error; validating
/// their uniqueness is left open.
#[derive(Clone, Debug, PartialEq, Eq)]
pub struct PauliString {
    ops: Vec<(usize, Pauli)>,
}

impl View for PauliString {
    type V = Seq<(usize, Pauli)>;

    closed spec fn view(&self) -> Seq<(usize, Pauli)> {
        self.ops@
    }
}

impl PauliString {
    /// The stored layout is normalized: ascending indices, no identities.
    pub open spec fn wf(&self) -> bool {
        idx_sorted(self@) && no_identity(self@)
    }

    /// Construct a new PauliString from an indexed list of Pauli operators.
    /// The input is canonicalized: identities are removed and indices
    /// are sorted.
    pub fn new(ops: Vec<(usize, Pauli)>) -> (r: Self)
        ensures
            r@ == pauli_normalize(ops@),
            r.wf(),
    {
        let mut kept: Vec<(usize, Pauli)> = Vec::new();
        let n = ops.len();
        let mut i: usize = 0;
        while i < n
            invariant
                n == ops@.len(),
                i <= n,
                kept@ == pauli_filter(ops@.take(i as int)),
            decreases n - i,
        {
            let e = ops[i];
            proof {
                assert(ops@.take(i + 1).drop_last() =~= ops@.take(i as int));
                assert(ops@.take(i + 1).last() == e);
            }
            if !matches!(e.1, Pauli::I) {
                kept.push(e);
            }
            i = i + 1;
        }
        proof {
            assert(ops@.take(n as int) =~= ops@);
        }
        let mut sorted: Vec<(usize, Pauli)> = Vec::new();
        let m = kept.len();
        let mut k: usize = 0;
        while k < m
            invariant
                m == kept@.len(),
                k <= m,
                sorted@ == pauli_sort(kept@.take(k as int)),
                idx_sorted(sorted@),
            decreases m - k,
        {
            let x = kept[k];
            let mut j: usize = 0;
            while j < sorted.len() && sorted[j].0 <= x.0
                invariant
                    j <= sorted@.len(),
                    forall|t: int| 0 <= t < j ==> sorted@[t].0 <= x.0,
                decreases sorted@.len() - j,
            {
                j = j + 1;
            }
            proof {
                lemma_pauli_insert_at(sorted@, x, j as int);
                lemma_pauli_insert_sorted(sorted@, x);
                assert(kept@.take(k + 1).drop_last() =~= kept@.take(k as int));
                assert(kept@.take(k + 1).last() == x);
            }
            sorted.insert(j, x);
            k = k + 1;
        }
        proof {
            broadcast use vstd::seq_lib::group_to_multiset_ensures;

            assert(kept@.take(m as int) =~= kept@);
            lemma_pauli_sort_keeps(kept@);
            lemma_pauli_filter_no_identity(ops@);
            assert forall|t: int| 0 <= t < sorted@.len() implies keeps_entry(sorted@[t]) by {
                assert(sorted@.to_multiset().contains(sorted@[t]));
                assert(kept@.contains(sorted@[t]));
            }
        }
        PauliString { ops: sorted }
    }
}

/// Lexicographic order of the index sequences of two entry lists,
/// ignoring the operator kind at each position.
pub open spec fn cmp_indices(a: Seq<(usize, Pauli)>, b: Seq<(usize, Pauli)>) -> crate::order::Cmp
    decreases a.len(),
{
    if a.len() == 0 && b.len() == 0 {
        crate::order::Cmp::Eq
    } else if a.len() == 0 {
        crate::order::Cmp::Lt
    } else if b.len() == 0 {
        crate::order::Cmp::Gt
    } else if a[0].0 != b[0].0 {
        crate::order::cmp_of_int(a[0].0 as int, b[0].0 as int)
    } else {
        cmp_indices(a.drop_first(), b.drop_first())
    }
}

impl PauliString {
    /// Order PauliStrings by their index sequences alone: two strings
    /// with identical indices but different operators compare as
    /// order-equal while remaining value-unequal. This inconsistency
    /// between ordering and equality is deliberate and preserved.
    pub fn cmp(&self, other: &Self) -> (r: crate::order::Cmp)
        ensures
            r == cmp_indices(self@, other@),
    {
        let la = self.ops.len();
        let lb = other.ops.len();
        proof {
            assert(self@.skip(0) =~= self@);
            assert(other@.skip(0) =~= other@);
        }
        let mut i: usize = 0;
        while i < la && i < lb
            invariant
                la == self@.len(),
                lb == other@.len(),
                i <= la,
                i <= lb,
                cmp_indices(self@, other@) == cmp_indices(
                    self@.skip(i as int),
                    other@.skip(i as int),
                ),
            decreases la - i,
        {
            proof {
                assert(self@.skip(i as int)[0] == self@[i as int]);
                assert(other@.skip(i as int)[0] == other@[i as int]);
                assert(self@.skip(i + 1) =~= self@.skip(i as int).drop_first());
                assert(other@.skip(i + 1) =~= other@.skip(i as int).drop_first());
            }
            let ia = self.ops[i].0;
            let ib = other.ops[i].0;
            if ia < ib {
                return crate::order::Cmp::Lt;
            }
            if ia > ib {
                return crate::order::Cmp::Gt;
            }
            i = i + 1;
        }
        if la == lb {
            crate::order::Cmp::Eq
        } else if la < lb {
            crate::order::Cmp::Lt
        } else {
            crate::order::Cmp::Gt
        }
    }
}

/// The entry list a fully valid text denotes: character position as
/// qubit index, each character as an operator.
pub open spec fn parsed_entries(s: Seq<char>) -> Seq<(usize, Pauli)> {
    Seq::new(s.len(), |i: int| (i as usize, Pauli::of_char(s[i])->0))
}

/// `k` is the position of the first character that denotes no operator.
pub open spec fn first_invalid_at(s: Seq<char>, k: int) -> bool {
    &&& 0 <= k < s.len()
    &&& Pauli::of_char(s[k]) is None
    &&& forall|j: int| 0 <= j < k ==> Pauli::of_char(s[j]) is Some
}

impl PauliString {
    /// Generate a PauliString from a string input, treating character
    /// position as qubit index. May return an error if the input holds
    /// invalid characters; for internal use `PauliString::new()` is
    /// preferred.
    pub fn from_string(input: &str) -> (r: Result<Self, String>)
        ensures
            (forall|i: int| 0 <= i < input@.len() ==> Pauli::of_char(input@[i]) is Some) ==> (
            r matches Ok(ps) && ps@ == pauli_normalize(parsed_entries(input@)) && ps.wf()),
            (exists|i: int|
                0 <= i < input@.len() && Pauli::of_char(input@[i]) is None) ==> (r matches Err(m)
                && exists|k: int|
                #[trigger] first_invalid_at(input@, k) && m@ == Pauli::invalid_char_msg(
                    input@[k],
                )),
    {
        let n = input.unicode_len();
        let mut entries: Vec<(usize, Pauli)> = Vec::new();
        proof {
            assert(entries@ =~= parsed_entries(input@.take(0)));
        }
        let mut i: usize = 0;
        while i < n
            invariant
                n == input@.len(),
                i <= n,
                entries@ == parsed_entries(input@.take(i as int)),
                forall|j: int| 0 <= j < i ==> Pauli::of_char(input@[j]) is Some,
            decreases n - i,
        {
            let c = input.get_char(i);
            match Pauli::try_from(c) {
                Ok(p) => {
                    entries.push((i, p));
                },
                Err(m) => {
                    proof {
                        assert(first_invalid_at(input@, i as int));
                    }
                    return Err(m);
                },
            }
            proof {
                assert(entries@ =~= parsed_entries(input@.take(i + 1)));
            }
            i = i + 1;
        }
        proof {
            assert(input@.take(n as int) =~= input@);
        }
        Ok(Self::new(entries))
    }
}

/// The character that displays an operator.
pub open spec fn pauli_char(p: Pauli) -> char {
    match p {
        Pauli::I => 'I',
        Pauli::X => 'X',
        Pauli::Y => 'Y',
        Pauli::Z => 'Z',
    }
}

/// The character that displays a decimal digit.
pub open spec fn digit_char(d: int) -> char {
    if d == 0 {
        '0'
    } else if d == 1 {
        '1'
    } else if d == 2 {
        '2'
    } else if d == 3 {
        '3'
    } else if d == 4 {
        '4'
    } else if d == 5 {
        '5'
    } else if d == 6 {
        '6'
    } else if d == 7 {
        '7'
    } else if d == 8 {
        '8'
    } else {
        '9'
    }
}

/// The decimal digits of a number, most significant first.
pub open spec fn dec_digits(n: int) -> Seq<char>
    decreases n,
{
    if n < 10 {
        seq![digit_char(n)]
    } else {
        dec_digits(n / 10).push(digit_char(n % 10))
    }
}

/// One displayed entry: the operator character, then the qubit index.
pub open spec fn pauli_token(e: (usize, Pauli)) -> Seq<char> {
    seq![pauli_char(e.1)] + dec_digits(e.0 as int)
}

/// The displayed entries, space separated.
pub open spec fn pauli_tokens(s: Seq<(usize, Pauli)>) -> Seq<char>
    decreases s.len(),
{
    if s.len() == 0 {
        Seq::empty()
    } else if s.len() == 1 {
        pauli_token(s[0])
    } else {
        pauli_tokens(s.drop_last()) + seq![' '] + pauli_token(s.last())
    }
}

/// What display renders: "I" for the empty string, otherwise space-joined
/// operator-index tokens in stored order.
pub open spec fn pauli_display(s: Seq<(usize, Pauli)>) -> Seq<char> {
    if s.len() == 0 {
        "I"@
    } else {
        pauli_tokens(s)
    }
}

/// The one-character text of a decimal digit.
fn digit_str(d: usize) -> (r: &'static str)
    requires
        d < 10,
    ensures
        r@ == seq![digit_char(d as int)],
{
    proof {
        reveal_strlit("0");
        reveal_strlit("1");
        reveal_strlit("2");
        reveal_strlit("3");
        reveal_strlit("4");
        reveal_strlit("5");
        reveal_strlit("6");
        reveal_strlit("7");
        reveal_strlit("8");
        reveal_strlit("9");
    }
    if d == 0 {
        "0"
    } else if d == 1 {
        "1"
    } else if d == 2 {
        "2"
    } else if d == 3 {
        "3"
    } else if d == 4 {
        "4"
    } else if d == 5 {
        "5"
    } else if d == 6 {
        "6"
    } else if d == 7 {
        "7"
    } else if d == 8 {
        "8"
    } else {
        "9"
    }
}

/// The one-character text of an operator.
fn op_str(p: &Pauli) -> (r: &'static str)
    ensures
        r@ == seq![pauli_char(*p)],
{
    proof {
        reveal_strlit("I");
        reveal_strlit("X");
        reveal_strlit("Y");
        reveal_strlit("Z");
    }
    match p {
        Pauli::I => "I",
        Pauli::X => "X",
        Pauli::Y => "Y",
        Pauli::Z => "Z",
    }
}

/// The reversed digits collected by `append_index`, as characters.
spec fn rev_digit_chars(d: Seq<usize>) -> Seq<char> {
    Seq::new(d.len(), |i: int| digit_char(d[d.len() - 1 - i] as int))
}

/// Append the decimal rendering of an index to a string.
fn append_index(s: &mut String, n: usize)
    ensures
        final(s)@ == old(s)@ + dec_digits(n as int),
{
    if n < 10 {
        s.append(digit_str(n));
        return;
    }
    let mut digs: Vec<usize> = Vec::new();
    let mut m = n;
    proof {
        assert(dec_digits(n as int) =~= dec_digits(m as int) + rev_digit_chars(digs@));
    }
    while m >= 10
        invariant
            dec_digits(n as int) == dec_digits(m as int) + rev_digit_chars(digs@),
            forall|t: int| 0 <= t < digs@.len() ==> digs@[t] < 10,
        decreases m,
    {
        let d = m % 10;
        proof {
            let before = digs@;
            assert(rev_digit_chars(before.push(d)) =~= seq![digit_char(d as int)]
                + rev_digit_chars(before));
            assert(dec_digits(m as int) == dec_digits(m as int / 10).push(
                digit_char(m as int % 10),
            ));
            assert(dec_digits(m as int / 10).push(digit_char(d as int)) + rev_digit_chars(before)
                =~= dec_digits(m as int / 10) + (seq![digit_char(d as int)] + rev_digit_chars(
                before,
            )));
        }
        digs.push(d);
        m = m / 10;
    }
    s.append(digit_str(m));
    let len = digs.len();
    let ghost s1 = s@;
    proof {
        assert(rev_digit_chars(digs@).take(0) =~= Seq::<char>::empty());
        assert(s1 =~= s1 + rev_digit_chars(digs@).take(0));
    }
    let mut k: usize = 0;
    while k < len
        invariant
            len == digs@.len(),
            k <= len,
            forall|t: int| 0 <= t < len ==> digs@[t] < 10,
            s@ == s1 + rev_digit_chars(digs@).take(k as int),
        decreases len - k,
    {
        let d = digs[len - 1 - k];
        proof {
            assert(rev_digit_chars(digs@).take(k + 1) =~= rev_digit_chars(digs@).take(
                k as int,
            ).push(digit_char(d as int)));
        }
        s.append(digit_str(d));
        k = k + 1;
    }
    proof {
        assert(rev_digit_chars(digs@).take(len as int) =~= rev_digit_chars(digs@));
    }
}

impl PauliString {
    /// An equal copy of the string, entry by entry.
    pub fn duplicate(&self) -> (r: Self)
        ensures
            r@ == self@,
    {
        let mut ops: Vec<(usize, Pauli)> = Vec::new();
        let n = self.ops.len();
        let mut i: usize = 0;
        while i < n
            invariant
                n == self@.len(),
                i <= n,
                ops@ == self@.take(i as int),
            decreases n - i,
        {
            ops.push(self.ops[i]);
            proof {
                assert(ops@ =~= self@.take(i + 1));
            }
            i = i + 1;
        }
        proof {
            assert(self@.take(n as int) =~= self@);
        }
        PauliString { ops }
    }

    /// The displayed form: "I" for the identity, else space-separated
    /// operator-index tokens in ascending index order.
    pub fn to_text(&self) -> (r: String)
        ensures
            r@ == pauli_display(self@),
    {
        if self.ops.len() == 0 {
            return "I".to_owned();
        }
        let mut out = String::new();
        let n = self.ops.len();
        let mut i: usize = 0;
        while i < n
            invariant
                n == self@.len(),
                0 < n,
                i <= n,
                out@ == pauli_tokens(self@.take(i as int)),
            decreases n - i,
        {
            if i > 0 {
                proof {
                    reveal_strlit(" ");
                }
                out.append(" ");
            }
            let e = &self.ops[i];
            out.append(op_str(&e.1));
            append_index(&mut out, e.0);
            proof {
                let t1 = self@.take(i + 1);
                assert(t1.drop_last() =~= self@.take(i as int));
                assert(t1.last() == self@[i as int]);
                if i == 0 {
                    assert(out@ =~= pauli_token(self@[0]));
                } else {
                    assert(out@ =~= pauli_tokens(t1.drop_last()) + seq![' '] + pauli_token(
                        t1.last(),
                    ));
                }
            }
            i = i + 1;
        }
        proof {
            assert(self@.take(n as int) =~= self@);
        }
        out
    }
}

/// Where the scan in `PauliString::new` stops, the spec-level insertion
/// places the element: before the first entry of strictly greater index.
proof fn lemma_pauli_insert_at(s: Seq<(usize, Pauli)>, x: (usize, Pauli), j: int)
    requires
        0 <= j <= s.len(),
        forall|t: int| 0 <= t < j ==> s[t].0 <= x.0,
        j < s.len() ==> s[j].0 > x.0,
    ensures
        pauli_insert(x, s) == s.insert(j, x),
    decreases j,
{
    if j == 0 {
        if s.len() == 0 {
            assert(pauli_insert(x, s) =~= s.insert(0, x));
        } else {
            assert(pauli_insert(x, s) =~= s.insert(0, x));
        }
    } else {
        lemma_pauli_insert_at(s.drop_first(), x, j - 1);
        assert(pauli_insert(x, s) == seq![s[0]] + pauli_insert(x, s.drop_first()));
        assert(seq![s[0]] + s.drop_first().insert(j - 1, x) =~= s.insert(j, x));
    }
}

/// Inserting into an index-sorted list keeps it index-sorted.
proof fn lemma_pauli_insert_sorted(s: Seq<(usize, Pauli)>, x: (usize, Pauli))
    requires
        idx_sorted(s),
    ensures
        idx_sorted(pauli_insert(x, s)),
        pauli_insert(x, s).to_multiset() == s.to_multiset().insert(x),
    decreases s.len(),
{
    broadcast use vstd::seq_lib::group_seq_properties;

    if s.len() == 0 {
        assert(seq![x] =~= Seq::empty().push(x));
        assert(seq![x].to_multiset() == s.to_multiset().insert(x));
    } else if s[0].0 <= x.0 {
        assert(idx_sorted(s.drop_first()));
        lemma_pauli_insert_sorted(s.drop_first(), x);
        let r = seq![s[0]] + pauli_insert(x, s.drop_first());
        assert forall|i: int, j: int| 0 <= i < j < r.len() implies r[i].0 <= r[j].0 by {
            if i == 0 {
                let rest = pauli_insert(x, s.drop_first());
                assert(rest.to_multiset().contains(rest[j - 1]));
                assert(s.drop_first().to_multiset().insert(x).contains(rest[j - 1]));
                if rest[j - 1] == x {
                    assert(r[i].0 <= r[j].0);
                } else {
                    assert(s.drop_first().to_multiset().contains(rest[j - 1]));
                    assert(s.drop_first().contains(rest[j - 1]));
                }
            }
        }
        assert(seq![s[0]] + s.drop_first() =~= s);
        assert(r.to_multiset() == s.to_multiset().insert(x)) by {
            vstd::seq_lib::lemma_multiset_commutative(seq![s[0]], pauli_insert(x, s.drop_first()));
            vstd::seq_lib::lemma_multiset_commutative(seq![s[0]], s.drop_first());
            assert(r.to_multiset() =~= s.to_multiset().insert(x));
        }
    } else {
        let r = seq![x] + s;
        assert(idx_sorted(r));
        vstd::seq_lib::lemma_multiset_commutative(seq![x], s);
        assert(seq![x].to_multiset() =~= Multiset::empty().insert(x));
        assert(r.to_multiset() =~= s.to_multiset().insert(x));
    }
}

/// The sort returns an index-sorted permutation of its input.
proof fn lemma_pauli_sort_keeps(s: Seq<(usize, Pauli)>)
    ensures
        idx_sorted(pauli_sort(s)),
        pauli_sort(s).to_multiset() == s.to_multiset(),
    decreases s.len(),
{
    broadcast use vstd::seq_lib::group_seq_properties;

    if s.len() == 0 {
    } else {
        lemma_pauli_sort_keeps(s.drop_last());
        lemma_pauli_insert_sorted(pauli_sort(s.drop_last()), s.last());
        assert(s.drop_last().push(s.last()) =~= s);
    }
}

/// Every entry the filter keeps satisfies its predicate.
proof fn lemma_pauli_filter_no_identity(s: Seq<(usize, Pauli)>)
    ensures
        no_identity(pauli_filter(s)),
    decreases s.len(),
{
    if s.len() > 0 {
        lemma_pauli_filter_no_identity(s.drop_last());
    }
}

} // verus!
