//! The two orders that the catalog relies on, lexical on names and numeric on
//! keys, and a sort for each.

use vstd::prelude::*;
use vstd::relations::{sorted_by, total_ordering};
use vstd::seq_lib::lemma_sorted_unique;
use vstd::std_specs::iter::IteratorSpec;

verus! {

/// `a` comes no later than `b` in lexical order, character by character; a
/// proper prefix comes first.
pub open spec fn lex_le(a: Seq<char>, b: Seq<char>) -> bool
    decreases a.len(),
{
    if a.len() == 0 {
        true
    } else if b.len() == 0 {
        false
    } else if a[0] != b[0] {
        (a[0] as int) < (b[0] as int)
    } else {
        lex_le(a.drop_first(), b.drop_first())
    }
}

/// The lexical order as a relation.
pub open spec fn lex_order() -> spec_fn(Seq<char>, Seq<char>) -> bool {
    |a: Seq<char>, b: Seq<char>| lex_le(a, b)
}

/// The numeric order as a relation.
pub open spec fn num_order() -> spec_fn(usize, usize) -> bool {
    |a: usize, b: usize| a <= b
}

/// The names that the strings of `v` hold.
pub open spec fn names(v: Seq<String>) -> Seq<Seq<char>> {
    Seq::new(v.len(), |i: int| v[i]@)
}

pub proof fn lemma_lex_reflexive(a: Seq<char>)
    ensures
        lex_le(a, a),
    decreases a.len(),
{
    if a.len() > 0 {
        lemma_lex_reflexive(a.drop_first());
    }
}

pub proof fn lemma_lex_antisymmetric(a: Seq<char>, b: Seq<char>)
    requires
        lex_le(a, b),
        lex_le(b, a),
    ensures
        a == b,
    decreases a.len(),
{
    if a.len() > 0 && b.len() > 0 {
        lemma_lex_antisymmetric(a.drop_first(), b.drop_first());
        assert(a.len() == b.len()) by {
            assert(a.drop_first().len() == a.len() - 1);
        }
        assert forall|i: int| 0 <= i < a.len() implies a[i] == b[i] by {
            if i > 0 {
                assert(a[i] == a.drop_first()[i - 1]);
            }
        }
    }
}

pub proof fn lemma_lex_transitive(a: Seq<char>, b: Seq<char>, c: Seq<char>)
    requires
        lex_le(a, b),
        lex_le(b, c),
    ensures
        lex_le(a, c),
    decreases a.len(),
{
    if a.len() > 0 && b.len() > 0 && c.len() > 0 {
        if a[0] == b[0] && b[0] == c[0] {
            lemma_lex_transitive(a.drop_first(), b.drop_first(), c.drop_first());
        }
    }
}

pub proof fn lemma_lex_connected(a: Seq<char>, b: Seq<char>)
    ensures
        lex_le(a, b) || lex_le(b, a),
    decreases a.len(),
{
    if a.len() > 0 && b.len() > 0 {
        lemma_lex_connected(a.drop_first(), b.drop_first());
    }
}

/// The lexical order is a total order.
pub proof fn lemma_lex_total()
    ensures
        total_ordering(lex_order()),
{
    let r = lex_order();
    assert forall|a: Seq<char>| #[trigger] r(a, a) by {
        lemma_lex_reflexive(a);
    }
    assert forall|a: Seq<char>, b: Seq<char>| #[trigger] r(a, b) && #[trigger] r(b, a) implies a
        == b by {
        lemma_lex_antisymmetric(a, b);
    }
    assert forall|a: Seq<char>, b: Seq<char>, c: Seq<char>| #[trigger]
        r(a, b) && #[trigger] r(b, c) implies r(a, c) by {
        lemma_lex_transitive(a, b, c);
    }
    assert forall|a: Seq<char>, b: Seq<char>| #[trigger] r(a, b) || #[trigger] r(b, a) by {
        lemma_lex_connected(a, b);
    }
}

/// The numeric order is a total order.
pub proof fn lemma_num_total()
    ensures
        total_ordering(num_order()),
{
}

/// Moving the element at `i` to a place `j` inside the sorted run before it,
/// behind what is no greater and before what is greater, leaves a longer
/// sorted run and the same elements.
pub proof fn lemma_insert_sorted<A>(s: Seq<A>, i: int, j: int, leq: spec_fn(A, A) -> bool)
    requires
        total_ordering(leq),
        0 <= j <= i < s.len(),
        sorted_by(s.take(i), leq),
        forall|k: int| 0 <= k < j ==> leq(#[trigger] s[k], s[i]),
        j < i ==> !leq(s[j], s[i]),
    ensures
        sorted_by(s.remove(i).insert(j, s[i]).take(i + 1), leq),
        s.remove(i).insert(j, s[i]).to_multiset() == s.to_multiset(),
{
    broadcast use vstd::seq_lib::group_to_multiset_ensures;
    broadcast use vstd::multiset::group_multiset_axioms;

    let x = s[i];
    let mid = s.remove(i);
    let t = mid.insert(j, x);
    let run = t.take(i + 1);
    assert forall|a: int, b: int| 0 <= a < b < run.len() implies leq(run[a], run[b]) by {
        let before = s.take(i);
        if b > j {
            assert(leq(before[j], before[b - 1]) || j == b - 1);
            assert(leq(x, before[j]));
        }
    }
}

/// Sorting by a total order keeps the number of elements.
pub proof fn lemma_sort_len<A>(s: Seq<A>, leq: spec_fn(A, A) -> bool)
    requires
        total_ordering(leq),
    ensures
        s.sort_by(leq).len() == s.len(),
{
    s.lemma_sort_by_ensures(leq);
    vstd::seq_lib::to_multiset_len(s);
    vstd::seq_lib::to_multiset_len(s.sort_by(leq));
}

/// `s` is in strictly ascending lexical order.
pub open spec fn strictly_ascending(s: Seq<Seq<char>>) -> bool {
    forall|a: int, b: int|
        0 <= a < b < s.len() ==> lex_le(#[trigger] s[a], #[trigger] s[b]) && s[a] != s[b]
}

/// Sorting names that differ gives them in strictly ascending order: the
/// same names, each once.
pub proof fn lemma_sorted_distinct(s: Seq<Seq<char>>)
    requires
        s.no_duplicates(),
    ensures
        strictly_ascending(s.sort_by(lex_order())),
        s.sort_by(lex_order()).len() == s.len(),
        forall|p: Seq<char>| s.sort_by(lex_order()).contains(p) <==> s.contains(p),
{
    broadcast use vstd::seq_lib::group_to_multiset_ensures;

    lemma_lex_total();
    lemma_sort_len(s, lex_order());
    s.lemma_sort_by_ensures(lex_order());
    let t = s.sort_by(lex_order());
    s.lemma_multiset_has_no_duplicates();
    assert forall|a: int, b: int| 0 <= a < b < t.len() implies lex_le(t[a], t[b]) && t[a]
        != t[b] by {
        assert(lex_order()(t[a], t[b]));
        if t[a] == t[b] {
            let x = t[a];
            let rest = t.remove(a);
            vstd::seq_lib::to_multiset_remove(t, a);
            assert(rest[b - 1] == x);
            assert(rest.to_multiset().count(x) > 0);
        }
    }
    assert forall|p: Seq<char>| t.contains(p) <==> s.contains(p) by {
        assert(t.to_multiset().count(p) == s.to_multiset().count(p));
    }
}

/// Compares two strings in lexical order.
pub fn str_le(a: &str, b: &str) -> (r: bool)
    ensures
        r == lex_le(a@, b@),
{
    broadcast use vstd::string::group_string_axioms;

    let mut ia = a.chars();
    let mut ib = b.chars();
    loop
        invariant
            ia.obeys_prophetic_iter_laws(),
            ib.obeys_prophetic_iter_laws(),
            ia.decrease() is Some,
            lex_le(a@, b@) == lex_le(ia.remaining(), ib.remaining()),
        decreases ia.decrease()->0,
    {
        match ia.next() {
            None => {
                return true;
            },
            Some(x) => {
                match ib.next() {
                    None => {
                        return false;
                    },
                    Some(y) => {
                        if x != y {
                            return x < y;
                        }
                    },
                }
            },
        }
    }
}

/// Sorts numbers in ascending order.
pub fn sort_numbers(v: &mut Vec<usize>)
    ensures
        final(v)@ == old(v)@.sort_by(num_order()),
{
    let mut i: usize = 0;
    while i < v.len()
        invariant
            i <= v.len(),
            v@.to_multiset() == old(v)@.to_multiset(),
            sorted_by(v@.take(i as int), num_order()),
        decreases v.len() - i,
    {
        let ghost before = v@;
        let x = v.remove(i);
        let mut j: usize = 0;
        while j < i && v[j] <= x
            invariant
                j <= i < before.len(),
                v@ == before.remove(i as int),
                x == before[i as int],
                forall|k: int| 0 <= k < j ==> #[trigger] before[k] <= x,
            decreases i - j,
        {
            j += 1;
        }
        v.insert(j, x);
        proof {
            lemma_num_total();
            lemma_insert_sorted(before, i as int, j as int, num_order());
        }
        i += 1;
    }
    proof {
        lemma_num_total();
        assert(v@.take(i as int) =~= v@);
        old(v)@.lemma_sort_by_ensures(num_order());
        lemma_sorted_unique(v@, old(v)@.sort_by(num_order()), num_order());
    }
}

/// Sorts strings in lexical order.
pub fn sort_names(v: &mut Vec<String>)
    ensures
        names(final(v)@) == names(old(v)@).sort_by(lex_order()),
{
    let mut i: usize = 0;
    while i < v.len()
        invariant
            i <= v.len(),
            names(v@).to_multiset() == names(old(v)@).to_multiset(),
            sorted_by(names(v@).take(i as int), lex_order()),
        decreases v.len() - i,
    {
        let ghost before = names(v@);
        let x = v.remove(i);
        let mut j: usize = 0;
        while j < i && str_le(v[j].as_str(), x.as_str())
            invariant
                j <= i < before.len(),
                v@.len() == before.len() - 1,
                names(v@) == before.remove(i as int),
                x@ == before[i as int],
                forall|k: int| 0 <= k < j ==> lex_le(#[trigger] before[k], x@),
            decreases i - j,
        {
            assert(names(v@)[j as int] == before[j as int]);
            j += 1;
        }
        let ghost mid = names(v@);
        v.insert(j, x);
        proof {
            assert(names(v@) =~= mid.insert(j as int, before[i as int]));
            lemma_lex_total();
            lemma_insert_sorted(before, i as int, j as int, lex_order());
        }
        i += 1;
    }
    proof {
        lemma_lex_total();
        assert(names(v@).take(i as int) =~= names(v@));
        names(old(v)@).lemma_sort_by_ensures(lex_order());
        lemma_sorted_unique(names(v@), names(old(v)@).sort_by(lex_order()), lex_order());
    }
}

} // verus!
