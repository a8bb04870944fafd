//! How often an item occurs in a sequence.

use vstd::multiset::axiom_multiset_add;
use vstd::multiset::axiom_multiset_empty;
use vstd::multiset::lemma_insert_increases_count_by_1;
use vstd::multiset::lemma_insert_other_elements_unchanged;
use vstd::prelude::*;
use vstd::seq_lib::lemma_multiset_commutative;
use vstd::seq_lib::to_multiset_build;

verus! {

/// How many times `x` occurs in `s`.
pub open spec fn occurrences(s: Seq<Seq<char>>, x: Seq<char>) -> nat {
    s.to_multiset().count(x)
}

/// Nothing occurs in the empty sequence.
pub proof fn lemma_occurrences_empty(x: Seq<char>)
    ensures
        occurrences(Seq::empty(), x) == 0,
{
    axiom_multiset_empty(x);
    assert(Seq::<Seq<char>>::empty().to_multiset() =~= vstd::multiset::Multiset::empty()) by {
        Seq::<Seq<char>>::empty().to_multiset_ensures();
        vstd::multiset::lemma_multiset_empty_len(Seq::<Seq<char>>::empty().to_multiset());
    }
}

/// What occurs in `a + b` occurs in `a` or in `b`, and as often as in both.
pub proof fn lemma_occurrences_add(a: Seq<Seq<char>>, b: Seq<Seq<char>>, x: Seq<char>)
    ensures
        occurrences(a + b, x) == occurrences(a, x) + occurrences(b, x),
{
    lemma_multiset_commutative(a, b);
    axiom_multiset_add(a.to_multiset(), b.to_multiset(), x);
}

/// One more item is one more occurrence of that item, and of no other.
pub proof fn lemma_occurrences_push(s: Seq<Seq<char>>, last: Seq<char>, x: Seq<char>)
    ensures
        occurrences(s.push(last), x) == occurrences(s, x) + if last == x {
            1nat
        } else {
            0nat
        },
{
    to_multiset_build(s, last);
    if last == x {
        lemma_insert_increases_count_by_1(s.to_multiset(), last);
    } else {
        lemma_insert_other_elements_unchanged(s.to_multiset(), last, x);
    }
}

/// An item occurs in `s` at least once exactly when `s` contains it.
pub proof fn lemma_occurrences_contains(s: Seq<Seq<char>>, x: Seq<char>)
    ensures
        s.contains(x) <==> occurrences(s, x) > 0,
{
    s.to_multiset_ensures();
}

/// Filtering keeps every occurrence of an item that satisfies the predicate
/// and none of an item that does not.
pub proof fn lemma_occurrences_filter(
    s: Seq<Seq<char>>,
    p: spec_fn(Seq<char>) -> bool,
    x: Seq<char>,
)
    ensures
        occurrences(s.filter(p), x) == if p(x) {
            occurrences(s, x)
        } else {
            0
        },
    decreases s.len(),
{
    reveal(Seq::filter);
    if s.len() == 0 {
        lemma_occurrences_empty(x);
        assert(s =~= Seq::empty());
    } else {
        let earlier = s.drop_last();
        let last = s.last();
        lemma_occurrences_filter(earlier, p, x);
        assert(s =~= earlier.push(last));
        lemma_occurrences_push(earlier, last, x);
        if p(last) {
            lemma_occurrences_push(earlier.filter(p), last, x);
        }
    }
}

} // verus!
