//! Counting elements of a sequence that satisfy a predicate, and how such
//! counts and element multisets behave under permutation and point updates.

use vstd::multiset::Multiset;
use vstd::prelude::*;
use vstd::seq_lib::lemma_multiset_commutative;

verus! {

/// How many elements of the sequence satisfy the predicate.
pub open spec fn count_matching<T>(s: Seq<T>, f: spec_fn(T) -> bool) -> nat
    decreases s.len(),
{
    if s.len() == 0 {
        0
    } else {
        count_matching(s.drop_last(), f) + (if f(s.last()) {
            1nat
        } else {
            0nat
        })
    }
}

/// Filtering a multiset after inserting one element either inserts that
/// element into the filtered multiset or leaves it unchanged, according to
/// whether the element satisfies the predicate.
pub proof fn lemma_filter_insert<T>(m: Multiset<T>, f: spec_fn(T) -> bool, x: T)
    ensures
        f(x) ==> m.insert(x).filter(f) == m.filter(f).insert(x),
        !f(x) ==> m.insert(x).filter(f) == m.filter(f),
{
    broadcast use vstd::multiset::group_multiset_axioms;

    if f(x) {
        assert(m.insert(x).filter(f) =~= m.filter(f).insert(x));
    } else {
        assert(m.insert(x).filter(f) =~= m.filter(f));
    }
}

/// The count of matching elements in a sequence is the size of the matching
/// part of its multiset, so it is invariant under reordering.
pub proof fn lemma_count_matching_multiset<T>(s: Seq<T>, f: spec_fn(T) -> bool)
    ensures
        s.to_multiset().filter(f).len() == count_matching(s, f),
    decreases s.len(),
{
    broadcast use vstd::seq_lib::group_to_multiset_ensures;
    broadcast use vstd::multiset::group_multiset_axioms;

    if s.len() == 0 {
        assert(s.to_multiset() =~= Multiset::<T>::empty());
        assert(s.to_multiset().filter(f) =~= Multiset::<T>::empty());
    } else {
        let s0 = s.drop_last();
        let x = s.last();
        lemma_count_matching_multiset(s0, f);
        assert(s =~= s0.push(x));
        assert(s.to_multiset() == s0.to_multiset().insert(x));
        lemma_filter_insert(s0.to_multiset(), f, x);
        vstd::multiset::lemma_insert_len(s0.to_multiset().filter(f), x);
    }
}

/// Sequences with equal multisets have equal matching counts.
pub proof fn lemma_count_matching_permutation<T>(s1: Seq<T>, s2: Seq<T>, f: spec_fn(T) -> bool)
    requires
        s1.to_multiset() == s2.to_multiset(),
    ensures
        count_matching(s1, f) == count_matching(s2, f),
{
    lemma_count_matching_multiset(s1, f);
    lemma_count_matching_multiset(s2, f);
}

/// Updating one position of a sequence removes the old element from its
/// multiset and inserts the new one.
pub proof fn lemma_update_to_multiset<T>(s: Seq<T>, i: int, x: T)
    requires
        0 <= i < s.len(),
    ensures
        s.update(i, x).to_multiset() == s.to_multiset().remove(s[i]).insert(x),
{
    broadcast use vstd::seq_lib::group_to_multiset_ensures;
    broadcast use vstd::multiset::group_multiset_axioms;

    let prefix = s.subrange(0, i);
    let suffix = s.subrange(i + 1, s.len() as int);
    assert(s =~= prefix + seq![s[i]] + suffix);
    assert(s.update(i, x) =~= prefix + seq![x] + suffix);
    lemma_multiset_commutative(prefix + seq![s[i]], suffix);
    lemma_multiset_commutative(prefix, seq![s[i]]);
    lemma_multiset_commutative(prefix + seq![x], suffix);
    lemma_multiset_commutative(prefix, seq![x]);
    assert(seq![s[i]].to_multiset() =~= Multiset::<T>::empty().insert(s[i]));
    assert(seq![x].to_multiset() =~= Multiset::<T>::empty().insert(x));
    assert(s.update(i, x).to_multiset() =~= s.to_multiset().remove(s[i]).insert(x));
}

/// Appending an element to a sequence inserts it into the multiset.
pub proof fn lemma_push_to_multiset<T>(s: Seq<T>, x: T)
    ensures
        s.push(x).to_multiset() == s.to_multiset().insert(x),
{
    broadcast use vstd::seq_lib::group_to_multiset_ensures;

}

/// Dropping the last element of a sequence removes it from the multiset.
pub proof fn lemma_drop_last_to_multiset<T>(s: Seq<T>)
    requires
        s.len() > 0,
    ensures
        s.drop_last().to_multiset() == s.to_multiset().remove(s.last()),
{
    broadcast use vstd::seq_lib::group_to_multiset_ensures;
    broadcast use vstd::multiset::group_multiset_axioms;

    assert(s =~= s.drop_last().push(s.last()));
    assert(s.to_multiset() == s.drop_last().to_multiset().insert(s.last()));
    assert(s.drop_last().to_multiset() =~= s.to_multiset().remove(s.last()));
}

} // verus!
