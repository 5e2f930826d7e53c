//! Facts about sequences taken as bags: the multisets of their elements.

use vstd::multiset::Multiset;
use vstd::prelude::*;
use vstd::seq_lib::lemma_multiset_commutative;
use vstd::seq_lib::to_multiset_build;
use vstd::seq_lib::to_multiset_remove;

verus! {

/// Two sequences hold the same elements, each as often as the other.
pub open spec fn same_elements<A>(s: Seq<A>, t: Seq<A>) -> bool {
    s.to_multiset() =~= t.to_multiset()
}

/// Sequences with the same elements have the same length.
pub proof fn lemma_same_elements_len<A>(s: Seq<A>, t: Seq<A>)
    requires
        same_elements(s, t),
    ensures
        s.len() == t.len(),
{
    broadcast use vstd::seq_lib::group_to_multiset_ensures;

    assert(s.to_multiset().len() == s.len());
    assert(t.to_multiset().len() == t.len());
}

/// Mapping two sequences with the same elements gives sequences with the
/// same elements.
pub proof fn lemma_same_elements_map<A, B>(s: Seq<A>, t: Seq<A>, f: spec_fn(A) -> B)
    requires
        same_elements(s, t),
    ensures
        same_elements(s.map_values(f), t.map_values(f)),
    decreases s.len(),
{
    broadcast use vstd::seq_lib::group_to_multiset_ensures;
    broadcast use vstd::multiset::group_multiset_axioms;

    lemma_same_elements_len(s, t);
    if s.len() == 0 {
        assert(s.map_values(f) =~= t.map_values(f));
    } else {
        let e = s.last();
        let rest = s.drop_last();
        assert(rest.push(e) =~= s);
        to_multiset_build(rest, e);
        assert(s.to_multiset().count(e) > 0);
        assert(t.to_multiset().count(e) > 0);
        assert(t.contains(e));
        let i = choose|i: int| 0 <= i < t.len() && t[i] == e;
        let others = t.remove(i);
        to_multiset_remove(t, i);
        assert(rest.to_multiset() =~= s.to_multiset().remove(e));
        assert(same_elements(rest, others));
        lemma_same_elements_map(rest, others, f);
        assert(s.map_values(f) =~= rest.map_values(f).push(f(e)));
        to_multiset_build(rest.map_values(f), f(e));
        assert(t.map_values(f).remove(i) =~= others.map_values(f));
        to_multiset_remove(t.map_values(f), i);
        assert(t.map_values(f)[i] == f(e));
        assert(t.map_values(f).to_multiset() =~= others.map_values(f).to_multiset().insert(f(e)));
    }
}

/// The elements of a concatenation are those of its two parts.
pub proof fn lemma_elements_add<A>(s: Seq<A>, t: Seq<A>)
    ensures
        (s + t).to_multiset() =~= s.to_multiset().add(t.to_multiset()),
{
    lemma_multiset_commutative(s, t);
}

/// Taking one element out of a sequence takes it out of the filtered
/// sequence, if it passes the filter.
pub proof fn lemma_filter_remove<A>(t: Seq<A>, i: int, p: spec_fn(A) -> bool)
    requires
        0 <= i < t.len(),
    ensures
        t.filter(p).to_multiset() =~= if p(t[i]) {
            t.remove(i).filter(p).to_multiset().insert(t[i])
        } else {
            t.remove(i).filter(p).to_multiset()
        },
{
    broadcast use vstd::seq_lib::group_to_multiset_ensures;
    broadcast use vstd::multiset::group_multiset_axioms;

    reveal(Seq::filter);
    let front = t.take(i);
    let back = t.skip(i + 1);
    let one = seq![t[i]];
    assert(t =~= front + one + back);
    assert(t.remove(i) =~= front + back);
    Seq::filter_distributes_over_add(front + one, back, p);
    Seq::filter_distributes_over_add(front, one, p);
    Seq::filter_distributes_over_add(front, back, p);
    lemma_elements_add(front.filter(p) + one.filter(p), back.filter(p));
    lemma_elements_add(front.filter(p), one.filter(p));
    lemma_elements_add(front.filter(p), back.filter(p));
    assert(one.drop_last() =~= Seq::<A>::empty());
    assert(Seq::<A>::empty().filter(p) =~= Seq::<A>::empty());
    if p(t[i]) {
        assert(one.filter(p) =~= one);
        assert(one =~= Seq::<A>::empty().push(t[i]));
        to_multiset_build(Seq::<A>::empty(), t[i]);
        assert(one.to_multiset() =~= Multiset::<A>::empty().insert(t[i]));
    } else {
        assert(one.filter(p) =~= Seq::<A>::empty());
    }
}

/// Filtering two sequences with the same elements gives sequences with the
/// same elements.
pub proof fn lemma_same_elements_filter<A>(s: Seq<A>, t: Seq<A>, p: spec_fn(A) -> bool)
    requires
        same_elements(s, t),
    ensures
        same_elements(s.filter(p), t.filter(p)),
    decreases s.len(),
{
    broadcast use vstd::seq_lib::group_to_multiset_ensures;
    broadcast use vstd::multiset::group_multiset_axioms;

    reveal(Seq::filter);
    lemma_same_elements_len(s, t);
    if s.len() == 0 {
        assert(s.filter(p) =~= t.filter(p));
    } else {
        let e = s.last();
        let rest = s.drop_last();
        assert(rest.push(e) =~= s);
        to_multiset_build(rest, e);
        assert(s.to_multiset().count(e) > 0);
        assert(t.contains(e));
        let i = choose|i: int| 0 <= i < t.len() && t[i] == e;
        let others = t.remove(i);
        to_multiset_remove(t, i);
        assert(rest.to_multiset() =~= s.to_multiset().remove(e));
        assert(same_elements(rest, others));
        lemma_same_elements_filter(rest, others, p);
        lemma_filter_remove(t, i, p);
        if p(e) {
            to_multiset_build(rest.filter(p), e);
        }
    }
}

/// Sequences with the same elements hold the same values.
pub proof fn lemma_same_elements_contains<A>(s: Seq<A>, t: Seq<A>, x: A)
    requires
        same_elements(s, t),
    ensures
        s.contains(x) == t.contains(x),
{
    broadcast use vstd::seq_lib::group_to_multiset_ensures;

    assert(s.contains(x) <==> s.to_multiset().count(x) > 0);
    assert(t.contains(x) <==> t.to_multiset().count(x) > 0);
}

/// Two concatenations of sequences with the same elements have the same
/// elements.
pub proof fn lemma_same_elements_add<A>(s1: Seq<A>, s2: Seq<A>, t1: Seq<A>, t2: Seq<A>)
    requires
        same_elements(s1, t1),
        same_elements(s2, t2),
    ensures
        same_elements(s1 + s2, t1 + t2),
{
    lemma_elements_add(s1, s2);
    lemma_elements_add(t1, t2);
}

} // verus!
