//! Small facts about sequences used across the projections.

use vstd::prelude::*;

verus! {

/// The first index of `s` whose element satisfies `f`, if any.
pub open spec fn first_index<A>(s: Seq<A>, f: spec_fn(A) -> bool) -> Option<int> {
    if exists|i: int| 0 <= i < s.len() && f(s[i]) && forall|j: int| 0 <= j < i ==> !f(#[trigger] s[j]) {
        Some(choose|i: int| 0 <= i < s.len() && f(s[i]) && forall|j: int| 0 <= j < i ==> !f(#[trigger] s[j]))
    } else {
        None
    }
}

pub proof fn lemma_first_index_is<A>(s: Seq<A>, f: spec_fn(A) -> bool, i: int)
    requires
        0 <= i < s.len(),
        f(s[i]),
        forall|j: int| 0 <= j < i ==> !f(#[trigger] s[j]),
    ensures
        first_index(s, f) == Some(i),
{
    let k = choose|k: int| 0 <= k < s.len() && f(s[k]) && forall|j: int| 0 <= j < k ==> !f(#[trigger] s[j]);
    if k < i {
        assert(!f(s[k]));
    } else if k > i {
        assert(!f(s[i]));
    }
}

pub proof fn lemma_first_index_none<A>(s: Seq<A>, f: spec_fn(A) -> bool)
    requires
        forall|j: int| 0 <= j < s.len() ==> !f(#[trigger] s[j]),
    ensures
        first_index(s, f) is None,
{
}

/// The number of elements of `s` satisfying `f`.
pub open spec fn count_where<A>(s: Seq<A>, f: spec_fn(A) -> bool) -> nat
    decreases s.len(),
{
    if s.len() == 0 {
        0
    } else {
        count_where(s.drop_last(), f) + if f(s.last()) { 1nat } else { 0nat }
    }
}

pub proof fn lemma_count_where_bound<A>(s: Seq<A>, f: spec_fn(A) -> bool)
    ensures
        count_where(s, f) <= s.len(),
    decreases s.len(),
{
    if s.len() > 0 {
        lemma_count_where_bound(s.drop_last(), f);
    }
}

/// A predicate that holds nowhere counts nothing.
pub proof fn lemma_count_where_none<A>(s: Seq<A>, f: spec_fn(A) -> bool)
    requires
        forall|x: A| !#[trigger] f(x),
    ensures
        count_where(s, f) == 0,
    decreases s.len(),
{
    if s.len() > 0 {
        lemma_count_where_none(s.drop_last(), f);
    }
}

/// A predicate that implies another counts no more.
pub proof fn lemma_count_where_mono<A>(s: Seq<A>, f: spec_fn(A) -> bool, g: spec_fn(A) -> bool)
    requires
        forall|x: A| #[trigger] f(x) ==> g(x),
    ensures
        count_where(s, f) <= count_where(s, g),
    decreases s.len(),
{
    if s.len() > 0 {
        lemma_count_where_mono(s.drop_last(), f, g);
    }
}

/// Counting an either-or of two predicates that never hold together adds the counts.
pub proof fn lemma_count_where_disjoint<A>(s: Seq<A>, f: spec_fn(A) -> bool, g: spec_fn(A) -> bool, h: spec_fn(A) -> bool)
    requires
        forall|x: A| #[trigger] h(x) == (f(x) || g(x)),
        forall|x: A| !(#[trigger] f(x) && g(x)),
    ensures
        count_where(s, h) == count_where(s, f) + count_where(s, g),
    decreases s.len(),
{
    if s.len() > 0 {
        lemma_count_where_disjoint(s.drop_last(), f, g, h);
        assert(h(s.last()) == (f(s.last()) || g(s.last())));
        assert(!(f(s.last()) && g(s.last())));
    }
}

/// Counting over a mapped sequence is counting the composed predicate.
pub proof fn lemma_count_where_map<A, B>(s: Seq<A>, m: spec_fn(A) -> B, f: spec_fn(B) -> bool, g: spec_fn(A) -> bool)
    requires
        forall|x: A| #[trigger] g(x) == f(m(x)),
    ensures
        count_where(s.map_values(m), f) == count_where(s, g),
    decreases s.len(),
{
    if s.len() > 0 {
        lemma_count_where_map(s.drop_last(), m, f, g);
        assert(s.map_values(m).drop_last() == s.drop_last().map_values(m));
        assert(g(s.last()) == f(m(s.last())));
    }
}

/// Unfolds `count_where` over a prefix grown by one element.
pub proof fn lemma_count_where_step<A>(s: Seq<A>, f: spec_fn(A) -> bool, i: int)
    requires
        0 <= i < s.len(),
    ensures
        count_where(s.take(i + 1), f) == count_where(s.take(i), f) + if f(s[i]) { 1nat } else { 0nat },
{
    assert(s.take(i + 1).drop_last() == s.take(i));
}

/// The positions below `n` whose index satisfies `p`, ascending.
pub open spec fn positions_where(n: int, p: spec_fn(int) -> bool) -> Seq<usize>
    decreases n,
{
    if n <= 0 {
        Seq::empty()
    } else {
        positions_where(n - 1, p) + if p(n - 1) { seq![(n - 1) as usize] } else { Seq::<usize>::empty() }
    }
}

/// Mapping two sequences with the same elements gives sequences with the same
/// elements.
pub proof fn lemma_map_values_multiset<A, B>(s1: Seq<A>, s2: Seq<A>, f: spec_fn(A) -> B)
    requires
        s1.to_multiset() == s2.to_multiset(),
    ensures
        s1.map_values(f).to_multiset() == s2.map_values(f).to_multiset(),
    decreases s1.len(),
{
    broadcast use vstd::seq_lib::to_multiset_build, vstd::seq_lib::to_multiset_remove,
        vstd::seq_lib::to_multiset_contains, vstd::seq_lib::to_multiset_len,
        vstd::seq_lib::to_multiset_insert, vstd::multiset::group_multiset_axioms;

    if s1.len() == 0 {
        assert(s1.to_multiset().len() == 0);
        assert(s2.to_multiset().len() == s2.len());
        assert(s2.len() == 0);
        assert(s1.map_values(f) =~= s2.map_values(f));
    } else {
        let a = s1.last();
        let t1 = s1.drop_last();
        assert(s1 == t1.push(a));
        assert(s2.to_multiset().count(a) > 0);
        assert(s2.contains(a));
        let i = choose|i: int| 0 <= i < s2.len() && s2[i] == a;
        let t2 = s2.remove(i);
        assert(t2.len() == s2.len() - 1);
        assert(t1.to_multiset() =~= t2.to_multiset());
        lemma_map_values_multiset(t1, t2, f);
        assert(s1.map_values(f) =~= t1.map_values(f).push(f(a)));
        assert(s2.map_values(f) =~= t2.map_values(f).insert(i, f(a)));
    }
}

} // verus!
