//! General facts about filtering sequences, used by the stores.
use vstd::prelude::*;

verus! {

broadcast use {vstd::seq_lib::group_seq_properties, vstd::seq::group_seq_axioms};

/// Filtering keeps everything when the predicate holds throughout.
pub proof fn lemma_filter_all<A>(s: Seq<A>, p: spec_fn(A) -> bool)
    requires
        forall|i: int| 0 <= i < s.len() ==> p(s[i]),
    ensures
        s.filter(p) == s,
    decreases s.len(),
{
    reveal(Seq::filter);
    if s.len() > 0 {
        lemma_filter_all(s.drop_last(), p);
        assert(s.drop_last().push(s.last()) =~= s);
    }
}

/// Filtering keeps nothing when the predicate fails throughout.
pub proof fn lemma_filter_none<A>(s: Seq<A>, p: spec_fn(A) -> bool)
    requires
        forall|i: int| 0 <= i < s.len() ==> !p(s[i]),
    ensures
        s.filter(p) == Seq::<A>::empty(),
    decreases s.len(),
{
    reveal(Seq::filter);
    if s.len() > 0 {
        lemma_filter_none(s.drop_last(), p);
    }
}

/// When the predicate holds exactly on the first `k` elements, filtering
/// keeps those.
pub proof fn lemma_filter_prefix<A>(s: Seq<A>, p: spec_fn(A) -> bool, k: int)
    requires
        0 <= k <= s.len(),
        forall|i: int| 0 <= i < k ==> p(s[i]),
        forall|i: int| k <= i < s.len() ==> !p(s[i]),
    ensures
        s.filter(p) == s.take(k),
{
    let a = s.take(k);
    let b = s.skip(k);
    assert(s =~= a + b);
    Seq::filter_distributes_over_add(a, b, p);
    lemma_filter_all(a, p);
    lemma_filter_none(b, p);
    assert(a + Seq::<A>::empty() =~= a);
}

/// When the predicate holds exactly on the elements from `k` on, filtering
/// keeps those.
pub proof fn lemma_filter_suffix<A>(s: Seq<A>, p: spec_fn(A) -> bool, k: int)
    requires
        0 <= k <= s.len(),
        forall|i: int| 0 <= i < k ==> !p(s[i]),
        forall|i: int| k <= i < s.len() ==> p(s[i]),
    ensures
        s.filter(p) == s.skip(k),
{
    let a = s.take(k);
    let b = s.skip(k);
    assert(s =~= a + b);
    Seq::filter_distributes_over_add(a, b, p);
    lemma_filter_none(a, p);
    lemma_filter_all(b, p);
    assert(Seq::<A>::empty() + b =~= b);
}

/// One step of a filtering loop: the filter of the first `i + 1` elements.
pub proof fn lemma_filter_take_step<A>(s: Seq<A>, p: spec_fn(A) -> bool, i: int)
    requires
        0 <= i < s.len(),
    ensures
        s.take(i + 1).filter(p) == if p(s[i]) {
            s.take(i).filter(p).push(s[i])
        } else {
            s.take(i).filter(p)
        },
{
    assert(s.take(i + 1) =~= s.take(i).push(s[i]));
    s.take(i).lemma_filter_push(s[i], p);
}

/// An element is kept by a filter exactly when it occurs and satisfies the
/// predicate.
pub proof fn lemma_filter_contains_iff<A>(s: Seq<A>, p: spec_fn(A) -> bool, x: A)
    ensures
        s.filter(p).contains(x) <==> (s.contains(x) && p(x)),
{
    if s.filter(p).contains(x) {
        s.lemma_filter_contains_rev(p, x);
        let j = choose|j: int| 0 <= j < s.filter(p).len() && s.filter(p)[j] == x;
        s.lemma_filter_pred(p, j);
    }
    if s.contains(x) && p(x) {
        let i = choose|i: int| 0 <= i < s.len() && s[i] == x;
        s.lemma_filter_contains(p, i);
    }
}

/// Filtering commutes with a map that the predicate cannot tell apart.
pub proof fn lemma_filter_map_invariant<A>(s: Seq<A>, p: spec_fn(A) -> bool, f: spec_fn(A) -> A)
    requires
        forall|x: A| #[trigger] p(f(x)) <==> p(x),
    ensures
        s.map_values(f).filter(p) == s.filter(p).map_values(f),
    decreases s.len(),
{
    reveal(Seq::filter);
    if s.len() > 0 {
        let r = s.drop_last();
        lemma_filter_map_invariant(r, p, f);
        assert(s.map_values(f).drop_last() =~= r.map_values(f));
        assert(s =~= r.push(s.last()));
        r.lemma_push_map_commute(f, s.last());
        r.filter(p).lemma_push_map_commute(f, s.last());
    }
}

} // verus!
