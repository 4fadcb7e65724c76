use vstd::prelude::*;

verus! {

/// `a` is `b` with some elements left out: `idx` gives, for each element of
/// `a`, the strictly increasing position in `b` that it was taken from.
pub open spec fn picks<A>(a: Seq<A>, b: Seq<A>, idx: Seq<int>) -> bool {
    &&& idx.len() == a.len()
    &&& forall|k: int| 0 <= k < a.len() ==> 0 <= #[trigger] idx[k] < b.len() && a[k] == b[idx[k]]
    &&& forall|j: int, k: int| 0 <= j < k < a.len() ==> #[trigger] idx[j] < #[trigger] idx[k]
}

/// `a` is a subsequence of `b`: the same elements, in the same order, with
/// some of `b`'s left out.
pub open spec fn is_subsequence<A>(a: Seq<A>, b: Seq<A>) -> bool {
    exists|idx: Seq<int>| picks(a, b, idx)
}

/// Filtering a sequence with one more element at its end.
pub proof fn lemma_filter_push<A>(s: Seq<A>, x: A, p: spec_fn(A) -> bool)
    ensures
        s.push(x).filter(p) == (if p(x) {
            s.filter(p).push(x)
        } else {
            s.filter(p)
        }),
{
    reveal(Seq::filter);
    assert(s.push(x).drop_last() =~= s);
}

/// A filter that every element passes keeps the sequence whole.
pub proof fn lemma_filter_all<A>(s: Seq<A>, p: spec_fn(A) -> bool)
    requires
        forall|x: A| #[trigger] p(x),
    ensures
        s.filter(p) == s,
    decreases s.len(),
{
    reveal(Seq::filter);
    if s.len() > 0 {
        lemma_filter_all(s.drop_last(), p);
        assert(s.drop_last().push(s.last()) =~= s);
    }
}

/// A filter keeps the elements it keeps in their order.
pub proof fn lemma_filter_subsequence<A>(s: Seq<A>, p: spec_fn(A) -> bool)
    ensures
        is_subsequence(s.filter(p), s),
    decreases s.len(),
{
    reveal(Seq::filter);
    if s.len() == 0 {
        assert(picks(s.filter(p), s, Seq::<int>::empty()));
    } else {
        let t = s.drop_last();
        lemma_filter_subsequence(t, p);
        let idx = choose|idx: Seq<int>| picks(t.filter(p), t, idx);
        if p(s.last()) {
            let idx2 = idx.push(s.len() - 1);
            assert(picks(s.filter(p), s, idx2));
        } else {
            assert(picks(s.filter(p), s, idx));
        }
    }
}

/// An element of `s` is kept by `filter` exactly when `p` holds of it, and
/// every element kept satisfies `p`.
pub proof fn lemma_filter_exact<A>(s: Seq<A>, p: spec_fn(A) -> bool)
    ensures
        forall|k: int| 0 <= k < s.len() ==> (#[trigger] s.filter(p).contains(s[k]) <==> p(s[k])),
        forall|k: int| 0 <= k < s.filter(p).len() ==> p(#[trigger] s.filter(p)[k]),
{
    broadcast use vstd::seq_lib::group_filter_ensures;

    assert forall|k: int| 0 <= k < s.len() && #[trigger] s.filter(p).contains(s[k]) implies p(
        s[k],
    ) by {
        let j = choose|j: int| 0 <= j < s.filter(p).len() && s.filter(p)[j] == s[k];
        assert(p(s.filter(p)[j]));
    }
}

} // verus!
