//! Small sequence lemmas shared by the loaders and assemblers.

use vstd::prelude::*;

verus! {

/// Filtering after appending one element: the element joins the result
/// exactly when it satisfies the predicate.
pub proof fn lemma_filter_push<A>(s: Seq<A>, x: A, pred: spec_fn(A) -> bool)
    ensures
        s.push(x).filter(pred) == if pred(x) {
            s.filter(pred).push(x)
        } else {
            s.filter(pred)
        },
{
    reveal(Seq::filter);
    assert(s.push(x).drop_last() =~= s);
    assert(s.push(x).last() == x);
}

/// Filtering twice nests: a second filter under a weaker predicate changes
/// nothing.
pub proof fn lemma_filter_filter<A>(s: Seq<A>, strong: spec_fn(A) -> bool, weak: spec_fn(A) -> bool)
    requires
        forall|x: A| #[trigger] strong(x) ==> weak(x),
    ensures
        s.filter(weak).filter(strong) == s.filter(strong),
    decreases s.len(),
{
    reveal(Seq::filter);
    if s.len() > 0 {
        lemma_filter_filter(s.drop_last(), strong, weak);
        if weak(s.last()) {
            lemma_filter_push(s.drop_last().filter(weak), s.last(), strong);
        }
    }
}

/// A filter under a predicate no element satisfies keeps nothing.
pub proof fn lemma_filter_none<A>(s: Seq<A>, pred: spec_fn(A) -> bool)
    requires
        forall|i: int| 0 <= i < s.len() ==> !pred(#[trigger] s[i]),
    ensures
        s.filter(pred) == Seq::<A>::empty(),
    decreases s.len(),
{
    reveal(Seq::filter);
    if s.len() > 0 {
        assert(forall|i: int| 0 <= i < s.drop_last().len() ==> s.drop_last()[i] == s[i]);
        lemma_filter_none(s.drop_last(), pred);
    }
}

/// A filter under a predicate every element satisfies keeps everything.
pub proof fn lemma_filter_all<A>(s: Seq<A>, pred: spec_fn(A) -> bool)
    requires
        forall|i: int| 0 <= i < s.len() ==> pred(#[trigger] s[i]),
    ensures
        s.filter(pred) == s,
    decreases s.len(),
{
    reveal(Seq::filter);
    if s.len() > 0 {
        assert(forall|i: int| 0 <= i < s.drop_last().len() ==> s.drop_last()[i] == s[i]);
        lemma_filter_all(s.drop_last(), pred);
        assert(s.drop_last().push(s.last()) =~= s);
    }
}

/// A filter of a sequence whose elements are pairwise distinguished by `f`
/// keeps them pairwise distinguished, and draws every element from the
/// original.
pub proof fn lemma_filter_distinct_by<A, B>(s: Seq<A>, pred: spec_fn(A) -> bool, f: spec_fn(A) -> B)
    requires
        forall|i: int, j: int| 0 <= i < j < s.len() ==> f(s[i]) != f(s[j]),
    ensures
        forall|i: int, j: int|
            0 <= i < j < s.filter(pred).len() ==> f(#[trigger] s.filter(pred)[i])
                != f(#[trigger] s.filter(pred)[j]),
        forall|i: int|
            0 <= i < s.filter(pred).len() ==> exists|t: int|
                0 <= t < s.len() && s[t] == #[trigger] s.filter(pred)[i],
    decreases s.len(),
{
    reveal(Seq::filter);
    if s.len() > 0 {
        let s0 = s.drop_last();
        assert(forall|i: int| 0 <= i < s0.len() ==> s0[i] == s[i]);
        lemma_filter_distinct_by(s0, pred, f);
        let sub = s0.filter(pred);
        assert forall|i: int| 0 <= i < s.filter(pred).len() implies exists|t: int|
            0 <= t < s.len() && s[t] == #[trigger] s.filter(pred)[i] by {
            if i < sub.len() {
                let t = choose|t: int| 0 <= t < s0.len() && s0[t] == sub[i];
                assert(s[t] == s.filter(pred)[i]);
            } else {
                assert(s.filter(pred)[i] == s.last());
                assert(s[s.len() - 1] == s.filter(pred)[i]);
            }
        }
        if pred(s.last()) {
            assert forall|i: int, j: int| 0 <= i < j < s.filter(pred).len() implies f(
                #[trigger] s.filter(pred)[i],
            ) != f(#[trigger] s.filter(pred)[j]) by {
                if j < sub.len() {
                } else {
                    assert(s.filter(pred)[j] == s.last());
                    let t = choose|t: int| 0 <= t < s0.len() && s0[t] == sub[i];
                    assert(f(s[t]) != f(s[s.len() - 1]));
                }
            }
        }
    }
}

} // verus!
