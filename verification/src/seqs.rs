//! Small reusable facts about sequence filtering.

use vstd::prelude::*;

verus! {

/// Filtering one more element appends it exactly when the predicate holds.
pub proof fn lemma_filter_push<A>(s: Seq<A>, i: int, pred: spec_fn(A) -> bool)
    requires
        0 <= i < s.len(),
    ensures
        s.take(i + 1).filter(pred) == if pred(s[i]) {
            s.take(i).filter(pred).push(s[i])
        } else {
            s.take(i).filter(pred)
        },
{
    assert(s.take(i + 1).drop_last() =~= s.take(i));
    assert(s.take(i + 1).last() == s[i]);
    reveal_with_fuel(Seq::filter, 2);
}

/// Every kept row stands somewhere in the source.
pub proof fn lemma_filter_from<A>(s: Seq<A>, pred: spec_fn(A) -> bool, i: int)
    requires
        0 <= i < s.filter(pred).len(),
    ensures
        exists|k: int| 0 <= k < s.len() && s[k] == s.filter(pred)[i],
    decreases s.len(),
{
    reveal_with_fuel(Seq::filter, 2);
    if s.len() > 0 {
        let dl = s.drop_last();
        let fdl = dl.filter(pred);
        if pred(s.last()) && i == s.filter(pred).len() - 1 {
            assert(s.filter(pred)[i] == s.last());
            assert(s[s.len() - 1] == s.filter(pred)[i]);
        } else {
            assert(s.filter(pred)[i] == fdl[i]);
            lemma_filter_from(dl, pred, i);
            let k = choose|k: int| 0 <= k < dl.len() && dl[k] == fdl[i];
            assert(s[k] == s.filter(pred)[i]);
        }
    }
}

/// A pairwise property of the rows survives filtering: the kept rows stand
/// in the original order.
pub proof fn lemma_filter_pairs<A>(s: Seq<A>, pred: spec_fn(A) -> bool, p: spec_fn(A, A) -> bool)
    requires
        forall|i: int, j: int| 0 <= i < j < s.len() ==> p(#[trigger] s[i], #[trigger] s[j]),
    ensures
        forall|i: int, j: int|
            0 <= i < j < s.filter(pred).len() ==> p(
                #[trigger] s.filter(pred)[i],
                #[trigger] s.filter(pred)[j],
            ),
    decreases s.len(),
{
    reveal_with_fuel(Seq::filter, 2);
    if s.len() > 0 {
        let dl = s.drop_last();
        assert(forall|i: int, j: int|
            0 <= i < j < dl.len() ==> p(#[trigger] dl[i], #[trigger] dl[j]));
        lemma_filter_pairs(dl, pred, p);
        let f = s.filter(pred);
        let fdl = dl.filter(pred);
        assert forall|i: int, j: int| 0 <= i < j < f.len() implies p(
            #[trigger] f[i],
            #[trigger] f[j],
        ) by {
            if pred(s.last()) {
                assert(f == fdl.push(s.last()));
                if j < f.len() - 1 {
                    assert(f[i] == fdl[i] && f[j] == fdl[j]);
                } else {
                    assert(f[j] == s.last());
                    assert(f[i] == fdl[i]);
                    lemma_filter_from(dl, pred, i);
                    let k = choose|k: int| 0 <= k < dl.len() && dl[k] == fdl[i];
                    assert(s[k] == fdl[i]);
                    assert(p(s[k], s[s.len() - 1]));
                }
            } else {
                assert(f == fdl);
            }
        }
    }
}

/// A property of every row survives filtering.
pub proof fn lemma_filter_all<A>(s: Seq<A>, pred: spec_fn(A) -> bool, q: spec_fn(A) -> bool)
    requires
        forall|i: int| 0 <= i < s.len() ==> q(#[trigger] s[i]),
    ensures
        forall|i: int| 0 <= i < s.filter(pred).len() ==> q(#[trigger] s.filter(pred)[i]),
{
    assert forall|i: int| 0 <= i < s.filter(pred).len() implies q(#[trigger] s.filter(pred)[i]) by {
        lemma_filter_from(s, pred, i);
        let k = choose|k: int| 0 <= k < s.len() && s[k] == s.filter(pred)[i];
        assert(q(s[k]));
    }
}

} // verus!
