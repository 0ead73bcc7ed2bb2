//! What a filter leaves of a sequence.

use vstd::prelude::*;

verus! {

/// What a filter lets through is what was there and is wanted.
pub proof fn lemma_filter_members<A>(s: Seq<A>, pred: spec_fn(A) -> bool)
    ensures
        forall|x: A| #[trigger] s.filter(pred).contains(x) <==> s.contains(x) && pred(x),
{
    assert forall|x: A| #[trigger] s.filter(pred).contains(x) <==> s.contains(x) && pred(x) by {
        if s.filter(pred).contains(x) {
            s.lemma_filter_contains_rev(pred, x);
            let i = choose|i: int| 0 <= i < s.filter(pred).len() && s.filter(pred)[i] == x;
            s.lemma_filter_pred(pred, i);
        }
        if s.contains(x) && pred(x) {
            let i = choose|i: int| 0 <= i < s.len() && s[i] == x;
            s.lemma_filter_contains(pred, i);
        }
    }
}

/// A filter keeps everything where everything is wanted, and nothing where
/// nothing is.
pub proof fn lemma_filter_all_or_none<A>(s: Seq<A>, pred: spec_fn(A) -> bool, all: bool)
    requires
        forall|i: int| 0 <= i < s.len() ==> pred(#[trigger] s[i]) == all,
    ensures
        s.filter(pred) == (if all {
            s
        } else {
            Seq::empty()
        }),
    decreases s.len(),
{
    reveal(Seq::filter);
    if s.len() > 0 {
        lemma_filter_all_or_none(s.drop_last(), pred, all);
        assert(pred(s.last()) == all);
        assert(s.drop_last().push(s.last()) =~= s);
    }
}

/// What is left of a list without repetitions has none.
pub proof fn lemma_filter_distinct<A>(s: Seq<A>, pred: spec_fn(A) -> bool)
    requires
        s.no_duplicates(),
    ensures
        s.filter(pred).no_duplicates(),
    decreases s.len(),
{
    reveal(Seq::filter);
    if s.len() > 0 {
        let t = s.drop_last();
        lemma_filter_distinct(t, pred);
        lemma_filter_members(t, pred);
        if pred(s.last()) {
            let f = t.filter(pred);
            assert(!t.contains(s.last()));
            assert forall|i: int| 0 <= i < f.len() implies f[i] != s.last() by {
                assert(f.contains(f[i]));
            }
        }
    }
}

} // verus!
