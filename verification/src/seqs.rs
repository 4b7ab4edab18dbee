//! Shared lemmas about sequence filtering, used by the stores that model
//! their tables and instance lists as sequences.

use vstd::prelude::*;

verus! {

/// Filtering distributes over push: the pushed element stays exactly when it
/// satisfies the predicate.
pub broadcast proof fn lemma_filter_push<A>(s: Seq<A>, p: spec_fn(A) -> bool, e: A)
    ensures
        #[trigger] s.push(e).filter(p) == if p(e) {
            s.filter(p).push(e)
        } else {
            s.filter(p)
        },
{
    reveal(Seq::filter);
    assert(s.push(e).drop_last() =~= s);
}

/// Filtering is idempotent.
pub broadcast proof fn lemma_filter_idempotent<A>(s: Seq<A>, p: spec_fn(A) -> bool)
    ensures
        #[trigger] s.filter(p).filter(p) == s.filter(p),
    decreases s.len(),
{
    reveal(Seq::filter);
    if s.len() == 0 {
        assert(s.filter(p) =~= Seq::<A>::empty());
    } else {
        let d = s.drop_last();
        lemma_filter_idempotent(d, p);
        if p(s.last()) {
            lemma_filter_push(d.filter(p), p, s.last());
            assert(d.filter(p).push(s.last()) =~= s.filter(p));
        }
    }
}

} // verus!
