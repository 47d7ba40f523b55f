//! Small general facts about sequences and their `filter`, used by the store
//! operations that build filtered views of the collections.

use vstd::prelude::*;

verus! {

/// Filtering one more element either appends it (when the predicate holds)
/// or leaves the filtered prefix unchanged.
pub proof fn lemma_filter_take_step<A>(s: Seq<A>, pred: spec_fn(A) -> bool, i: int)
    requires
        0 <= i < s.len(),
    ensures
        pred(s[i]) ==> s.take(i + 1).filter(pred) == s.take(i).filter(pred).push(s[i]),
        !pred(s[i]) ==> s.take(i + 1).filter(pred) == s.take(i).filter(pred),
{
    reveal(Seq::filter);
    let t1 = s.take(i + 1);
    let t0 = s.take(i);
    assert(t1.drop_last() =~= t0);
    assert(t1.last() == s[i]);
    if pred(s[i]) {
        assert(t1.filter(pred) =~= t0.filter(pred).push(s[i]));
    } else {
        assert(t1.filter(pred) =~= t0.filter(pred));
    }
}

/// Every element of a filtered sequence comes from the source sequence.
pub proof fn lemma_filter_in_source<A>(s: Seq<A>, pred: spec_fn(A) -> bool)
    ensures
        forall|k: int|
            0 <= k < s.filter(pred).len() ==> exists|a: int|
                0 <= a < s.len() && s[a] == #[trigger] s.filter(pred)[k],
    decreases s.len(),
{
    reveal(Seq::filter);
    if s.len() > 0 {
        let d = s.drop_last();
        lemma_filter_in_source(d, pred);
        let f = s.filter(pred);
        let fd = d.filter(pred);
        assert forall|k: int| 0 <= k < f.len() implies exists|a: int|
            0 <= a < s.len() && s[a] == #[trigger] f[k] by {
            if k < fd.len() {
                assert(f[k] == fd[k]);
                let a = choose|a: int| 0 <= a < d.len() && d[a] == fd[k];
                assert(s[a] == f[k]);
            } else {
                assert(f[k] == s.last());
                assert(s[s.len() - 1] == f[k]);
            }
        }
    }
}

} // verus!
