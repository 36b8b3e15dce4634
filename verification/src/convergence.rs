use vstd::prelude::*;

use crate::item::{Item, DEVIATION_THRESHOLD_MILLIS};

verus! {

/// A working set has converged when no item's deviation is strictly
/// above the threshold; a deviation exactly at the threshold is settled.
pub open spec fn converged(s: Seq<Item>) -> bool {
    forall|i: int| 0 <= i < s.len() ==> #[trigger] s[i].deviation <= DEVIATION_THRESHOLD_MILLIS
}

/// Decides whether the working set needs another comparison round:
/// it does exactly when some deviation strictly exceeds the threshold.
pub fn all_converged(v: &Vec<Item>) -> (r: bool)
    ensures
        r == converged(v@),
{
    let n = v.len();
    let mut i: usize = 0;
    while i < n
        invariant
            i <= n,
            n == v@.len(),
            forall|k: int| 0 <= k < i ==> #[trigger] v@[k].deviation <= DEVIATION_THRESHOLD_MILLIS,
        decreases n - i,
    {
        if v[i].deviation > DEVIATION_THRESHOLD_MILLIS {
            return false;
        }
        i += 1;
    }
    true
}

/// A property of single items that holds everywhere in a sequence holds
/// everywhere in any rearrangement of it.
pub proof fn lemma_all_elements_permutation<A>(s: Seq<A>, t: Seq<A>, p: spec_fn(A) -> bool)
    requires
        s.to_multiset() == t.to_multiset(),
        forall|i: int| 0 <= i < s.len() ==> #[trigger] p(s[i]),
    ensures
        forall|i: int| 0 <= i < t.len() ==> #[trigger] p(t[i]),
{
    broadcast use vstd::seq_lib::group_to_multiset_ensures;

    assert forall|i: int| 0 <= i < t.len() implies #[trigger] p(t[i]) by {
        assert(t.contains(t[i]));
        assert(s.to_multiset().count(t[i]) > 0);
        assert(s.contains(t[i]));
        let j = choose|j: int| 0 <= j < s.len() && s[j] == t[i];
        assert(p(s[j]));
    }
}

/// Rearranging a working set keeps its deviations non-negative.
pub proof fn lemma_wf_set_permutation(s: Seq<Item>, t: Seq<Item>)
    requires
        s.to_multiset() == t.to_multiset(),
        crate::item::wf_set(s),
    ensures
        crate::item::wf_set(t),
{
    let p = |it: Item| it.deviation >= 0;
    assert(forall|i: int| 0 <= i < s.len() ==> #[trigger] p(s[i]));
    lemma_all_elements_permutation(s, t, p);
    assert forall|i: int| 0 <= i < t.len() implies #[trigger] t[i].deviation >= 0 by {
        assert(p(t[i]));
    }
}

/// Rearranging a working set neither makes it converged nor unsettles it.
pub proof fn lemma_converged_permutation(s: Seq<Item>, t: Seq<Item>)
    requires
        s.to_multiset() == t.to_multiset(),
    ensures
        converged(s) == converged(t),
{
    let p = |it: Item| it.deviation <= DEVIATION_THRESHOLD_MILLIS;
    if converged(s) {
        assert(forall|i: int| 0 <= i < s.len() ==> #[trigger] p(s[i]));
        lemma_all_elements_permutation(s, t, p);
        assert forall|i: int| 0 <= i < t.len() implies #[trigger] t[i].deviation
            <= DEVIATION_THRESHOLD_MILLIS by {
            assert(p(t[i]));
        }
    }
    if converged(t) {
        assert(forall|i: int| 0 <= i < t.len() ==> #[trigger] p(t[i]));
        lemma_all_elements_permutation(t, s, p);
        assert forall|i: int| 0 <= i < s.len() implies #[trigger] s[i].deviation
            <= DEVIATION_THRESHOLD_MILLIS by {
            assert(p(s[i]));
        }
    }
}

} // verus!
