use vstd::prelude::*;

use crate::convergence::{converged, lemma_wf_set_permutation};
use crate::engine::{apply_comparison, next_step_with, updated_pair, Step};
use crate::item::{core_of, cores, wf_set, Item, DEVIATION_THRESHOLD_MILLIS};
use crate::sorting::{key_of, lemma_cores_update};

verus! {

/// How many times a deviation must be halved before it reaches the
/// threshold.
pub open spec fn halvings(d: int) -> nat
    decreases d,
{
    if d <= DEVIATION_THRESHOLD_MILLIS {
        0
    } else {
        1 + halvings(d / 2)
    }
}

/// The halvings a whole working set still needs, summed over the cores
/// of its items.
pub open spec fn pending_halvings(cs: Seq<(Seq<char>, i64, i64)>) -> nat
    decreases cs.len(),
{
    if cs.len() == 0 {
        0
    } else {
        halvings(cs[0].2 as int) + pending_halvings(cs.drop_first())
    }
}

/// Taking one core out takes exactly its own halvings out of the total.
pub proof fn lemma_pending_remove(cs: Seq<(Seq<char>, i64, i64)>, i: int)
    requires
        0 <= i < cs.len(),
    ensures
        pending_halvings(cs) == halvings(cs[i].2 as int) + pending_halvings(cs.remove(i)),
    decreases cs.len(),
{
    if i == 0 {
        assert(cs.remove(0) =~= cs.drop_first());
    } else {
        lemma_pending_remove(cs.drop_first(), i - 1);
        assert(cs.remove(i).drop_first() =~= cs.drop_first().remove(i - 1));
        assert(cs.remove(i)[0] == cs[0]);
    }
}

/// Rearranging the cores leaves the total untouched.
pub proof fn lemma_pending_permutation(cs: Seq<(Seq<char>, i64, i64)>, ct: Seq<(Seq<char>, i64, i64)>)
    requires
        cs.to_multiset() == ct.to_multiset(),
    ensures
        pending_halvings(cs) == pending_halvings(ct),
    decreases cs.len(),
{
    broadcast use vstd::seq_lib::group_to_multiset_ensures;

    if cs.len() == 0 {
        assert(cs.to_multiset().len() == cs.len());
        assert(ct.to_multiset().len() == ct.len());
    } else {
        let x = cs[0];
        assert(cs.contains(x));
        assert(ct.to_multiset().count(x) > 0);
        assert(ct.contains(x));
        let j = choose|j: int| 0 <= j < ct.len() && ct[j] == x;
        lemma_pending_remove(ct, j);
        assert(cs.remove(0) =~= cs.drop_first());
        assert(cs.drop_first().to_multiset() == cs.to_multiset().remove(x));
        assert(ct.remove(j).to_multiset() == ct.to_multiset().remove(x));
        lemma_pending_permutation(cs.drop_first(), ct.remove(j));
    }
}

/// Replacing one core trades its halvings for those of the newcomer.
pub proof fn lemma_pending_update(
    cs: Seq<(Seq<char>, i64, i64)>,
    i: int,
    c: (Seq<char>, i64, i64),
)
    requires
        0 <= i < cs.len(),
    ensures
        pending_halvings(cs.update(i, c)) + halvings(cs[i].2 as int) == pending_halvings(cs)
            + halvings(c.2 as int),
{
    lemma_pending_remove(cs, i);
    lemma_pending_remove(cs.update(i, c), i);
    assert(cs.update(i, c).remove(i) =~= cs.remove(i));
    assert(cs.update(i, c)[i] == c);
}

/// The convergence guarantee for a deviation-halving update: driven
/// always through the highest-deviation branch of the selector, an
/// update that halves both chosen deviations stabilizes any working set
/// after finitely many comparisons.  Termination rests on the shrinking
/// total of pending halvings; on return the set has converged.
pub fn run_halving_resort(items: &mut Vec<Item>)
    requires
        old(items)@.len() >= 2,
        old(items)@.len() <= 0x7fff_ffff_ffff_ffff,
        wf_set(old(items)@),
    ensures
        final(items)@.len() == old(items)@.len(),
        wf_set(final(items)@),
        converged(final(items)@),
{
    let ghost n = old(items)@.len() as int;
    let mut step = next_step_with(items, 1, 0, 0);
    proof {
        lemma_wf_set_permutation(old(items)@, items@);
    }
    loop
        invariant_except_break
            items@.len() == n,
            n >= 2,
            n <= 0x7fff_ffff_ffff_ffff,
            wf_set(items@),
            !(step is InsufficientData),
            step is Stabilized ==> converged(items@),
            (step matches Step::Compare { left, right } ==> left == n - 1 && right == n - 2
                && !converged(items@) && crate::sorting::sorted_by_key(items@, false)),
        ensures
            items@.len() == n,
            wf_set(items@),
            converged(items@),
        decreases pending_halvings(cores(items@)),
    {
        match step {
            Step::Compare { left, right } => {
                let ghost pre = items@;
                proof {
                    // The left item carries the set's highest deviation, and
                    // the set has not converged, so that deviation is still
                    // above the threshold.
                    let w = choose|w: int|
                        0 <= w < pre.len() && pre[w].deviation > DEVIATION_THRESHOLD_MILLIS;
                    if w < n - 1 {
                        assert(key_of(pre[w], false) <= key_of(pre[n - 1], false));
                    }
                    assert(pre[n - 1].deviation > DEVIATION_THRESHOLD_MILLIS);
                }
                let lr = items[left].rating;
                let ld = items[left].deviation / 2;
                let rr = items[right].rating;
                let rd = items[right].deviation / 2;
                apply_comparison(items, left, right, lr, ld, rr, rd);
                proof {
                    let l = left as int;
                    let r = right as int;
                    let la = Item { rating: lr, deviation: ld, ..pre[l] };
                    let rb = Item { rating: rr, deviation: rd, ..pre[r] };
                    let mid = pre.update(l, la);
                    let upd = updated_pair(pre, l, r, lr, ld, rr, rd);
                    lemma_cores_update(pre, l, la);
                    lemma_cores_update(mid, r, rb);
                    assert(cores(upd) == cores(pre).update(l, core_of(la)).update(r, core_of(rb)));
                    lemma_pending_update(cores(pre), l, core_of(la));
                    lemma_pending_update(cores(pre).update(l, core_of(la)), r, core_of(rb));
                    assert(cores(pre)[l] == core_of(pre[l]));
                    assert(cores(pre)[r] == core_of(pre[r]));
                    assert(cores(pre).update(l, core_of(la))[r] == cores(pre)[r]);
                    // The left deviation loses one pending halving; the right
                    // one loses none or more.
                    let dl = pre[l].deviation as int;
                    let dr = pre[r].deviation as int;
                    assert(halvings(dl) == 1 + halvings(ld as int));
                    if dr > DEVIATION_THRESHOLD_MILLIS {
                        assert(halvings(dr) == 1 + halvings(rd as int));
                    } else {
                        assert(halvings(rd as int) == 0 && halvings(dr) == 0);
                    }
                    assert(pending_halvings(cores(upd)) < pending_halvings(cores(pre)));
                    lemma_pending_permutation(cores(items@), cores(upd));
                }
                let ghost settled = items@;
                step = next_step_with(items, 1, 0, 0);
                proof {
                    lemma_wf_set_permutation(settled, items@);
                    lemma_pending_permutation(cores(settled), cores(items@));
                }
            },
            _ => {
                break;
            },
        }
    }
}

} // verus!
