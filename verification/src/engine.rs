use vstd::prelude::*;

use crate::bucket::{bucketize, bucketize_rel};
use crate::convergence::{all_converged, converged, lemma_converged_permutation};
use crate::item::{cores, wf_set, Item};
use crate::select::{select_pair, select_pair_with, shuffle_items};
use crate::sorting::sorted_by_key;

verus! {

/// What the resort loop should do next.  `Compare` names the two
/// positions of the working set to put before the oracle; `Stabilized`
/// means every deviation is at or below the threshold and the run is
/// over; `InsufficientData` means the set is too small to sort at all.
#[derive(Clone, Copy, Debug, PartialEq, Eq, Structural)]
pub enum Step {
    InsufficientData,
    Stabilized,
    Compare { left: usize, right: usize },
}

/// The working set with the ratings of one compared pair replaced by
/// the values the rating update handed back.
pub open spec fn updated_pair(
    s: Seq<Item>,
    l: int,
    r: int,
    lr: i64,
    ld: i64,
    rr: i64,
    rd: i64,
) -> Seq<Item> {
    s.update(l, Item { rating: lr, deviation: ld, ..s[l] }).update(
        r,
        Item { rating: rr, deviation: rd, ..s[r] },
    )
}

/// Opens a resort run: shuffles the working set once so the input order
/// cannot bias the questions, then either reports that sorting is
/// impossible (fewer than two items, set untouched), already done, or
/// proposes the first pair.
pub fn begin_resort(items: &mut Vec<Item>) -> (r: Step)
    ensures
        final(items)@.len() == old(items)@.len(),
        final(items)@.to_multiset() == old(items)@.to_multiset(),
        cores(final(items)@).to_multiset() == cores(old(items)@).to_multiset(),
        (r is InsufficientData) <==> old(items)@.len() < 2,
        old(items)@.len() < 2 ==> final(items)@ == old(items)@,
        (r is Stabilized) <==> old(items)@.len() >= 2 && converged(old(items)@),
        (r matches Step::Compare { left, right } ==> left < old(items)@.len() && right < old(
            items,
        )@.len() && left != right && !converged(final(items)@)),
{
    if items.len() < 2 {
        return Step::InsufficientData;
    }
    shuffle_items(items);
    proof {
        lemma_converged_permutation(old(items)@, items@);
    }
    if all_converged(items) {
        return Step::Stabilized;
    }
    let ghost pre = items@;
    let pair = select_pair(items);
    proof {
        lemma_converged_permutation(pre, items@);
    }
    Step::Compare { left: pair.0, right: pair.1 }
}

/// Re-evaluates the loop after a persisted comparison, with the
/// randomness handed in: either the set has converged and the run is
/// over, or the selector proposes the next pair.  On one coin draw in
/// RANDOM_PICK_ONE_IN the pair is the two random positions derived from
/// `ra` and `rb`; on every other draw it is the two items with the
/// highest deviations, which the selection sorts to the end of the set.
pub fn next_step_with(items: &mut Vec<Item>, coin: u64, ra: usize, rb: usize) -> (r: Step)
    requires
        old(items)@.len() >= 2,
        ra < old(items)@.len(),
        rb < old(items)@.len() - 1,
    ensures
        final(items)@.len() == old(items)@.len(),
        final(items)@.to_multiset() == old(items)@.to_multiset(),
        cores(final(items)@).to_multiset() == cores(old(items)@).to_multiset(),
        !(r is InsufficientData),
        (r is Stabilized) <==> converged(old(items)@),
        (r is Stabilized) ==> final(items)@ == old(items)@,
        (r matches Step::Compare { left, right } ==> left < old(items)@.len() && right < old(
            items,
        )@.len() && left != right && !converged(final(items)@)),
        (r matches Step::Compare { left, right } ==> (coin % crate::select::RANDOM_PICK_ONE_IN != 0
            ==> sorted_by_key(final(items)@, false) && left == old(items)@.len() - 1 && right
            == old(items)@.len() - 2)),
{
    if all_converged(items) {
        return Step::Stabilized;
    }
    let ghost pre = items@;
    let pair = select_pair_with(items, coin, ra, rb);
    proof {
        lemma_converged_permutation(pre, items@);
    }
    Step::Compare { left: pair.0, right: pair.1 }
}

/// Re-evaluates the loop after a persisted comparison, drawing its own
/// randomness.
pub fn next_step(items: &mut Vec<Item>) -> (r: Step)
    requires
        old(items)@.len() >= 2,
    ensures
        final(items)@.len() == old(items)@.len(),
        final(items)@.to_multiset() == old(items)@.to_multiset(),
        cores(final(items)@).to_multiset() == cores(old(items)@).to_multiset(),
        !(r is InsufficientData),
        (r is Stabilized) <==> converged(old(items)@),
        (r is Stabilized) ==> final(items)@ == old(items)@,
        (r matches Step::Compare { left, right } ==> left < old(items)@.len() && right < old(
            items,
        )@.len() && left != right && !converged(final(items)@)),
{
    if all_converged(items) {
        return Step::Stabilized;
    }
    let ghost pre = items@;
    let pair = select_pair(items);
    proof {
        lemma_converged_permutation(pre, items@);
    }
    Step::Compare { left: pair.0, right: pair.1 }
}

/// Applies one answered comparison: overwrites the pair's ratings and
/// deviations with the values the rating update handed back, then
/// rebuckets the whole working set so the persisted state is a finished
/// ranking of the latest ratings.  No item is gained or lost.
pub fn apply_comparison(
    items: &mut Vec<Item>,
    left: usize,
    right: usize,
    left_rating: i64,
    left_deviation: i64,
    right_rating: i64,
    right_deviation: i64,
)
    requires
        left < old(items)@.len(),
        right < old(items)@.len(),
        left != right,
        old(items)@.len() <= 0x7fff_ffff_ffff_ffff,
    ensures
        final(items)@.len() == old(items)@.len(),
        bucketize_rel(
            updated_pair(
                old(items)@,
                left as int,
                right as int,
                left_rating,
                left_deviation,
                right_rating,
                right_deviation,
            ),
            final(items)@,
        ),
        wf_set(old(items)@) && left_deviation >= 0 && right_deviation >= 0 ==> wf_set(
            final(items)@,
        ),
{
    let li = items[left].clone();
    items.set(
        left,
        Item { name: li.name, rating: left_rating, deviation: left_deviation, bucket: li.bucket },
    );
    let ri = items[right].clone();
    items.set(
        right,
        Item {
            name: ri.name,
            rating: right_rating,
            deviation: right_deviation,
            bucket: ri.bucket,
        },
    );
    proof {
        assert(items@ =~= updated_pair(
            old(items)@,
            left as int,
            right as int,
            left_rating,
            left_deviation,
            right_rating,
            right_deviation,
        ));
    }
    bucketize(items);
    proof {
        if wf_set(old(items)@) && left_deviation >= 0 && right_deviation >= 0 {
            let upd = updated_pair(
                old(items)@,
                left as int,
                right as int,
                left_rating,
                left_deviation,
                right_rating,
                right_deviation,
            );
            let p = |c: (Seq<char>, i64, i64)| c.2 >= 0;
            assert forall|i: int| 0 <= i < cores(upd).len() implies #[trigger] p(
                cores(upd)[i],
            ) by {
                assert(cores(upd)[i] == crate::item::core_of(upd[i]));
            }
            crate::convergence::lemma_all_elements_permutation(cores(upd), cores(items@), p);
            assert forall|i: int| 0 <= i < items@.len() implies #[trigger] items@[i].deviation
                >= 0 by {
                assert(p(cores(items@)[i]));
                assert(cores(items@)[i] == crate::item::core_of(items@[i]));
            }
        }
    }
}

/// The safety half of the convergence guarantee: when the rating update
/// cannot raise a deviation above its pre-update value, a full round
/// (update plus rebucketing) keeps every deviation bound that held
/// before it.  In particular a round never pushes a settled item back
/// above the threshold.
pub proof fn lemma_round_preserves_deviation_bound(
    pre: Seq<Item>,
    post: Seq<Item>,
    l: int,
    r: int,
    lr: i64,
    ld: i64,
    rr: i64,
    rd: i64,
    bound: i64,
)
    requires
        0 <= l < pre.len(),
        0 <= r < pre.len(),
        l != r,
        ld <= pre[l].deviation,
        rd <= pre[r].deviation,
        forall|i: int| 0 <= i < pre.len() ==> #[trigger] pre[i].deviation <= bound,
        bucketize_rel(updated_pair(pre, l, r, lr, ld, rr, rd), post),
    ensures
        forall|i: int| 0 <= i < post.len() ==> #[trigger] post[i].deviation <= bound,
{
    let upd = updated_pair(pre, l, r, lr, ld, rr, rd);
    let p = |c: (Seq<char>, i64, i64)| c.2 <= bound;
    assert forall|i: int| 0 <= i < cores(upd).len() implies #[trigger] p(cores(upd)[i]) by {
        assert(cores(upd)[i] == crate::item::core_of(upd[i]));
    }
    crate::convergence::lemma_all_elements_permutation(cores(upd), cores(post), p);
    assert forall|i: int| 0 <= i < post.len() implies #[trigger] post[i].deviation <= bound by {
        assert(p(cores(post)[i]));
        assert(cores(post)[i] == crate::item::core_of(post[i]));
    }
}

} // verus!
