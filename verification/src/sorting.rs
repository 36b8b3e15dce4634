use vstd::prelude::*;

use crate::item::{core_of, cores, Item};

verus! {

/// The key a sort runs on: the rating when the bucketizer orders the
/// final ranking, the deviation when the pair selector looks for the
/// least settled items.
pub open spec fn key_of(it: Item, by_rating: bool) -> i64 {
    if by_rating {
        it.rating
    } else {
        it.deviation
    }
}

/// Ascending order on the chosen key, every pair of positions.
pub open spec fn sorted_by_key(s: Seq<Item>, by_rating: bool) -> bool {
    forall|p: int, q: int|
        #![trigger key_of(s[p], by_rating), key_of(s[q], by_rating)]
        0 <= p < q < s.len() ==> key_of(s[p], by_rating) <= key_of(s[q], by_rating)
}

/// Exchanging two positions of a sequence leaves its multiset alone.
pub proof fn lemma_swap_preserves_multiset<A>(s: Seq<A>, i: int, j: int)
    requires
        0 <= i < s.len(),
        0 <= j < s.len(),
    ensures
        s.update(i, s[j]).update(j, s[i]).to_multiset() == s.to_multiset(),
{
    broadcast use vstd::seq_lib::group_to_multiset_ensures;

    if i == j {
        assert(s.update(i, s[j]).update(j, s[i]) =~= s);
    } else {
        let t = s.update(i, s[j]);
        assert(s.contains(s[i]));
        assert(s.contains(s[j]));
        assert(t[j] == s[j]);
        assert(t.update(j, s[i]).to_multiset() =~= s.to_multiset());
    }
}

/// Rewriting one position of a working set rewrites the same position of
/// its core sequence, and nothing else.
pub proof fn lemma_cores_update(s: Seq<Item>, i: int, a: Item)
    requires
        0 <= i < s.len(),
    ensures
        cores(s.update(i, a)) == cores(s).update(i, core_of(a)),
{
    assert(cores(s.update(i, a)) =~= cores(s).update(i, core_of(a)));
}

/// Reads the sort key of the item at `idx`.
fn key_at(v: &Vec<Item>, idx: usize, by_rating: bool) -> (r: i64)
    requires
        idx < v@.len(),
    ensures
        r == key_of(v@[idx as int], by_rating),
{
    if by_rating {
        v[idx].rating
    } else {
        v[idx].deviation
    }
}

/// Exchanges the items at positions `i` and `j`.
fn swap_items(v: &mut Vec<Item>, i: usize, j: usize)
    requires
        i < j,
        j < old(v)@.len(),
    ensures
        final(v)@ == old(v)@.update(i as int, old(v)@[j as int]).update(
            j as int,
            old(v)@[i as int],
        ),
{
    let x = v.remove(j);
    let y = v.remove(i);
    v.insert(i, x);
    v.insert(j, y);
    proof {
        let s = old(v)@;
        let t = s.update(i as int, s[j as int]).update(j as int, s[i as int]);
        assert(v@ =~= t);
    }
}

/// Reports whether the working set is already in ascending key order.
pub fn is_sorted(v: &Vec<Item>, by_rating: bool) -> (r: bool)
    ensures
        r == sorted_by_key(v@, by_rating),
{
    let n = v.len();
    if n < 2 {
        return true;
    }
    let mut k: usize = 1;
    while k < n
        invariant
            1 <= k <= n,
            n == v@.len(),
            forall|p: int, q: int|
                #![trigger key_of(v@[p], by_rating), key_of(v@[q], by_rating)]
                0 <= p < q < k ==> key_of(v@[p], by_rating) <= key_of(v@[q], by_rating),
        decreases n - k,
    {
        if key_at(v, k - 1, by_rating) > key_at(v, k, by_rating) {
            assert(!sorted_by_key(v@, by_rating));
            return false;
        }
        k += 1;
    }
    true
}

/// Sorts the working set in place into ascending key order.  An already
/// sorted set is handed back exactly as it came, so a second pass over a
/// finished ranking changes nothing.
pub fn sort_items(v: &mut Vec<Item>, by_rating: bool)
    ensures
        final(v)@.len() == old(v)@.len(),
        sorted_by_key(final(v)@, by_rating),
        final(v)@.to_multiset() == old(v)@.to_multiset(),
        cores(final(v)@).to_multiset() == cores(old(v)@).to_multiset(),
        sorted_by_key(old(v)@, by_rating) ==> final(v)@ == old(v)@,
{
    if is_sorted(v, by_rating) {
        return;
    }
    let n = v.len();
    let mut i: usize = 0;
    while i < n
        invariant
            i <= n,
            n == v@.len(),
            v@.to_multiset() == old(v)@.to_multiset(),
            cores(v@).to_multiset() == cores(old(v)@).to_multiset(),
            forall|p: int, q: int|
                #![trigger key_of(v@[p], by_rating), key_of(v@[q], by_rating)]
                0 <= p < q < i ==> key_of(v@[p], by_rating) <= key_of(v@[q], by_rating),
            forall|p: int, q: int|
                #![trigger key_of(v@[p], by_rating), key_of(v@[q], by_rating)]
                0 <= p < i <= q < n ==> key_of(v@[p], by_rating) <= key_of(v@[q], by_rating),
        decreases n - i,
    {
        let mut m: usize = i;
        let mut k: usize = i + 1;
        while k < n
            invariant
                i < n,
                i <= m < n,
                i + 1 <= k <= n,
                n == v@.len(),
                v@.to_multiset() == old(v)@.to_multiset(),
                cores(v@).to_multiset() == cores(old(v)@).to_multiset(),
                forall|p: int, q: int|
                    #![trigger key_of(v@[p], by_rating), key_of(v@[q], by_rating)]
                    0 <= p < q < i ==> key_of(v@[p], by_rating) <= key_of(v@[q], by_rating),
                forall|p: int, q: int|
                    #![trigger key_of(v@[p], by_rating), key_of(v@[q], by_rating)]
                    0 <= p < i <= q < n ==> key_of(v@[p], by_rating) <= key_of(v@[q], by_rating),
                forall|t: int|
                    #![trigger key_of(v@[t], by_rating)]
                    i <= t < k ==> key_of(v@[m as int], by_rating) <= key_of(v@[t], by_rating),
            decreases n - k,
        {
            if key_at(v, k, by_rating) < key_at(v, m, by_rating) {
                m = k;
            }
            k += 1;
        }
        if m != i {
            let ghost pre = v@;
            swap_items(v, i, m);
            proof {
                lemma_swap_preserves_multiset(pre, i as int, m as int);
                lemma_cores_update(pre, i as int, pre[m as int]);
                lemma_cores_update(
                    pre.update(i as int, pre[m as int]),
                    m as int,
                    pre[i as int],
                );
                lemma_swap_preserves_multiset(cores(pre), i as int, m as int);
                assert(cores(pre)[i as int] == core_of(pre[i as int]));
                assert(cores(pre)[m as int] == core_of(pre[m as int]));
                assert(cores(v@) == cores(pre).update(i as int, cores(pre)[m as int]).update(
                    m as int,
                    cores(pre)[i as int],
                ));
            }
        }
        i += 1;
    }
}

} // verus!
