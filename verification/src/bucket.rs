use vstd::prelude::*;

use crate::item::{cores, Item, BUCKET_COUNT};
use crate::sorting::{key_of, sort_items, sorted_by_key};

verus! {

/// The bucket the item at position `i` of a rating-sorted set of `n`
/// items receives.  Each bucket takes `n / BUCKET_COUNT` items plus one
/// carried-over item before the running counter advances, so buckets are
/// approximate deciles rather than exact quantiles.
pub open spec fn bucket_of(i: int, n: int) -> int {
    i / (n / (BUCKET_COUNT as int) + 1)
}

/// Every position carries the bucket its rank assigns it.
pub open spec fn buckets_assigned(s: Seq<Item>) -> bool {
    forall|i: int| 0 <= i < s.len() ==> #[trigger] s[i].bucket == bucket_of(i, s.len() as int)
}

/// A finished ranking: ascending ratings, ordinal buckets in place.
pub open spec fn is_bucketized(s: Seq<Item>) -> bool {
    sorted_by_key(s, true) && buckets_assigned(s)
}

/// What one bucketizer pass does to a working set: it keeps every item's
/// name, rating and deviation, orders the set by rating, and stamps each
/// position's bucket; a set that was already in rating order keeps its
/// exact layout.
pub open spec fn bucketize_rel(pre: Seq<Item>, post: Seq<Item>) -> bool {
    &&& post.len() == pre.len()
    &&& is_bucketized(post)
    &&& cores(post).to_multiset() == cores(pre).to_multiset()
    &&& (sorted_by_key(pre, true) ==> forall|i: int|
        0 <= i < pre.len() ==> post[i] == (Item {
            bucket: bucket_of(i, pre.len() as int) as i64,
            ..pre[i]
        }))
}

/// Bucketizing is idempotent: a second pass over a working set that is
/// already a finished ranking hands it back exactly as it stands.
pub proof fn lemma_bucketize_idempotent(s: Seq<Item>, t: Seq<Item>)
    requires
        is_bucketized(s),
        bucketize_rel(s, t),
    ensures
        t == s,
{
    assert forall|i: int| 0 <= i < s.len() implies t[i] == s[i] by {
        assert(s[i].bucket == bucket_of(i, s.len() as int));
        assert(t[i] == (Item { bucket: bucket_of(i, s.len() as int) as i64, ..s[i] }));
    }
    assert(t =~= s);
}

/// In a finished ranking, an item rated strictly below another never
/// sits in a higher bucket.
pub proof fn lemma_bucket_monotone(s: Seq<Item>, i: int, j: int)
    requires
        is_bucketized(s),
        0 <= i < s.len(),
        0 <= j < s.len(),
        s[i].rating < s[j].rating,
    ensures
        s[i].bucket <= s[j].bucket,
{
    if j <= i {
        if j < i {
            assert(key_of(s[j], true) <= key_of(s[i], true));
        }
        assert(false);
    }
    let d = s.len() as int / (BUCKET_COUNT as int) + 1;
    vstd::arithmetic::div_mod::lemma_div_is_ordered(i, j, d);
}

/// Stamps each position's bucket; everything else stays put.
fn assign_buckets(v: &mut Vec<Item>)
    requires
        old(v)@.len() <= 0x7fff_ffff_ffff_ffff,
    ensures
        final(v)@.len() == old(v)@.len(),
        forall|i: int|
            0 <= i < old(v)@.len() ==> final(v)@[i] == (Item {
                bucket: bucket_of(i, old(v)@.len() as int) as i64,
                ..old(v)@[i]
            }),
{
    let n = v.len();
    let per = n / BUCKET_COUNT;
    let mut i: usize = 0;
    while i < n
        invariant
            i <= n,
            n == v@.len(),
            n <= 0x7fff_ffff_ffff_ffff,
            per == n / BUCKET_COUNT,
            forall|k: int|
                0 <= k < i ==> v@[k] == (Item {
                    bucket: bucket_of(k, n as int) as i64,
                    ..old(v)@[k]
                }),
            forall|k: int| i <= k < n ==> v@[k] == old(v)@[k],
        decreases n - i,
    {
        let b = i / (per + 1);
        let it = v[i].clone();
        v.set(
            i,
            Item { name: it.name, rating: it.rating, deviation: it.deviation, bucket: b as i64 },
        );
        i += 1;
    }
}

/// One bucketizer pass: order the working set by rating, lowest first,
/// then stamp every position's ordinal bucket.
pub fn bucketize(v: &mut Vec<Item>)
    requires
        old(v)@.len() <= 0x7fff_ffff_ffff_ffff,
    ensures
        bucketize_rel(old(v)@, final(v)@),
{
    sort_items(v, true);
    let ghost mid = v@;
    assign_buckets(v);
    proof {
        assert(cores(v@) =~= cores(mid));
        assert forall|p: int, q: int|
            #![trigger key_of(v@[p], true), key_of(v@[q], true)]
            0 <= p < q < v@.len() implies key_of(v@[p], true) <= key_of(v@[q], true) by {
            assert(key_of(mid[p], true) <= key_of(mid[q], true));
        }
    }
}

} // verus!
