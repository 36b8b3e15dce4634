use vstd::prelude::*;

verus! {

/// Convergence threshold for the rating deviation, in thousandths of a
/// rating point.  An item whose deviation is strictly above this value
/// still needs comparisons; a deviation of exactly this value counts as
/// settled.
pub const DEVIATION_THRESHOLD_MILLIS: i64 = 65000;

/// Rating given to a freshly added item, in thousandths of a rating point.
pub const DEFAULT_RATING_MILLIS: i64 = 1500000;

/// Deviation given to a freshly added item, in thousandths of a rating
/// point.
pub const DEFAULT_DEVIATION_MILLIS: i64 = 100000;

/// Number of ordinal buckets handed out when a ranking is finalized.
pub const BUCKET_COUNT: usize = 10;

/// A rated entity of the working set.  Ratings and deviations are held in
/// thousandths of a rating point, so that the ordering and threshold
/// decisions of the engine are exact integer comparisons.
pub struct Item {
    pub name: String,
    pub rating: i64,
    pub deviation: i64,
    pub bucket: i64,
}

impl Item {
    /// A freshly added item: default rating and deviation, lowest bucket.
    pub fn new(name: String) -> (r: Item)
        ensures
            r.name == name,
            r.rating == DEFAULT_RATING_MILLIS,
            r.deviation == DEFAULT_DEVIATION_MILLIS,
            r.bucket == 0,
    {
        Item { name, rating: DEFAULT_RATING_MILLIS, deviation: DEFAULT_DEVIATION_MILLIS, bucket: 0 }
    }
}

impl Clone for Item {
    fn clone(&self) -> (r: Item)
        ensures
            r == *self,
    {
        Item {
            name: self.name.clone(),
            rating: self.rating,
            deviation: self.deviation,
            bucket: self.bucket,
        }
    }
}

/// The durable part of an item: its name, rating and deviation.  The
/// bucket is left out, since the engine recomputes it from scratch after
/// every comparison.
pub open spec fn core_of(it: Item) -> (Seq<char>, i64, i64) {
    (it.name@, it.rating, it.deviation)
}

/// The cores of a whole working set, position by position.
pub open spec fn cores(s: Seq<Item>) -> Seq<(Seq<char>, i64, i64)> {
    s.map_values(|it: Item| core_of(it))
}

/// The working-set invariant: no deviation is ever negative.
pub open spec fn wf_set(s: Seq<Item>) -> bool {
    forall|i: int| 0 <= i < s.len() ==> #[trigger] s[i].deviation >= 0
}

} // verus!
