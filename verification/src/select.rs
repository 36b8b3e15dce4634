use vstd::prelude::*;

use crate::item::{cores, Item};
use crate::sorting::{sort_items, sorted_by_key};

verus! {

/// How often the selector falls back to a uniformly random pair instead
/// of the two least settled items: one draw in this many.
pub const RANDOM_PICK_ONE_IN: u64 = 4;

/// Relies on rand::Rng::gen_range over `0..n`: returns a value below
/// `n`, drawn from the thread's generator.  It panics only on an empty
/// range, which `n >= 1` rules out.
#[verifier::external_body]
fn rand_below(n: usize) -> (r: usize)
    requires
        n >= 1,
    ensures
        r < n,
{
    rand::Rng::gen_range(&mut rand::thread_rng(), 0..n)
}

/// Relies on rand::seq::SliceRandom::shuffle: it permutes the slice in
/// place, so the multiset of the items, and of any projection of them,
/// is kept.
#[verifier::external_body]
pub(crate) fn shuffle_items(v: &mut Vec<Item>)
    ensures
        final(v)@.len() == old(v)@.len(),
        final(v)@.to_multiset() == old(v)@.to_multiset(),
        cores(final(v)@).to_multiset() == cores(old(v)@).to_multiset(),
{
    rand::seq::SliceRandom::shuffle(v.as_mut_slice(), &mut rand::thread_rng());
}

/// Picks the next pair to compare from the randomness handed in: on one
/// draw of the coin in RANDOM_PICK_ONE_IN, two uniformly random distinct
/// positions; on every other draw, the two items with the highest
/// deviations, found by sorting the working set on deviation.
pub fn select_pair_with(v: &mut Vec<Item>, coin: u64, ra: usize, rb: usize) -> (pair: (
    usize,
    usize,
))
    requires
        old(v)@.len() >= 2,
        ra < old(v)@.len(),
        rb < old(v)@.len() - 1,
    ensures
        final(v)@.len() == old(v)@.len(),
        pair.0 < final(v)@.len(),
        pair.1 < final(v)@.len(),
        pair.0 != pair.1,
        final(v)@.to_multiset() == old(v)@.to_multiset(),
        cores(final(v)@).to_multiset() == cores(old(v)@).to_multiset(),
        coin % RANDOM_PICK_ONE_IN == 0 ==> final(v)@ == old(v)@ && pair.0 == ra && pair.1 == (
        if rb >= ra {
            rb + 1
        } else {
            rb as int
        }),
        coin % RANDOM_PICK_ONE_IN != 0 ==> sorted_by_key(final(v)@, false) && pair.0 == old(
            v,
        )@.len() - 1 && pair.1 == old(v)@.len() - 2,
{
    let n = v.len();
    if coin % RANDOM_PICK_ONE_IN == 0 {
        let second = if rb >= ra {
            rb + 1
        } else {
            rb
        };
        (ra, second)
    } else {
        sort_items(v, false);
        (n - 1, n - 2)
    }
}

/// Picks the next pair to compare, drawing its own randomness.
pub fn select_pair(v: &mut Vec<Item>) -> (pair: (usize, usize))
    requires
        old(v)@.len() >= 2,
    ensures
        final(v)@.len() == old(v)@.len(),
        pair.0 < final(v)@.len(),
        pair.1 < final(v)@.len(),
        pair.0 != pair.1,
        final(v)@.to_multiset() == old(v)@.to_multiset(),
        cores(final(v)@).to_multiset() == cores(old(v)@).to_multiset(),
{
    let coin = rand_below(RANDOM_PICK_ONE_IN as usize) as u64;
    let ra = rand_below(v.len());
    let rb = rand_below(v.len() - 1);
    select_pair_with(v, coin, ra, rb)
}

} // verus!
