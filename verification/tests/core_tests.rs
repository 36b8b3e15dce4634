use ranksort::bucket::bucketize;
use ranksort::convergence::all_converged;
use ranksort::item::Item;
use ranksort::oracle::{outcome_of_answer, Answer, Outcome};
use ranksort::select::select_pair_with;
use ranksort::sorting::{is_sorted, sort_items};

fn item(name: &str, rating: i64, deviation: i64) -> Item {
    Item { name: name.to_string(), rating, deviation, bucket: 0 }
}

#[test]
fn new_item_defaults() {
    let it = Item::new("album".to_string());
    assert_eq!(it.name, "album");
    assert_eq!(it.rating, 1_500_000);
    assert_eq!(it.deviation, 100_000);
    assert_eq!(it.bucket, 0);
}

#[test]
fn sort_orders_by_rating() {
    let mut v = vec![item("c", 3000, 10), item("a", 1000, 30), item("b", 2000, 20)];
    sort_items(&mut v, true);
    let names: Vec<&str> = v.iter().map(|i| i.name.as_str()).collect();
    assert_eq!(names, vec!["a", "b", "c"]);
    assert!(is_sorted(&v, true));
}

#[test]
fn sort_orders_by_deviation() {
    let mut v = vec![item("c", 1, 300), item("a", 2, 100), item("b", 3, 200)];
    sort_items(&mut v, false);
    let devs: Vec<i64> = v.iter().map(|i| i.deviation).collect();
    assert_eq!(devs, vec![100, 200, 300]);
}

#[test]
fn bucketize_ten_items_pairs_up() {
    // Ten items: each bucket takes 10 / 10 + 1 = 2 items.
    let mut v: Vec<Item> = (0..10).map(|k| item(&format!("i{k}"), 1000 * (10 - k), 50)).collect();
    bucketize(&mut v);
    let buckets: Vec<i64> = v.iter().map(|i| i.bucket).collect();
    assert_eq!(buckets, vec![0, 0, 1, 1, 2, 2, 3, 3, 4, 4]);
    // Lowest rating sits first.
    assert_eq!(v[0].name, "i9");
    assert_eq!(v[9].name, "i0");
}

#[test]
fn bucketize_small_set_one_per_bucket() {
    let mut v = vec![item("x", 300, 5), item("y", 100, 5), item("z", 200, 5)];
    bucketize(&mut v);
    let pairs: Vec<(&str, i64)> = v.iter().map(|i| (i.name.as_str(), i.bucket)).collect();
    assert_eq!(pairs, vec![("y", 0), ("z", 1), ("x", 2)]);
}

#[test]
fn bucketize_twenty_five_items() {
    // 25 items: 25 / 10 + 1 = 3 per bucket, top bucket is number 8.
    let mut v: Vec<Item> = (0..25).map(|k| item(&format!("i{k}"), 100 * k, 50)).collect();
    bucketize(&mut v);
    assert_eq!(v[0].bucket, 0);
    assert_eq!(v[2].bucket, 0);
    assert_eq!(v[3].bucket, 1);
    assert_eq!(v[24].bucket, 8);
}

#[test]
fn bucketize_twice_is_identical() {
    // Ties included: the second pass must reproduce the first exactly.
    let mut v = vec![
        item("a", 500, 1),
        item("b", 500, 2),
        item("c", 100, 3),
        item("d", 900, 4),
        item("e", 500, 5),
    ];
    bucketize(&mut v);
    let first: Vec<(String, i64, i64, i64)> =
        v.iter().map(|i| (i.name.clone(), i.rating, i.deviation, i.bucket)).collect();
    bucketize(&mut v);
    let second: Vec<(String, i64, i64, i64)> =
        v.iter().map(|i| (i.name.clone(), i.rating, i.deviation, i.bucket)).collect();
    assert_eq!(first, second);
}

#[test]
fn buckets_follow_ratings() {
    let mut v: Vec<Item> = (0..13).map(|k| item(&format!("i{k}"), 7919 * (k % 7) + k, 50)).collect();
    bucketize(&mut v);
    for a in v.iter() {
        for b in v.iter() {
            if a.rating < b.rating {
                assert!(a.bucket <= b.bucket);
            }
        }
    }
}

#[test]
fn threshold_is_strict() {
    // Exactly the threshold counts as settled; one step above does not.
    let at = vec![item("a", 1, 65_000), item("b", 2, 65_000)];
    assert!(all_converged(&at));
    let above = vec![item("a", 1, 65_000), item("b", 2, 65_001)];
    assert!(!all_converged(&above));
}

#[test]
fn empty_set_is_converged() {
    let v: Vec<Item> = vec![];
    assert!(all_converged(&v));
}

#[test]
fn selection_sorted_branch_takes_highest_deviations() {
    let mut v = vec![
        item("a", 1, 300),
        item("b", 2, 900),
        item("c", 3, 100),
        item("d", 4, 700),
    ];
    // Any coin that is not a multiple of four takes the deviation branch.
    let (l, r) = select_pair_with(&mut v, 1, 0, 0);
    assert_ne!(l, r);
    assert_eq!(v[l].name, "b");
    assert_eq!(v[r].name, "d");
}

#[test]
fn selection_random_branch_is_distinct() {
    let mut v = vec![item("a", 1, 10), item("b", 2, 20), item("c", 3, 30)];
    for ra in 0..3 {
        for rb in 0..2 {
            let before: Vec<String> = v.iter().map(|i| i.name.clone()).collect();
            let (l, r) = select_pair_with(&mut v, 0, ra, rb);
            let after: Vec<String> = v.iter().map(|i| i.name.clone()).collect();
            assert_ne!(l, r);
            assert!(l < v.len() && r < v.len());
            assert_eq!(before, after);
            assert_eq!(l, ra);
        }
    }
}

#[test]
fn equal_answer_counts_as_right_win() {
    assert_eq!(outcome_of_answer(Answer::Left), Outcome::LeftWins);
    assert_eq!(outcome_of_answer(Answer::Equal), Outcome::RightWins);
    assert_eq!(outcome_of_answer(Answer::Right), Outcome::RightWins);
}
