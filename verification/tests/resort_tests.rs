use ranksort::engine::{apply_comparison, begin_resort, next_step, next_step_with, Step};
use ranksort::item::Item;
use ranksort::progress::run_halving_resort;

use skillratings::glicko::{decay_deviation, glicko, GlickoConfig, GlickoRating};
use skillratings::Outcomes;

fn item(name: &str, rating: i64, deviation: i64) -> Item {
    Item { name: name.to_string(), rating, deviation, bucket: 0 }
}

fn millis_to_f64(m: i64) -> f64 {
    m as f64 / 1000.0
}

fn f64_to_millis(x: f64) -> i64 {
    (x * 1000.0).round() as i64
}

#[test]
fn empty_set_is_insufficient() {
    let mut items: Vec<Item> = vec![];
    assert_eq!(begin_resort(&mut items), Step::InsufficientData);
    assert!(items.is_empty());
}

#[test]
fn single_item_is_a_no_op() {
    let mut items = vec![item("only", 1_500_000, 100_000)];
    assert_eq!(begin_resort(&mut items), Step::InsufficientData);
    assert_eq!(items.len(), 1);
    assert_eq!(items[0].name, "only");
    assert_eq!(items[0].rating, 1_500_000);
    assert_eq!(items[0].deviation, 100_000);
    assert_eq!(items[0].bucket, 0);
}

#[test]
fn settled_set_starts_stabilized() {
    let mut items = vec![item("a", 1_600_000, 65_000), item("b", 1_400_000, 30_000)];
    assert_eq!(begin_resort(&mut items), Step::Stabilized);
}

#[test]
fn always_winning_item_ends_on_top() {
    // Two fresh items; the oracle always prefers "A".  The loop must
    // settle both deviations at or below the threshold, rank A above B,
    // and give A the higher bucket.  The loop only converges for an
    // update that never raises a deviation above its pre-update value,
    // so the per-game deviation decay is turned off (c = 0).
    let config = GlickoConfig { c: 0.0 };
    let mut items = vec![item("A", 1_500_000, 100_000), item("B", 1_500_000, 100_000)];
    let mut step = begin_resort(&mut items);
    let mut rounds = 0;
    while let Step::Compare { left, right } = step {
        rounds += 1;
        assert!(rounds <= 10_000, "resort loop failed to stabilize");
        assert_ne!(left, right);
        let lp = GlickoRating {
            rating: millis_to_f64(items[left].rating),
            deviation: millis_to_f64(items[left].deviation),
        };
        let rp = GlickoRating {
            rating: millis_to_f64(items[right].rating),
            deviation: millis_to_f64(items[right].deviation),
        };
        let outcome = if items[left].name == "A" { Outcomes::WIN } else { Outcomes::LOSS };
        let (nl, nr) = glicko(&lp, &rp, &outcome, &config);
        apply_comparison(
            &mut items,
            left,
            right,
            f64_to_millis(nl.rating),
            f64_to_millis(nl.deviation),
            f64_to_millis(nr.rating),
            f64_to_millis(nr.deviation),
        );
        assert_eq!(items.len(), 2);
        step = next_step(&mut items);
    }
    assert_eq!(step, Step::Stabilized);
    let a = items.iter().find(|i| i.name == "A").unwrap();
    let b = items.iter().find(|i| i.name == "B").unwrap();
    assert!(a.rating > b.rating);
    assert!(a.deviation <= 65_000);
    assert!(b.deviation <= 65_000);
    assert!(a.bucket > b.bucket);
}

#[test]
fn decay_reopens_a_settled_set() {
    // A fully converged pair; one decay step must push a deviation back
    // above the threshold and re-enter the running state.
    let mut items = vec![item("a", 1_550_000, 65_000), item("b", 1_450_000, 60_000)];
    assert_eq!(begin_resort(&mut items), Step::Stabilized);
    let config = GlickoConfig::default();
    for it in items.iter_mut() {
        let decayed = decay_deviation(
            &GlickoRating {
                rating: millis_to_f64(it.rating),
                deviation: millis_to_f64(it.deviation),
            },
            &config,
        );
        it.rating = f64_to_millis(decayed.rating);
        it.deviation = f64_to_millis(decayed.deviation);
    }
    assert!(items.iter().any(|i| i.deviation > 65_000));
    assert!(matches!(begin_resort(&mut items), Step::Compare { .. }));
}

#[test]
fn halving_updates_stabilize_within_bound() {
    // A synthetic update that halves both selected deviations, driven
    // deterministically through the highest-deviation branch, must
    // stabilize the set within a handful of rounds.
    let mut items = vec![
        item("a", 1_000, 200_000),
        item("b", 2_000, 150_000),
        item("c", 3_000, 130_000),
        item("d", 4_000, 80_000),
        item("e", 5_000, 70_000),
    ];
    let mut rounds = 0;
    let mut step = next_step_with(&mut items, 1, 0, 0);
    while let Step::Compare { left, right } = step {
        rounds += 1;
        assert!(rounds <= 7, "halving updates failed to stabilize quickly");
        let (lr, ld) = (items[left].rating, items[left].deviation / 2);
        let (rr, rd) = (items[right].rating, items[right].deviation / 2);
        apply_comparison(&mut items, left, right, lr, ld, rr, rd);
        step = next_step_with(&mut items, 1, 0, 0);
    }
    assert_eq!(step, Step::Stabilized);
    assert!(items.iter().all(|i| i.deviation <= 65_000));
    assert_eq!(items.len(), 5);
}

#[test]
fn halving_driver_converges() {
    let mut items = vec![
        item("a", 1_000, 350_000),
        item("b", 2_000, 100_000),
        item("c", 3_000, 65_001),
    ];
    run_halving_resort(&mut items);
    assert_eq!(items.len(), 3);
    assert!(items.iter().all(|i| i.deviation <= 65_000));
    let mut names: Vec<&str> = items.iter().map(|i| i.name.as_str()).collect();
    names.sort_unstable();
    assert_eq!(names, vec!["a", "b", "c"]);
}
