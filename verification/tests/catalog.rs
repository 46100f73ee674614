use pickletrack::catalog::{bars_all_have_tips, Bar, BarListing};

fn bar(id: &str, tips: Vec<&str>) -> Bar {
    Bar {
        id: id.to_string(),
        name: format!("name of {id}"),
        lat_micro: 40_700_000,
        lng_micro: -74_000_000,
        tips: tips.into_iter().map(|t| t.to_string()).collect(),
    }
}

#[test]
fn tips_guard_detects_empty_lists() {
    assert!(bars_all_have_tips(&vec![bar("a", vec!["t"])]));
    assert!(!bars_all_have_tips(&vec![bar("a", vec!["t"]), bar("b", vec![])]));
    assert!(bars_all_have_tips(&Vec::new()));
}

#[test]
fn no_bar_in_range_returns_nothing() {
    let listing = BarListing::new(vec![bar("a", vec!["t1"]), bar("b", vec!["t2"])]);
    // Both bars farther than the maximum distance.
    let dists = vec![3_001u64, 10_000];
    assert_eq!(listing.locate_pickleback(&dists, 3_000), None);
}

#[test]
fn empty_listing_returns_nothing() {
    let listing = BarListing::new(Vec::new());
    assert_eq!(listing.locate_pickleback(&Vec::new(), 3_000), None);
}

#[test]
fn single_in_range_bar_is_always_selected() {
    let listing = BarListing::new(vec![
        bar("far", vec!["far tip"]),
        bar("near", vec!["only tip"]),
        bar("out", vec!["out tip"]),
    ]);
    let dists = vec![9_999u64, 500, 3_001];
    for _ in 0..200 {
        let (id, name, comment) = listing.locate_pickleback(&dists, 3_000).unwrap();
        assert_eq!(id, "near");
        assert_eq!(name, "name of near");
        assert_eq!(comment, "only tip");
    }
}

#[test]
fn chosen_tip_comes_from_chosen_bar() {
    let listing = BarListing::new(vec![
        bar("a", vec!["a1", "a2"]),
        bar("b", vec!["b1"]),
    ]);
    let dists = vec![100u64, 2_000];
    for _ in 0..200 {
        let (id, _, comment) = listing.locate_pickleback(&dists, 3_000).unwrap();
        match id.as_str() {
            "a" => assert!(comment == "a1" || comment == "a2"),
            "b" => assert_eq!(comment, "b1"),
            other => panic!("unexpected bar {other}"),
        }
    }
}

#[test]
fn successful_reload_replaces_snapshot() {
    let mut listing = BarListing::new(vec![bar("old", vec!["t"])]);
    listing.reload_bars(Some(vec![bar("new1", vec!["t1"]), bar("new2", vec!["t2"])]));
    assert_eq!(listing.bar_count(), 2);
    assert_eq!(listing.snapshot()[0].id, "new1");
    assert_eq!(listing.snapshot()[1].id, "new2");
}

#[test]
fn failed_reload_keeps_serving_previous_snapshot() {
    let mut listing = BarListing::new(vec![bar("keep", vec!["the tip"])]);
    // A corrupted or missing file parses to nothing; the listing must stay.
    listing.reload_bars(None);
    assert_eq!(listing.bar_count(), 1);
    assert_eq!(listing.snapshot()[0].id, "keep");
    // The lookup behaves exactly as before the failed reload.
    let dists = vec![100u64];
    for _ in 0..50 {
        let (id, _, comment) = listing.locate_pickleback(&dists, 3_000).unwrap();
        assert_eq!(id, "keep");
        assert_eq!(comment, "the tip");
    }
}
