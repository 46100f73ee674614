//! End-to-end flow over synthetic collaborators: enumerate venues under a
//! result cap, deduplicate, filter reviews, build the catalog, and locate.

use pickletrack::catalog::{bars_all_have_tips, BarListing};
use pickletrack::enumerate::{seed_grid, Enumeration, Venue};
use pickletrack::geo::{BoundingBox, LatLong};
use pickletrack::tips::{collect_bars, dedup_filter_region, default_search_phrases};

fn venue_at(n: u64, lat: i64, lng: i64, region: Option<&str>) -> Venue {
    Venue {
        id: format!("v{n}"),
        name: format!("Bar {n}"),
        lat_micro: lat,
        lng_micro: lng,
        region: region.map(|r| r.to_string()),
    }
}

fn inside(b: &BoundingBox, v: &Venue) -> bool {
    b.sw.lat_micro <= v.lat_micro && v.lat_micro <= b.ne.lat_micro
        && b.sw.lng_micro <= v.lng_micro && v.lng_micro <= b.ne.lng_micro
}

#[test]
fn scrape_and_serve_round_trip() {
    // Synthetic world: four venues, one outside the wanted region, one with
    // no matching review.
    let world = vec![
        venue_at(0, 100, 100, Some("NY")),
        venue_at(1, 200, 800, Some("NY")),
        venue_at(2, 700, 300, Some("NJ")),
        venue_at(3, 900, 900, Some("NY")),
    ];
    let reviews: Vec<(&str, Vec<&str>)> = vec![
        ("v0", vec!["amazing pickle back", "nothing else"]),
        ("v1", vec!["no matching drink here"]),
        ("v2", vec!["best Pickleback around"]),
        ("v3", vec!["PICKLE-BACK heaven", "pickle juice chaser"]),
    ];

    // Enumerate under a cap of 2 with a tiny seed grid, forcing splits.
    let topleft = LatLong { lat_micro: 1_000, lng_micro: 0 };
    let cells = seed_grid(&topleft, 1, 1, 1_000, 1_000, 10, 10);
    let mut e = Enumeration::new(cells);
    let cap = 2;
    while let Some(cell) = e.next_cell() {
        let mut hits: Vec<Venue> =
            world.iter().filter(|v| inside(&cell, v)).cloned().collect();
        hits.truncate(cap);
        e.report_query(&cell, hits, cap);
    }
    let found = e.into_found();

    let unique = dedup_filter_region(&found, &"NY".to_string());
    let ids: Vec<&str> = unique.iter().map(|v| v.id.as_str()).collect();
    assert_eq!(ids.len(), 3);
    assert!(ids.contains(&"v0") && ids.contains(&"v1") && ids.contains(&"v3"));

    // Attach each kept venue's reviews and build the bar records.
    let tip_lists: Vec<Vec<String>> = unique
        .iter()
        .map(|v| {
            reviews
                .iter()
                .find(|(id, _)| *id == v.id)
                .map(|(_, texts)| texts.iter().map(|t| t.to_string()).collect())
                .unwrap()
        })
        .collect();
    let bars = collect_bars(&unique, &tip_lists, &default_search_phrases());
    let bar_ids: Vec<&str> = bars.iter().map(|b| b.id.as_str()).collect();
    assert_eq!(bar_ids.len(), 2);
    assert!(bar_ids.contains(&"v0") && bar_ids.contains(&"v3"));
    let v3 = bars.iter().find(|b| b.id == "v3").unwrap();
    assert_eq!(v3.tips, vec!["PICKLE-BACK heaven".to_string(), "pickle juice chaser".to_string()]);

    // Serve the catalog: v0 out of range, v3 in range.
    assert!(bars_all_have_tips(&bars));
    let listing = BarListing::new(bars);
    let i0 = listing.snapshot().iter().position(|b| b.id == "v0").unwrap();
    let mut dists = vec![0u64; listing.bar_count()];
    dists[i0] = 5_000;
    let (id, name, comment) = listing.locate_pickleback(&dists, 3_000).unwrap();
    assert_eq!(id, "v3");
    assert_eq!(name, "Bar 3");
    assert!(comment == "PICKLE-BACK heaven" || comment == "pickle juice chaser");
}
