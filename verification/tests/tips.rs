use pickletrack::enumerate::Venue;
use pickletrack::tips::{
    collect_bars, dedup_filter_region, default_search_phrases, matching_tips, str_contains,
    tip_matches,
};

fn venue(id: &str, region: Option<&str>) -> Venue {
    Venue {
        id: id.to_string(),
        name: format!("name of {id}"),
        lat_micro: 40_700_000,
        lng_micro: -74_000_000,
        region: region.map(|r| r.to_string()),
    }
}

#[test]
fn substring_containment() {
    assert!(str_contains("hello world", "lo wo"));
    assert!(str_contains("abc", ""));
    assert!(str_contains("abc", "abc"));
    assert!(!str_contains("abc", "abcd"));
    assert!(!str_contains("hello", "z"));
}

#[test]
fn phrase_match_is_case_insensitive() {
    let phrases = default_search_phrases();
    assert!(tip_matches(&"Great PICKLE BACK shots".to_string(), &phrases));
    assert!(tip_matches(&"the Pickleback rules".to_string(), &phrases));
    assert!(tip_matches(&"try a shot of pickle juice".to_string(), &phrases));
    assert!(!tip_matches(&"nice cocktails".to_string(), &phrases));
}

#[test]
fn two_matching_reviews_give_two_distinct_tips() {
    let phrases = default_search_phrases();
    let venues = vec![venue("v1", Some("NY"))];
    let tip_lists = vec![vec![
        "Best pickle back in town".to_string(),
        "The Pickleback here is legendary".to_string(),
        "no relevant drink mentioned".to_string(),
    ]];
    let bars = collect_bars(&venues, &tip_lists, &phrases);
    assert_eq!(bars.len(), 1);
    let bar = &bars[0];
    assert_eq!(bar.id, "v1");
    assert_eq!(
        bar.tips,
        vec![
            "Best pickle back in town".to_string(),
            "The Pickleback here is legendary".to_string(),
        ],
        "exact original casing must be preserved"
    );
}

#[test]
fn duplicate_review_texts_collapse() {
    let phrases = default_search_phrases();
    let tips = vec![
        "pickleback!".to_string(),
        "pickleback!".to_string(),
        "PICKLEBACK!".to_string(),
    ];
    let kept = matching_tips(&tips, &phrases);
    // Exact text equality dedups; differing case is a different text.
    assert_eq!(kept, vec!["pickleback!".to_string(), "PICKLEBACK!".to_string()]);
}

#[test]
fn venue_without_match_is_dropped_silently() {
    let phrases = default_search_phrases();
    let venues = vec![venue("v1", Some("NY")), venue("v2", Some("NY"))];
    let tip_lists = vec![
        vec!["boring review".to_string()],
        vec!["a fine pickle shot".to_string()],
    ];
    let bars = collect_bars(&venues, &tip_lists, &phrases);
    assert_eq!(bars.len(), 1);
    assert_eq!(bars[0].id, "v2");
    assert_eq!(bars[0].tips, vec!["a fine pickle shot".to_string()]);
}

#[test]
fn dedup_keeps_first_occurrence_and_filters_region() {
    let venues = vec![
        venue("a", Some("NY")),
        venue("b", Some("NJ")),
        venue("a", Some("NY")),
        venue("c", None),
        venue("d", Some("NY")),
    ];
    let kept = dedup_filter_region(&venues, &"NY".to_string());
    let ids: Vec<&str> = kept.iter().map(|v| v.id.as_str()).collect();
    assert_eq!(ids, vec!["a", "d"]);
}

#[test]
fn duplicate_id_outside_region_still_blocks_later_copy() {
    // The first occurrence claims the id even when its region is rejected.
    let venues = vec![venue("a", Some("NJ")), venue("a", Some("NY"))];
    let kept = dedup_filter_region(&venues, &"NY".to_string());
    assert!(kept.is_empty());
}

#[test]
fn default_phrases_match_known_variants() {
    let phrases = default_search_phrases();
    assert_eq!(phrases.len(), 18);
    assert_eq!(phrases[0], "pickle back");
    assert_eq!(phrases[1], "pickleback");
    assert_eq!(phrases[17], "pickel-juice");
}
