//! Review filtering: deduplicate discovered venues, keep the wanted region,
//! and retain the distinct review texts that mention one of a fixed set of
//! phrases, case-insensitively.

use vstd::prelude::*;

use crate::catalog::{Bar, BarView};
use crate::enumerate::{Venue, VenueView};

verus! {

/// What `str::to_lowercase` returns for a given character sequence.  The
/// full Unicode lowercasing table is not written out here; the name alone
/// carries that equal inputs give equal results.
pub uninterp spec fn lower_of(s: Seq<char>) -> Seq<char>;

/// Relies on `str::to_lowercase`: the returned string is the lowercase
/// equivalent of the input, a function of its characters alone.
#[verifier::external_body]
fn lowercase(s: &str) -> (r: String)
    ensures
        r@ == lower_of(s@),
{
    s.to_lowercase()
}

/// `n` occurs in `h` starting at position `i`.
pub open spec fn contains_at(h: Seq<char>, n: Seq<char>, i: int) -> bool {
    &&& 0 <= i
    &&& i + n.len() <= h.len()
    &&& forall|k: int| 0 <= k < n.len() ==> h[i + k] == n[k]
}

/// `n` occurs somewhere in `h` as a contiguous substring.
pub open spec fn spec_contains(h: Seq<char>, n: Seq<char>) -> bool {
    exists|i: int| contains_at(h, n, i)
}

/// Substring containment over characters, the exact counterpart of
/// [`spec_contains`].
pub fn str_contains(h: &str, n: &str) -> (b: bool)
    ensures
        b == spec_contains(h@, n@),
{
    let hl = h.unicode_len();
    let nl = n.unicode_len();
    if nl > hl {
        return false;
    }
    let mut i: usize = 0;
    while i <= hl - nl
        invariant
            nl <= hl,
            hl == h@.len(),
            nl == n@.len(),
            0 <= i <= hl - nl + 1,
            forall|p: int| 0 <= p < i ==> !contains_at(h@, n@, p),
        decreases hl - nl + 1 - i,
    {
        let mut j: usize = 0;
        let mut ok = true;
        while j < nl
            invariant
                nl <= hl,
                hl == h@.len(),
                nl == n@.len(),
                i + nl <= hl,
                0 <= j <= nl,
                ok ==> forall|k: int| 0 <= k < j ==> h@[i + k] == n@[k],
                !ok ==> !contains_at(h@, n@, i as int),
            decreases nl - j,
        {
            if h.get_char(i + j) != n.get_char(j) {
                ok = false;
                j = nl;
            } else {
                j = j + 1;
            }
        }
        if ok {
            proof {
                assert(contains_at(h@, n@, i as int));
            }
            return true;
        }
        i = i + 1;
    }
    proof {
        assert forall|p: int| !contains_at(h@, n@, p) by {
            if 0 <= p < i {
                // Ruled out by the scan.
            } else {
                // Too far right for the needle to fit, or negative.
            }
        }
    }
    false
}

/// A review text matches when its lowercase form contains at least one of
/// the (already lowercase) search phrases.
pub open spec fn spec_tip_matches(t: Seq<char>, phrases: Seq<Seq<char>>) -> bool {
    exists|p: int| 0 <= p < phrases.len() && spec_contains(lower_of(t), phrases[p])
}

/// Case-insensitive phrase test, the exact counterpart of
/// [`spec_tip_matches`].
pub fn tip_matches(tip: &String, phrases: &Vec<String>) -> (b: bool)
    ensures
        b == spec_tip_matches(tip@, phrases.deep_view()),
{
    let low = lowercase(tip.as_str());
    let mut p: usize = 0;
    while p < phrases.len()
        invariant
            low@ == lower_of(tip@),
            forall|q: int| 0 <= q < p ==> !spec_contains(lower_of(tip@), phrases.deep_view()[q]),
        decreases phrases@.len() - p,
    {
        proof {
            assert(phrases.deep_view()[p as int] == phrases@[p as int]@);
        }
        if str_contains(low.as_str(), phrases[p].as_str()) {
            return true;
        }
        p = p + 1;
    }
    false
}

/// The distinct matching review texts of a prefix of `tips`, in the order
/// each text first matched, with the original casing preserved.
pub open spec fn spec_matching_tips(tips: Seq<Seq<char>>, phrases: Seq<Seq<char>>, n: int) -> Seq<
    Seq<char>,
>
    decreases n,
{
    if n <= 0 {
        Seq::empty()
    } else {
        let prev = spec_matching_tips(tips, phrases, n - 1);
        if spec_tip_matches(tips[n - 1], phrases) && (forall|j: int|
            0 <= j < n - 1 ==> #[trigger] tips[j] != tips[n - 1]) {
            prev.push(tips[n - 1])
        } else {
            prev
        }
    }
}

/// Collect the distinct review texts that match a phrase, preserving first
/// match order and exact original text.
pub fn matching_tips(tips: &Vec<String>, phrases: &Vec<String>) -> (r: Vec<String>)
    ensures
        r.deep_view() == spec_matching_tips(
            tips.deep_view(),
            phrases.deep_view(),
            tips@.len() as int,
        ),
{
    let mut r: Vec<String> = Vec::new();
    let mut i: usize = 0;
    proof {
        assert(r.deep_view() =~= spec_matching_tips(tips.deep_view(), phrases.deep_view(), 0));
    }
    while i < tips.len()
        invariant
            0 <= i <= tips@.len(),
            r.deep_view() == spec_matching_tips(tips.deep_view(), phrases.deep_view(), i as int),
        decreases tips@.len() - i,
    {
        proof {
            assert(tips.deep_view()[i as int] == tips@[i as int]@);
        }
        let matched = tip_matches(&tips[i], phrases);
        let mut dup = false;
        let mut j: usize = 0;
        while j < i
            invariant
                0 <= j <= i < tips@.len(),
                dup <==> exists|q: int|
                    0 <= q < j && tips.deep_view()[q] == tips.deep_view()[i as int],
            decreases i - j,
        {
            proof {
                assert(tips.deep_view()[j as int] == tips@[j as int]@);
                assert(tips.deep_view()[i as int] == tips@[i as int]@);
            }
            if tips[j] == tips[i] {
                dup = true;
            }
            j = j + 1;
        }
        if matched && !dup {
            r.push(tips[i].clone());
            proof {
                assert(r.deep_view() =~= spec_matching_tips(
                    tips.deep_view(),
                    phrases.deep_view(),
                    i + 1 as int,
                ));
            }
        }
        i = i + 1;
    }
    r
}

/// Every text the tip filter emits is one of the matching input texts.
pub proof fn lemma_matching_tips_members(tips: Seq<Seq<char>>, phrases: Seq<Seq<char>>, n: int)
    requires
        0 <= n <= tips.len(),
    ensures
        forall|t: int|
            0 <= t < spec_matching_tips(tips, phrases, n).len() ==> exists|j: int|
                0 <= j < n && #[trigger] spec_matching_tips(tips, phrases, n)[t] == tips[j]
                    && spec_tip_matches(tips[j], phrases),
    decreases n,
{
    if n > 0 {
        lemma_matching_tips_members(tips, phrases, n - 1);
        let prev = spec_matching_tips(tips, phrases, n - 1);
        let cur = spec_matching_tips(tips, phrases, n);
        assert forall|t: int| 0 <= t < cur.len() implies exists|j: int|
            0 <= j < n && #[trigger] cur[t] == tips[j] && spec_tip_matches(tips[j], phrases) by {
            if t < prev.len() {
                assert(cur[t] == prev[t]);
                let j = choose|j: int|
                    0 <= j < n - 1 && #[trigger] prev[t] == tips[j] && spec_tip_matches(
                        tips[j],
                        phrases,
                    );
                assert(cur[t] == tips[j] && spec_tip_matches(tips[j], phrases));
            } else {
                assert(cur[t] == tips[n - 1] && spec_tip_matches(tips[n - 1], phrases));
            }
        }
    }
}

/// Law: a bar's tips are distinct.  The filter never emits the same review
/// text twice.
pub proof fn lemma_matching_tips_distinct(tips: Seq<Seq<char>>, phrases: Seq<Seq<char>>, n: int)
    requires
        0 <= n <= tips.len(),
    ensures
        forall|p: int, q: int|
            0 <= p < q < spec_matching_tips(tips, phrases, n).len()
                ==> #[trigger] spec_matching_tips(tips, phrases, n)[p]
                != #[trigger] spec_matching_tips(tips, phrases, n)[q],
    decreases n,
{
    if n > 0 {
        lemma_matching_tips_distinct(tips, phrases, n - 1);
        lemma_matching_tips_members(tips, phrases, n - 1);
        let prev = spec_matching_tips(tips, phrases, n - 1);
        let cur = spec_matching_tips(tips, phrases, n);
        assert forall|p: int, q: int| 0 <= p < q < cur.len() implies #[trigger] cur[p]
            != #[trigger] cur[q] by {
            if q < prev.len() {
                assert(cur[p] == prev[p] && cur[q] == prev[q]);
            } else if cur.len() > prev.len() {
                // The new entry differs from every earlier input text.
                assert(cur[q] == tips[n - 1]);
                assert(cur[p] == prev[p]);
                let j = choose|j: int|
                    0 <= j < n - 1 && #[trigger] prev[p] == tips[j] && spec_tip_matches(
                        tips[j],
                        phrases,
                    );
                assert(tips[j] != tips[n - 1]);
            }
        }
    }
}

/// Law: the filter loses no matching review.  The text of every matching
/// review appears in the output (once, by
/// [`lemma_matching_tips_distinct`]), whichever occurrence supplied it.
pub proof fn lemma_matching_tips_complete(
    tips: Seq<Seq<char>>,
    phrases: Seq<Seq<char>>,
    n: int,
    j: int,
)
    requires
        0 <= n <= tips.len(),
        0 <= j < n,
        spec_tip_matches(tips[j], phrases),
    ensures
        spec_matching_tips(tips, phrases, n).contains(tips[j]),
    decreases n,
{
    if j == n - 1 {
        if forall|k: int| 0 <= k < n - 1 ==> #[trigger] tips[k] != tips[n - 1] {
            assert(spec_matching_tips(tips, phrases, n).last() == tips[j]);
        } else {
            // An earlier occurrence of the same text matched in its place.
            let k = choose|k: int| 0 <= k < n - 1 && #[trigger] tips[k] == tips[n - 1];
            lemma_matching_tips_complete(tips, phrases, n - 1, k);
            lemma_matching_tips_prefix(tips, phrases, n, tips[k]);
        }
    } else {
        lemma_matching_tips_complete(tips, phrases, n - 1, j);
        lemma_matching_tips_prefix(tips, phrases, n, tips[j]);
    }
}

/// A text present after `n - 1` reviews is still present after `n`.
proof fn lemma_matching_tips_prefix(tips: Seq<Seq<char>>, phrases: Seq<Seq<char>>, n: int, x: Seq<char>)
    requires
        0 < n <= tips.len(),
        spec_matching_tips(tips, phrases, n - 1).contains(x),
    ensures
        spec_matching_tips(tips, phrases, n).contains(x),
{
    let t = choose|t: int|
        0 <= t < spec_matching_tips(tips, phrases, n - 1).len() && #[trigger] spec_matching_tips(
            tips,
            phrases,
            n - 1,
        )[t] == x;
    assert(spec_matching_tips(tips, phrases, n)[t] == x);
}

/// Keep venue `i` of `s`: its region code equals the required one and no
/// earlier venue carries the same id.
pub open spec fn keep_venue(s: Seq<VenueView>, i: int, region: Seq<char>) -> bool {
    &&& s[i].region == Some(region)
    &&& forall|j: int| 0 <= j < i ==> (#[trigger] s[j]).id != s[i].id
}

/// The venues of a prefix of `s` that survive deduplication by id (first
/// occurrence wins) and the region filter, in their original order.
pub open spec fn spec_dedup_filter(s: Seq<VenueView>, region: Seq<char>, n: int) -> Seq<VenueView>
    decreases n,
{
    if n <= 0 {
        Seq::empty()
    } else {
        let prev = spec_dedup_filter(s, region, n - 1);
        if keep_venue(s, n - 1, region) {
            prev.push(s[n - 1])
        } else {
            prev
        }
    }
}

/// Deduplicate venues by id, keeping the first occurrence and the relative
/// order, and drop venues whose region code is absent or differs from
/// `region`.
pub fn dedup_filter_region(venues: &Vec<Venue>, region: &String) -> (r: Vec<Venue>)
    ensures
        r.deep_view() == spec_dedup_filter(venues.deep_view(), region@, venues@.len() as int),
{
    let mut r: Vec<Venue> = Vec::new();
    let mut i: usize = 0;
    proof {
        assert(r.deep_view() =~= spec_dedup_filter(venues.deep_view(), region@, 0));
    }
    while i < venues.len()
        invariant
            0 <= i <= venues@.len(),
            r.deep_view() == spec_dedup_filter(venues.deep_view(), region@, i as int),
        decreases venues@.len() - i,
    {
        proof {
            assert(venues.deep_view()[i as int] == venues@[i as int]@);
        }
        let in_region = match &venues[i].region {
            Some(s) => *s == *region,
            None => false,
        };
        let mut dup = false;
        let mut j: usize = 0;
        while j < i
            invariant
                0 <= j <= i < venues@.len(),
                dup <==> exists|q: int|
                    0 <= q < j && venues.deep_view()[q].id == venues.deep_view()[i as int].id,
            decreases i - j,
        {
            proof {
                assert(venues.deep_view()[j as int] == venues@[j as int]@);
                assert(venues.deep_view()[i as int] == venues@[i as int]@);
            }
            if venues[j].id == venues[i].id {
                dup = true;
            }
            j = j + 1;
        }
        if in_region && !dup {
            r.push(venues[i].clone());
            proof {
                assert(r.deep_view() =~= spec_dedup_filter(
                    venues.deep_view(),
                    region@,
                    i + 1 as int,
                ));
            }
        }
        i = i + 1;
    }
    r
}

/// `v` is one of the first `n` venues of `s`, and one the filter keeps.
pub open spec fn kept_venue_record(
    s: Seq<VenueView>,
    region: Seq<char>,
    n: int,
    v: VenueView,
) -> bool {
    exists|j: int| 0 <= j < n && v == #[trigger] s[j] && keep_venue(s, j, region)
}

/// Every venue the dedup emits is one of the kept input venues.
pub proof fn lemma_dedup_filter_members(s: Seq<VenueView>, region: Seq<char>, n: int)
    requires
        0 <= n <= s.len(),
    ensures
        forall|t: int|
            0 <= t < spec_dedup_filter(s, region, n).len() ==> kept_venue_record(
                s,
                region,
                n,
                #[trigger] spec_dedup_filter(s, region, n)[t],
            ),
    decreases n,
{
    if n > 0 {
        lemma_dedup_filter_members(s, region, n - 1);
        assert forall|t: int| 0 <= t < spec_dedup_filter(s, region, n).len() implies
            kept_venue_record(s, region, n, #[trigger] spec_dedup_filter(s, region, n)[t]) by {
            let prevlen = spec_dedup_filter(s, region, n - 1).len() as int;
            if t < prevlen {
                assert(spec_dedup_filter(s, region, n)[t] == spec_dedup_filter(s, region, n - 1)[t]);
                assert(kept_venue_record(s, region, n - 1, spec_dedup_filter(s, region, n - 1)[t]));
                let j = choose|j: int|
                    0 <= j < n - 1 && spec_dedup_filter(s, region, n - 1)[t] == #[trigger] s[j]
                        && keep_venue(s, j, region);
                assert(spec_dedup_filter(s, region, n)[t] == s[j]);
            } else {
                assert(spec_dedup_filter(s, region, n)[t] == s[n - 1]);
                assert(keep_venue(s, n - 1, region));
            }
        }
    }
}

/// Law: after deduplication no two kept venues share an id, so each
/// discovered venue appears at most once downstream.
pub proof fn lemma_dedup_filter_unique(s: Seq<VenueView>, region: Seq<char>, n: int)
    requires
        0 <= n <= s.len(),
    ensures
        forall|p: int, q: int|
            0 <= p < q < spec_dedup_filter(s, region, n).len()
                ==> (#[trigger] spec_dedup_filter(s, region, n)[p]).id
                != (#[trigger] spec_dedup_filter(s, region, n)[q]).id,
    decreases n,
{
    if n > 0 {
        lemma_dedup_filter_unique(s, region, n - 1);
        lemma_dedup_filter_members(s, region, n - 1);
        assert forall|p: int, q: int|
            0 <= p < q < spec_dedup_filter(s, region, n).len() implies (#[trigger]
        spec_dedup_filter(s, region, n)[p]).id != (#[trigger] spec_dedup_filter(s, region, n)[q]).id
            by {
            let prevlen = spec_dedup_filter(s, region, n - 1).len() as int;
            if q < prevlen {
                assert(spec_dedup_filter(s, region, n)[p] == spec_dedup_filter(s, region, n - 1)[p]);
                assert(spec_dedup_filter(s, region, n)[q] == spec_dedup_filter(s, region, n - 1)[q]);
            } else {
                // The newly kept venue's id differs from every earlier one.
                assert(spec_dedup_filter(s, region, n)[q] == s[n - 1]);
                assert(spec_dedup_filter(s, region, n)[p] == spec_dedup_filter(s, region, n - 1)[p]);
                assert(kept_venue_record(s, region, n - 1, spec_dedup_filter(s, region, n - 1)[p]));
                let j = choose|j: int|
                    0 <= j < n - 1 && spec_dedup_filter(s, region, n - 1)[p] == #[trigger] s[j]
                        && keep_venue(s, j, region);
                assert(keep_venue(s, n - 1, region));
                assert(s[j].id != s[n - 1].id);
            }
        }
    }
}

/// Law: deduplication drops nothing it should keep.  Every venue in the
/// wanted region whose id has no earlier occurrence appears in the output,
/// so together with [`lemma_dedup_filter_unique`] each discovered venue is
/// kept exactly once.
pub proof fn lemma_dedup_filter_complete(s: Seq<VenueView>, region: Seq<char>, n: int, j: int)
    requires
        0 <= n <= s.len(),
        0 <= j < n,
        keep_venue(s, j, region),
    ensures
        spec_dedup_filter(s, region, n).contains(s[j]),
    decreases n,
{
    if j == n - 1 {
        assert(spec_dedup_filter(s, region, n).last() == s[j]);
    } else {
        lemma_dedup_filter_complete(s, region, n - 1, j);
        let t = choose|t: int|
            0 <= t < spec_dedup_filter(s, region, n - 1).len() && #[trigger] spec_dedup_filter(
                s,
                region,
                n - 1,
            )[t] == s[j];
        assert(spec_dedup_filter(s, region, n)[t] == s[j]);
    }
}

/// The bars built from a prefix of the filtered venues and their fetched
/// review lists: one bar per venue with at least one matching review, its
/// tips being exactly the distinct matching texts.
pub open spec fn spec_collect_bars(
    vs: Seq<VenueView>,
    tls: Seq<Seq<Seq<char>>>,
    ph: Seq<Seq<char>>,
    n: int,
) -> Seq<BarView>
    decreases n,
{
    if n <= 0 {
        Seq::empty()
    } else {
        let prev = spec_collect_bars(vs, tls, ph, n - 1);
        let mt = spec_matching_tips(tls[n - 1], ph, tls[n - 1].len() as int);
        if mt.len() > 0 {
            prev.push(
                BarView {
                    id: vs[n - 1].id,
                    name: vs[n - 1].name,
                    lat_micro: vs[n - 1].lat_micro,
                    lng_micro: vs[n - 1].lng_micro,
                    tips: mt,
                },
            )
        } else {
            prev
        }
    }
}

/// Build the bar records: venue `i` is paired with its fetched review texts
/// `tip_lists[i]`; a venue with no matching review is dropped silently.
pub fn collect_bars(venues: &Vec<Venue>, tip_lists: &Vec<Vec<String>>, phrases: &Vec<String>) -> (bars:
    Vec<Bar>)
    requires
        tip_lists@.len() == venues@.len(),
    ensures
        bars.deep_view() == spec_collect_bars(
            venues.deep_view(),
            tip_lists.deep_view(),
            phrases.deep_view(),
            venues@.len() as int,
        ),
{
    let mut bars: Vec<Bar> = Vec::new();
    let mut i: usize = 0;
    proof {
        assert(bars.deep_view() =~= spec_collect_bars(
            venues.deep_view(),
            tip_lists.deep_view(),
            phrases.deep_view(),
            0,
        ));
    }
    while i < venues.len()
        invariant
            tip_lists@.len() == venues@.len(),
            0 <= i <= venues@.len(),
            bars.deep_view() == spec_collect_bars(
                venues.deep_view(),
                tip_lists.deep_view(),
                phrases.deep_view(),
                i as int,
            ),
        decreases venues@.len() - i,
    {
        let mt = matching_tips(&tip_lists[i], phrases);
        if mt.len() > 0 {
            let v = &venues[i];
            bars.push(
                Bar {
                    id: v.id.clone(),
                    name: v.name.clone(),
                    lat_micro: v.lat_micro,
                    lng_micro: v.lng_micro,
                    tips: mt,
                },
            );
            proof {
                assert(bars.deep_view() =~= spec_collect_bars(
                    venues.deep_view(),
                    tip_lists.deep_view(),
                    phrases.deep_view(),
                    i + 1 as int,
                ));
            }
        }
        i = i + 1;
    }
    bars
}

/// Law: every bar the pipeline emits carries at least one review text, so
/// a pipeline snapshot always satisfies the catalog's invariant.
pub proof fn lemma_collect_bars_have_tips(
    vs: Seq<VenueView>,
    tls: Seq<Seq<Seq<char>>>,
    ph: Seq<Seq<char>>,
    n: int,
)
    ensures
        crate::catalog::all_have_tips(spec_collect_bars(vs, tls, ph, n)),
    decreases n,
{
    if n > 0 {
        lemma_collect_bars_have_tips(vs, tls, ph, n - 1);
    }
}

/// The fixed phrase list the filter searches reviews for: spelling variants
/// of one drink's name, all lowercase.
pub open spec fn spec_search_phrases() -> Seq<Seq<char>> {
    seq![
        "pickle back"@,
        "pickleback"@,
        "pickel back"@,
        "pickelback"@,
        "pickle-back"@,
        "pickle-back"@,
        "pickle shot"@,
        "pickel shot"@,
        "pickle-shot"@,
        "pickel-shot"@,
        "shot of pickle"@,
        "shot of pickel"@,
        "shot pickle"@,
        "shot pickel"@,
        "pickle juice"@,
        "pickel juice"@,
        "pickle-juice"@,
        "pickel-juice"@,
    ]
}

/// The default phrase list as an owned vector.
pub fn default_search_phrases() -> (r: Vec<String>)
    ensures
        r.deep_view() == spec_search_phrases(),
{
    let mut r: Vec<String> = Vec::new();
    r.push(String::from_str("pickle back"));
    r.push(String::from_str("pickleback"));
    r.push(String::from_str("pickel back"));
    r.push(String::from_str("pickelback"));
    r.push(String::from_str("pickle-back"));
    r.push(String::from_str("pickle-back"));
    r.push(String::from_str("pickle shot"));
    r.push(String::from_str("pickel shot"));
    r.push(String::from_str("pickle-shot"));
    r.push(String::from_str("pickel-shot"));
    r.push(String::from_str("shot of pickle"));
    r.push(String::from_str("shot of pickel"));
    r.push(String::from_str("shot pickle"));
    r.push(String::from_str("shot pickel"));
    r.push(String::from_str("pickle juice"));
    r.push(String::from_str("pickel juice"));
    r.push(String::from_str("pickle-juice"));
    r.push(String::from_str("pickel-juice"));
    proof {
        assert(r.deep_view() =~= spec_search_phrases());
    }
    r
}

} // verus!
