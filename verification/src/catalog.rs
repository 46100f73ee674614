//! The served snapshot: an immutable list of bar records, replaced wholesale
//! on a successful reload and kept untouched on a failed one, and the
//! distance-weighted lookup over it.

use vstd::prelude::*;

use crate::scorer::{
    lemma_sum_weights_all_zero, lemma_sum_weights_zero, lemma_weight_positive, random_below,
    range_weights, select_weighted, total_weight, weight_of, MAX_RANGE_MILLI,
};

verus! {

/// A bar whose reviews mention the searched drink: the venue's id and name,
/// its location in microdegrees, and the distinct matching review texts.
pub struct Bar {
    pub id: String,
    pub name: String,
    pub lat_micro: i64,
    pub lng_micro: i64,
    pub tips: Vec<String>,
}

/// The mathematical image of a [`Bar`].
pub struct BarView {
    pub id: Seq<char>,
    pub name: Seq<char>,
    pub lat_micro: int,
    pub lng_micro: int,
    pub tips: Seq<Seq<char>>,
}

impl View for Bar {
    type V = BarView;

    open spec fn view(&self) -> BarView {
        BarView {
            id: self.id@,
            name: self.name@,
            lat_micro: self.lat_micro as int,
            lng_micro: self.lng_micro as int,
            tips: self.tips.deep_view(),
        }
    }
}

impl DeepView for Bar {
    type V = BarView;

    open spec fn deep_view(&self) -> BarView {
        self.view()
    }
}

/// Every bar of a snapshot carries at least one review text; the pipeline
/// only ever emits such bars, and the lookup draws a review from the chosen
/// bar.
pub open spec fn all_have_tips(s: Seq<BarView>) -> bool {
    forall|i: int| 0 <= i < s.len() ==> (#[trigger] s[i]).tips.len() > 0
}

/// Check a parsed bar list before it is admitted as a snapshot.
pub fn bars_all_have_tips(bars: &Vec<Bar>) -> (r: bool)
    ensures
        r == all_have_tips(bars.deep_view()),
{
    let mut i: usize = 0;
    while i < bars.len()
        invariant
            0 <= i <= bars@.len(),
            forall|q: int| 0 <= q < i ==> (#[trigger] bars.deep_view()[q]).tips.len() > 0,
        decreases bars@.len() - i,
    {
        if bars[i].tips.len() == 0 {
            proof {
                assert(bars.deep_view()[i as int].tips.len() == 0);
            }
            return false;
        }
        i = i + 1;
    }
    true
}

/// The in-memory directory of bars.  Its snapshot is only ever replaced
/// wholesale; concurrent sharing (one writer swapping, many readers) is the
/// embedding program's concern and leaves each reader a consistent view.
pub struct BarListing {
    bars: Vec<Bar>,
}

impl View for BarListing {
    type V = Seq<BarView>;

    closed spec fn view(&self) -> Seq<BarView> {
        self.bars.deep_view()
    }
}

impl BarListing {
    pub open spec fn wf(self) -> bool {
        all_have_tips(self@)
    }

    /// Create the directory from an initial, already parsed bar list.  A
    /// caller that cannot parse its source has no listing to serve and must
    /// fail instead of calling this.
    pub fn new(bars: Vec<Bar>) -> (s: Self)
        requires
            all_have_tips(bars.deep_view()),
        ensures
            s@ == bars.deep_view(),
            s.wf(),
    {
        BarListing { bars }
    }

    /// Replace the snapshot with a freshly parsed bar list, or keep the
    /// previous snapshot untouched when the reload attempt failed (`None`):
    /// a failed reload never degrades what is being served.
    pub fn reload_bars(&mut self, parsed: Option<Vec<Bar>>)
        requires
            old(self).wf(),
            parsed matches Some(b) ==> all_have_tips(b.deep_view()),
        ensures
            final(self).wf(),
            parsed matches Some(b) ==> final(self)@ == b.deep_view(),
            parsed is None ==> final(self)@ == old(self)@,
    {
        match parsed {
            Some(b) => {
                self.bars = b;
            },
            None => {},
        }
    }

    /// The current snapshot, read-only.
    pub fn snapshot(&self) -> (r: &Vec<Bar>)
        ensures
            r.deep_view() == self@,
    {
        &self.bars
    }

    pub fn bar_count(&self) -> (n: usize)
        ensures
            n == self@.len(),
    {
        self.bars.len()
    }

    /// Locate one nearby bar at random, weighted by distance.
    ///
    /// `dists_milli[i]` is the caller-computed great-circle distance, in
    /// thousandths of a mile, from the query point to bar `i` of the
    /// snapshot.  Bars farther than `max_milli` are skipped.  If no bar is
    /// in range, nothing is returned; otherwise one in-range bar is chosen
    /// with probability proportional to its utility weight, and one of its
    /// review texts is chosen uniformly.  The result is the chosen bar's id
    /// and name and the chosen review text.
    pub fn locate_pickleback(&self, dists_milli: &Vec<u64>, max_milli: u64) -> (r: Option<
        (String, String, String),
    >)
        requires
            self.wf(),
            dists_milli@.len() == self@.len(),
            max_milli <= MAX_RANGE_MILLI,
            self@.len() <= 1_000_000_000,
        ensures
            r is None <==> (forall|i: int|
                0 <= i < self@.len() ==> #[trigger] dists_milli@[i] > max_milli),
            r matches Some(t) ==> exists|i: int|
                {
                    &&& 0 <= i < self@.len()
                    &&& #[trigger] dists_milli@[i] <= max_milli
                    &&& t.0@ == self@[i].id
                    &&& t.1@ == self@[i].name
                    &&& self@[i].tips.contains(t.2@)
                },
    {
        let ws = range_weights(dists_milli, max_milli);
        let total = total_weight(&ws);
        if total == 0 {
            proof {
                lemma_sum_weights_zero(ws@, ws@.len() as int);
                assert forall|i: int| 0 <= i < self@.len() implies #[trigger] dists_milli@[i]
                    > max_milli by {
                    if dists_milli@[i] <= max_milli {
                        lemma_weight_positive(dists_milli@[i] as int);
                        assert(ws@[i] == weight_of(dists_milli@[i] as int));
                        assert(ws@[i] == 0);
                    }
                }
            }
            return None;
        }
        proof {
            if forall|i: int| 0 <= i < self@.len() ==> #[trigger] dists_milli@[i] > max_milli {
                assert(forall|i: int| 0 <= i < ws@.len() ==> ws@[i] == 0);
                lemma_sum_weights_all_zero(ws@, ws@.len() as int);
            }
        }
        let draw = random_below(total);
        let i = select_weighted(&ws, draw);
        let bar = &self.bars[i];
        let tip_count = bar.tips.len();
        proof {
            assert(self@[i as int].tips.len() > 0);
        }
        let t = random_below(tip_count as u64) as usize;
        let tip = bar.tips[t].clone();
        let r = Some((bar.id.clone(), bar.name.clone(), tip));
        proof {
            assert(self@[i as int].tips[t as int] == bar.tips@[t as int]@);
        }
        r
    }
}

} // verus!
