//! Distance-weighted selection: a quartic-decay utility weight per bar and
//! exact proportional selection of one index from a weight list.
//!
//! Distances are integer thousandths of a mile.  The utility
//! `5000 / (40 * d^4 + 0.96)` of a bar `d` miles away is, for `d = k/1000`,
//! exactly the rational `125_000_000_000_000 / (k^4 + 24_000_000_000)`; the
//! executable weight scales its numerator by 1000 and rounds down.

use vstd::prelude::*;
use vstd::arithmetic::div_mod::lemma_basic_div;
use vstd::arithmetic::div_mod::lemma_div_is_ordered_by_denominator;

verus! {

/// Numerator of the exact utility rational, for distances in thousandths of
/// a mile.
pub open spec fn utility_num() -> int {
    125_000_000_000_000
}

/// Denominator of the exact utility rational at distance `k` thousandths of
/// a mile.
pub open spec fn utility_den(k: int) -> int {
    k * k * k * k + 24_000_000_000
}

/// The executable weight: the utility scaled by 1000 and rounded down.
pub open spec fn weight_of(k: int) -> int {
    125_000_000_000_000_000int / utility_den(k)
}

/// Largest value [`weight_of`] can take, reached at distance zero.
pub const MAX_WEIGHT: u64 = 5_208_333;

/// Largest supported in-range distance, in thousandths of a mile.  Up to it
/// the scaled weight of an in-range bar is provably positive, so a bar
/// within range always has selection probability above zero.
pub const MAX_RANGE_MILLI: u64 = 18_000;

/// Law: the utility at distance zero is exactly `5000 / 0.96`, i.e. the
/// rational `utility_num() / utility_den(0)` equals `500000 / 96`.
pub proof fn lemma_utility_at_zero()
    ensures
        utility_num() * 96 == 500_000 * utility_den(0),
{
}

/// Law: the utility is strictly decreasing in the distance.  For
/// `0 <= k1 < k2` the denominators grow strictly, so as rationals
/// `utility_num() / utility_den(k1) > utility_num() / utility_den(k2)`,
/// stated cross-multiplied below.
pub proof fn lemma_utility_strictly_decreasing(k1: int, k2: int)
    requires
        0 <= k1 < k2,
    ensures
        0 < utility_den(k1) < utility_den(k2),
        utility_num() * utility_den(k2) > utility_num() * utility_den(k1),
{
    assert(k1 * k1 * k1 * k1 < k2 * k2 * k2 * k2) by (nonlinear_arith)
        requires
            0 <= k1 < k2,
    ;
    assert(utility_num() * utility_den(k2) > utility_num() * utility_den(k1)) by (nonlinear_arith)
        requires
            0 < utility_den(k1) < utility_den(k2),
            utility_num() == 125_000_000_000_000,
    ;
}

/// Within the supported range the rounded weight never underflows to zero.
pub proof fn lemma_weight_positive(k: int)
    requires
        0 <= k <= MAX_RANGE_MILLI,
    ensures
        weight_of(k) >= 1,
{
    assert(k * k * k * k <= 18_000 * 18_000 * 18_000 * 18_000) by (nonlinear_arith)
        requires
            0 <= k <= 18_000,
    ;
    assert(125_000_000_000_000_000int / utility_den(k) >= 1) by (nonlinear_arith)
        requires
            0 < utility_den(k) <= 125_000_000_000_000_000,
    ;
}

/// The rounded weight is bounded by its value at distance zero.
pub proof fn lemma_weight_bounds(k: int)
    requires
        0 <= k,
    ensures
        0 <= weight_of(k) <= MAX_WEIGHT,
{
    assert(k * k * k * k >= 0) by (nonlinear_arith);
    lemma_div_is_ordered_by_denominator(
        125_000_000_000_000_000,
        24_000_000_000,
        utility_den(k),
    );
    assert(weight_of(k) >= 0) by {
        vstd::arithmetic::div_mod::lemma_div_pos_is_pos(
            125_000_000_000_000_000,
            utility_den(k),
        );
    }
}

/// Compute the scaled utility weight of a distance of `k` thousandths of a
/// mile.
pub fn utility_weight(k: u64) -> (w: u64)
    ensures
        w == weight_of(k as int),
        w <= MAX_WEIGHT,
{
    proof {
        lemma_weight_bounds(k as int);
    }
    if k > 100_000 {
        proof {
            assert((k as int) * (k as int) * (k as int) * (k as int) > 125_000_000_000_000_000)
                by (nonlinear_arith)
                requires
                    k > 100_000,
            ;
            lemma_basic_div(125_000_000_000_000_000, utility_den(k as int));
        }
        0
    } else {
        let kk: u128 = k as u128;
        proof {
            assert(kk * kk <= 10_000_000_000) by (nonlinear_arith)
                requires
                    kk <= 100_000,
            ;
        }
        let k2: u128 = kk * kk;
        proof {
            assert(k2 * k2 <= 100_000_000_000_000_000_000) by (nonlinear_arith)
                requires
                    k2 <= 10_000_000_000,
            ;
            assert(k2 * k2 == (k as int) * (k as int) * (k as int) * (k as int))
                by (nonlinear_arith)
                requires
                    k2 == (k as int) * (k as int),
            ;
        }
        let k4: u128 = k2 * k2;
        let den: u128 = k4 + 24_000_000_000;
        let w: u128 = 125_000_000_000_000_000u128 / den;
        w as u64
    }
}

/// The sum of the first `n` weights.
pub open spec fn sum_weights(ws: Seq<u64>, n: int) -> int
    decreases n,
{
    if n <= 0 {
        0
    } else {
        sum_weights(ws, n - 1) + ws[n - 1]
    }
}

/// A sum of unsigned weights is never negative.
pub proof fn lemma_sum_weights_nonneg(ws: Seq<u64>, n: int)
    requires
        0 <= n <= ws.len(),
    ensures
        sum_weights(ws, n) >= 0,
    decreases n,
{
    if n > 0 {
        lemma_sum_weights_nonneg(ws, n - 1);
    }
}

/// A zero sum means every summed weight is zero.
pub proof fn lemma_sum_weights_zero(ws: Seq<u64>, n: int)
    requires
        0 <= n <= ws.len(),
        sum_weights(ws, n) == 0,
    ensures
        forall|i: int| 0 <= i < n ==> ws[i] == 0,
    decreases n,
{
    if n > 0 {
        lemma_sum_weights_nonneg(ws, n - 1);
        lemma_sum_weights_zero(ws, n - 1);
    }
}

/// All-zero weights sum to zero.
pub proof fn lemma_sum_weights_all_zero(ws: Seq<u64>, n: int)
    requires
        0 <= n <= ws.len(),
        forall|i: int| 0 <= i < n ==> ws[i] == 0,
    ensures
        sum_weights(ws, n) == 0,
    decreases n,
{
    if n > 0 {
        lemma_sum_weights_all_zero(ws, n - 1);
    }
}

/// Law: selection is exactly proportional.  [`select_weighted`] returns `i`
/// precisely for the draws in the half-open interval
/// `[sum_weights(ws, i), sum_weights(ws, i + 1))`, and that interval is
/// exactly `ws[i]` draws wide, so a uniform draw over `[0, total)` selects
/// `i` with probability `ws[i] / total`.
pub proof fn lemma_selection_share(ws: Seq<u64>, i: int)
    requires
        0 <= i < ws.len(),
    ensures
        sum_weights(ws, i + 1) - sum_weights(ws, i) == ws[i],
{
}

/// The weight list of a snapshot: the scaled utility of each in-range bar,
/// zero for every bar farther than `max` thousandths of a mile.
pub fn range_weights(dists: &Vec<u64>, max: u64) -> (ws: Vec<u64>)
    ensures
        ws@.len() == dists@.len(),
        forall|i: int|
            0 <= i < ws@.len() ==> ws@[i] == (if dists@[i] <= max {
                weight_of(dists@[i] as int)
            } else {
                0
            }),
        forall|i: int| 0 <= i < ws@.len() ==> ws@[i] <= MAX_WEIGHT,
{
    let mut ws: Vec<u64> = Vec::new();
    let mut i: usize = 0;
    while i < dists.len()
        invariant
            0 <= i <= dists@.len(),
            ws@.len() == i,
            forall|q: int|
                0 <= q < i ==> ws@[q] == (if dists@[q] <= max {
                    weight_of(dists@[q] as int)
                } else {
                    0
                }),
            forall|q: int| 0 <= q < i ==> ws@[q] <= MAX_WEIGHT,
        decreases dists@.len() - i,
    {
        let d = dists[i];
        if d <= max {
            ws.push(utility_weight(d));
        } else {
            ws.push(0);
        }
        i = i + 1;
    }
    ws
}

/// Sum a weight list whose entries are individually bounded.
pub fn total_weight(ws: &Vec<u64>) -> (t: u64)
    requires
        ws@.len() <= 1_000_000_000,
        forall|i: int| 0 <= i < ws@.len() ==> ws@[i] <= MAX_WEIGHT,
    ensures
        t == sum_weights(ws@, ws@.len() as int),
{
    let mut t: u64 = 0;
    let mut i: usize = 0;
    while i < ws.len()
        invariant
            0 <= i <= ws@.len() <= 1_000_000_000,
            forall|q: int| 0 <= q < ws@.len() ==> ws@[q] <= MAX_WEIGHT,
            t == sum_weights(ws@, i as int),
            t <= i * MAX_WEIGHT,
        decreases ws@.len() - i,
    {
        t = t + ws[i];
        i = i + 1;
    }
    t
}

/// Exact proportional selection: return the first index whose cumulative
/// weight exceeds the draw `r`.  Each index `i` is returned for exactly
/// `ws[i]` of the draws in `[0, total)`, so a uniformly random draw selects
/// `i` with probability `ws[i] / total`; an index with weight zero is never
/// returned.
pub fn select_weighted(ws: &Vec<u64>, r: u64) -> (i: usize)
    requires
        (r as int) < sum_weights(ws@, ws@.len() as int),
    ensures
        i < ws@.len(),
        sum_weights(ws@, i as int) <= r,
        (r as int) < sum_weights(ws@, i as int + 1),
        ws@[i as int] > 0,
{
    let mut sweep: u128 = 0;
    let mut i: usize = 0;
    while i < ws.len()
        invariant
            0 <= i <= ws@.len(),
            sweep == sum_weights(ws@, i as int),
            sweep <= r,
            (r as int) < sum_weights(ws@, ws@.len() as int),
        decreases ws@.len() - i,
    {
        let w = ws[i] as u128;
        if sweep + w > r as u128 {
            return i;
        }
        sweep = sweep + w;
        i = i + 1;
    }
    proof {
        assert(false);
    }
    vstd::pervasive::unreached()
}

/// Relies on `rand::random_range` over `0..n`: a uniformly distributed
/// value below `n`.  It panics only on an empty range, which the
/// precondition excludes; nothing more is assumed of any one outcome.
#[verifier::external_body]
pub(crate) fn random_below(n: u64) -> (r: u64)
    requires
        n > 0,
    ensures
        r < n,
{
    rand::random_range(0..n)
}

} // verus!
