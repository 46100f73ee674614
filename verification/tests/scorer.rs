use pickletrack::scorer::{select_weighted, total_weight, utility_weight, MAX_RANGE_MILLI, MAX_WEIGHT};

#[test]
fn weight_exact_values() {
    // utility(0) = 5000/0.96 = 5208.333..., scaled by 1000 and floored.
    assert_eq!(utility_weight(0), 5_208_333);
    assert_eq!(utility_weight(0), MAX_WEIGHT);
    // utility(1 mile) = 125e15/(1e12 + 24e9) scaled: 125e18/1.024e12.
    assert_eq!(utility_weight(1000), 125_000_000_000_000_000u64 / 1_024_000_000_000);
    // utility(3 miles), the default serving radius.
    assert_eq!(utility_weight(3000), 125_000_000_000_000_000u64 / 81_024_000_000_000);
}

#[test]
fn weight_strictly_decreasing_within_range() {
    // The scaled executable weight rounds down, so adjacent distances can
    // tie; strict decrease of the exact rational utility is proved in the
    // library, and shows through at these coarser steps.
    let samples = [0u64, 100, 500, 1000, 3000, 9000, 18000];
    for w in samples.windows(2) {
        assert!(
            utility_weight(w[0]) > utility_weight(w[1]),
            "weight not decreasing between {} and {}",
            w[0],
            w[1]
        );
    }
    // Rounding never reorders: a nearer bar always weighs at least as much.
    for k in 0..2000u64 {
        assert!(utility_weight(k) >= utility_weight(k + 1));
    }
    assert!(utility_weight(MAX_RANGE_MILLI) >= 1);
}

#[test]
fn selection_picks_first_cumulative_exceeding_draw() {
    let ws = vec![1u64, 2, 3];
    assert_eq!(total_weight(&ws), 6);
    assert_eq!(select_weighted(&ws, 0), 0);
    assert_eq!(select_weighted(&ws, 1), 1);
    assert_eq!(select_weighted(&ws, 2), 1);
    assert_eq!(select_weighted(&ws, 3), 2);
    assert_eq!(select_weighted(&ws, 4), 2);
    assert_eq!(select_weighted(&ws, 5), 2);
}

#[test]
fn zero_weight_entries_are_never_selected() {
    let ws = vec![0u64, 4, 0, 2, 0];
    for r in 0..6u64 {
        let i = select_weighted(&ws, r);
        assert!(ws[i] > 0);
    }
}

#[test]
fn sampling_frequencies_proportional_to_weights() {
    // Fixed pseudo-random source: a 64-bit LCG reduced mod the total.
    let ws = vec![1u64, 2, 3];
    let total = total_weight(&ws);
    let mut counts = [0u64; 3];
    let mut state: u64 = 42;
    let trials = 60_000u64;
    for _ in 0..trials {
        state = state.wrapping_mul(6364136223846793005).wrapping_add(1442695040888963407);
        let draw = (state >> 11) % total;
        counts[select_weighted(&ws, draw)] += 1;
    }
    for (i, &w) in ws.iter().enumerate() {
        let expected = trials as f64 * w as f64 / total as f64;
        let got = counts[i] as f64;
        let tolerance = 0.03 * trials as f64;
        assert!(
            (got - expected).abs() < tolerance,
            "bar {i}: got {got}, expected about {expected}"
        );
    }
}
