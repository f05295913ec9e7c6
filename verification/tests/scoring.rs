use libafl_sandbox::mutators::TickGuidedMutator;
use libafl_sandbox::scoring::{bucketize_nonneg, dist_to_range, zone_bounds, zone_validity_score};

#[test]
fn distance_to_window() {
    assert_eq!(dist_to_range(50, 60, 90), 10);
    assert_eq!(dist_to_range(95, 60, 90), 5);
    assert_eq!(dist_to_range(60, 60, 90), 0);
    assert_eq!(dist_to_range(75, 60, 90), 0);
}

#[test]
fn buckets_are_capped() {
    assert_eq!(bucketize_nonneg(0, 2, 15), 0);
    assert_eq!(bucketize_nonneg(-5, 2, 15), 0);
    assert_eq!(bucketize_nonneg(7, 2, 15), 3);
    assert_eq!(bucketize_nonneg(100, 2, 15), 15);
    assert_eq!(bucketize_nonneg(4000, 16, 255), 250);
    assert_eq!(bucketize_nonneg(5000, 16, 255), 255);
    assert_eq!(bucketize_nonneg(7, -2, 15), (-3i64) as u8);
}

#[test]
fn zone_windows_follow_the_fill_head() {
    assert_eq!(zone_bounds(-3), (60, 90, 50, 65));
    assert_eq!(zone_bounds(7), (60, 90, 50, 65));
    assert_eq!(zone_bounds(8), (80, 110, 62, 77));
    assert_eq!(zone_bounds(23), (70, 100, 72, 87));
    assert_eq!(zone_bounds(24), (55, 85, 65, 80));
    assert_eq!(zone_bounds(39), (95, 125, 55, 70));
    assert_eq!(zone_bounds(40), (65, 95, 78, 93));
    assert_eq!(zone_bounds(55), (85, 115, 52, 67));
    assert_eq!(zone_bounds(56), (75, 105, 63, 78));
    assert_eq!(zone_bounds(1000), (75, 105, 63, 78));
}

#[test]
fn zone_scores() {
    // Inside both windows of zone 0 with margins 5 (pv) and 8 (temp): 200 + 5 * 5.
    assert_eq!(zone_validity_score(0, 85, 58), 225);
    // Deep inside: margin capped at 11.
    assert_eq!(zone_validity_score(0, 75, 57), 235);
    // On an edge: margin 0.
    assert_eq!(zone_validity_score(0, 60, 57), 200);
    // Outside: 199 minus the total miss.
    assert_eq!(zone_validity_score(0, 50, 70), 199 - 10 - 5);
    assert_eq!(zone_validity_score(0, 500, 255), 0);
}

#[test]
fn snapping_picks_the_nearest_threshold() {
    assert_eq!(TickGuidedMutator::snap_value(0), 40);
    assert_eq!(TickGuidedMutator::snap_value(45), 40);
    assert_eq!(TickGuidedMutator::snap_value(46), 50);
    assert_eq!(TickGuidedMutator::snap_value(62), 63);
    assert_eq!(TickGuidedMutator::snap_value(64), 63);
    assert_eq!(TickGuidedMutator::snap_value(105), 100);
    assert_eq!(TickGuidedMutator::snap_value(118), 125);
    assert_eq!(TickGuidedMutator::snap_value(255), 125);
    for v in 0..=255u8 {
        let s = TickGuidedMutator::snap_value(v);
        assert_eq!(TickGuidedMutator::snap_value(s), s);
    }
}
