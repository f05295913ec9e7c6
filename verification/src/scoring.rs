//! Progress scoring used by the greybox harness: distances to the fill-zone
//! windows, bucketing of counters, and threshold snapping of analog bytes.
use vstd::prelude::*;

verus! {

/// Distance from `v` to the closed interval `[lo, hi]`, over mathematical integers.
pub open spec fn range_distance(v: int, lo: int, hi: int) -> int {
    if v < lo {
        lo - v
    } else if v > hi {
        v - hi
    } else {
        0
    }
}

pub open spec fn min_int(a: int, b: int) -> int {
    if a <= b { a } else { b }
}

pub open spec fn max_int(a: int, b: int) -> int {
    if a >= b { a } else { b }
}

/// How far `v` lies outside `[lo, hi]` (0 when inside).
pub fn dist_to_range(v: i32, lo: i32, hi: i32) -> (d: i32)
    requires
        range_distance(v as int, lo as int, hi as int) <= i32::MAX,
    ensures
        d == range_distance(v as int, lo as int, hi as int),
{
    if v < lo {
        lo - v
    } else if v > hi {
        v - hi
    } else {
        0
    }
}

/// The bucket value written for a counter: the counter divided by `step`,
/// capped at `cap`, truncated to a byte; 0 for non-positive counters.
pub open spec fn bucket_value(v: i32, step: i32, cap: u8) -> u8 {
    if v <= 0 {
        0
    } else {
        let q = if step > 0 { v as int / step as int } else { -(v as int / (-step) as int) };
        let b: i64 = q as i64;
        (if b < cap as i64 { b } else { cap as i64 }) as u8
    }
}

/// Buckets a non-negative counter into `[0, cap]` by steps of `step`.
pub fn bucketize_nonneg(v: i32, step: i32, cap: u8) -> (b: u8)
    requires
        step != 0,
    ensures
        b == bucket_value(v, step, cap),
        step > 0 ==> b as int == (if v <= 0 { 0 } else { min_int(v as int / step as int, cap as int) }),
{
    if v <= 0 {
        return 0;
    }
    // v > 0, so truncating division is division of magnitudes with the sign of `step`.
    let vu: u64 = v as u64;
    let su: u64 = if step > 0 { step as u64 } else { (-(step as i64)) as u64 };
    let qu: u64 = vu / su;
    let b: i64 = if step > 0 { qu as i64 } else { -(qu as i64) };
    let c: i64 = cap as i64;
    let m: i64 = if b < c { b } else { c };
    m as u8
}

/// Index of the fill zone that a fill-head value falls in: one zone per
/// 8 slots of the fill buffer, the first zone also taking negative values and
/// the last zone everything from 56 on.
pub open spec fn zone_of(fill_head: int) -> int {
    if fill_head <= 0 {
        0
    } else {
        min_int(fill_head / 8, 7)
    }
}

/// The valid windows `(pv_lo, pv_hi, temp_lo, temp_hi)` of each fill zone.
pub open spec fn zone_row(zone: int) -> (i32, i32, i32, i32) {
    if zone == 0 {
        (60, 90, 50, 65)
    } else if zone == 1 {
        (80, 110, 62, 77)
    } else if zone == 2 {
        (70, 100, 72, 87)
    } else if zone == 3 {
        (55, 85, 65, 80)
    } else if zone == 4 {
        (95, 125, 55, 70)
    } else if zone == 5 {
        (65, 95, 78, 93)
    } else if zone == 6 {
        (85, 115, 52, 67)
    } else {
        (75, 105, 63, 78)
    }
}

/// Process-value and temperature windows that the fill zone holding `fill_head` accepts.
pub fn zone_bounds(fill_head: i32) -> (b: (i32, i32, i32, i32))
    ensures
        b == zone_row(zone_of(fill_head as int)),
        b.0 < b.1 && b.2 < b.3,
{
    proof {
        if fill_head > 0 {
            assert(fill_head as int / 8 >= 0);
            assert(fill_head < 8 ==> fill_head as int / 8 == 0);
            assert(8 <= fill_head < 16 ==> fill_head as int / 8 == 1);
            assert(16 <= fill_head < 24 ==> fill_head as int / 8 == 2);
            assert(24 <= fill_head < 32 ==> fill_head as int / 8 == 3);
            assert(32 <= fill_head < 40 ==> fill_head as int / 8 == 4);
            assert(40 <= fill_head < 48 ==> fill_head as int / 8 == 5);
            assert(48 <= fill_head < 56 ==> fill_head as int / 8 == 6);
            assert(56 <= fill_head ==> fill_head as int / 8 >= 7);
        }
    }
    if fill_head < 8 {
        (60, 90, 50, 65)
    } else if fill_head < 16 {
        (80, 110, 62, 77)
    } else if fill_head < 24 {
        (70, 100, 72, 87)
    } else if fill_head < 32 {
        (55, 85, 65, 80)
    } else if fill_head < 40 {
        (95, 125, 55, 70)
    } else if fill_head < 48 {
        (65, 95, 78, 93)
    } else if fill_head < 56 {
        (85, 115, 52, 67)
    } else {
        (75, 105, 63, 78)
    }
}

/// Sum of the distances of the process value and the temperature to the
/// windows of the zone holding `fill_head`.
pub open spec fn zone_miss(fill_head: i32, pv: i32, temp: i32) -> int {
    let row = zone_row(zone_of(fill_head as int));
    range_distance(pv as int, row.0 as int, row.1 as int) + range_distance(
        temp as int,
        row.2 as int,
        row.3 as int,
    )
}

/// How well a tick fits the zone windows: inside both windows the score is
/// `200 + 5 * min(margin, 11)`, where the margin is the smallest distance to a
/// window edge; outside, it is `199` minus the total miss (floored at 0).
pub open spec fn zone_score(fill_head: i32, pv: i32, temp: i32) -> int {
    let row = zone_row(zone_of(fill_head as int));
    if zone_miss(fill_head, pv, temp) == 0 {
        let pv_margin = min_int(pv - row.0, row.1 - pv);
        let t_margin = min_int(temp - row.2, row.3 - temp);
        let margin = max_int(min_int(pv_margin, t_margin), 0);
        200 + 5 * min_int(margin, 11)
    } else {
        199 - min_int(zone_miss(fill_head, pv, temp), 199)
    }
}

/// Scores how well the process value `current_pv` and temperature `temp` of a
/// tick fit the windows of the fill zone holding `fill_head`.
pub fn zone_validity_score(fill_head: i32, current_pv: i32, temp: i32) -> (s: u8)
    requires
        zone_miss(fill_head, current_pv, temp) <= i32::MAX,
    ensures
        s == zone_score(fill_head, current_pv, temp),
{
    let (pv_lo, pv_hi, t_lo, t_hi) = zone_bounds(fill_head);
    let pv_dist = dist_to_range(current_pv, pv_lo, pv_hi);
    let t_dist = dist_to_range(temp, t_lo, t_hi);

    if pv_dist == 0 && t_dist == 0 {
        let pv_margin = if current_pv - pv_lo <= pv_hi - current_pv {
            current_pv - pv_lo
        } else {
            pv_hi - current_pv
        };
        let t_margin = if temp - t_lo <= t_hi - temp {
            temp - t_lo
        } else {
            t_hi - temp
        };
        let m = if pv_margin <= t_margin { pv_margin } else { t_margin };
        let margin = if m >= 0 { m } else { 0 };
        let capped = if margin <= 11 { margin } else { 11 };
        (200 + capped * 5) as u8
    } else {
        let total = pv_dist + t_dist;
        let penalty = if total <= 199 { total } else { 199 };
        (199 - penalty) as u8
    }
}

/// Values that analog channels are snapped to: the comparison thresholds of the target.
pub const SNAP_THRESHOLDS: [u8; 15] = [40, 50, 55, 60, 63, 65, 70, 75, 80, 85, 90, 95, 100, 110, 125];

pub open spec fn byte_distance(a: u8, b: u8) -> int {
    if a >= b { a - b } else { b - a }
}

/// `r` is the threshold nearest to `v`, the first one on ties.
pub open spec fn is_snap_of(v: u8, r: u8) -> bool {
    exists|k: int|
        #![trigger SNAP_THRESHOLDS@[k]]
        0 <= k < 15 && r == SNAP_THRESHOLDS@[k] && (forall|j: int|
            0 <= j < 15 ==> byte_distance(v, r) <= byte_distance(v, #[trigger] SNAP_THRESHOLDS@[j]))
            && (forall|j: int| 0 <= j < k ==> byte_distance(v, r) < byte_distance(v, #[trigger] SNAP_THRESHOLDS@[j]))
}

/// The nearest of the first `n` thresholds to `v` (the first one on ties), with its index.
pub open spec fn nearest_of_first(v: u8, n: nat) -> (u8, int)
    decreases n,
{
    if n <= 1 {
        (SNAP_THRESHOLDS@[0], 0)
    } else {
        let (b, k) = nearest_of_first(v, (n - 1) as nat);
        if byte_distance(v, SNAP_THRESHOLDS@[n - 1]) < byte_distance(v, b) {
            (SNAP_THRESHOLDS@[n - 1], n - 1)
        } else {
            (b, k)
        }
    }
}

/// The snap of `v`: the threshold nearest to it (see `is_snap_of`).
pub open spec fn snap(v: u8) -> u8 {
    nearest_of_first(v, 15).0
}

proof fn lemma_nearest_of_first(v: u8, n: nat)
    requires
        1 <= n <= 15,
    ensures
        ({
            let (b, k) = nearest_of_first(v, n);
            &&& 0 <= k < n
            &&& b == SNAP_THRESHOLDS@[k]
            &&& forall|j: int| 0 <= j < n ==> byte_distance(v, b) <= byte_distance(v, #[trigger] SNAP_THRESHOLDS@[j])
            &&& forall|j: int| 0 <= j < k ==> byte_distance(v, b) < byte_distance(v, #[trigger] SNAP_THRESHOLDS@[j])
        }),
    decreases n,
{
    if n > 1 {
        lemma_nearest_of_first(v, (n - 1) as nat);
    }
}

/// Every value has a snap, and it is the only threshold nearest to it.
pub proof fn lemma_snap(v: u8, r: u8)
    ensures
        is_snap_of(v, snap(v)),
        is_snap_of(v, r) ==> r == snap(v),
{
    lemma_nearest_of_first(v, 15);
    let k0 = nearest_of_first(v, 15).1;
    assert(SNAP_THRESHOLDS@[k0] == snap(v));
    if is_snap_of(v, r) {
        lemma_snap_unique(v, r);
    }
}

/// Two thresholds nearest to the same value (first on ties) are the same.
proof fn lemma_snap_unique(v: u8, r: u8)
    requires
        is_snap_of(v, r),
    ensures
        snap(v) == r,
{
    lemma_nearest_of_first(v, 15);
    let s = snap(v);
    let k2 = nearest_of_first(v, 15).1;
    assert(SNAP_THRESHOLDS@[k2] == s);
    let k1 = choose|k: int|
        #![trigger SNAP_THRESHOLDS@[k]]
        0 <= k < 15 && r == SNAP_THRESHOLDS@[k] && (forall|j: int|
            0 <= j < 15 ==> byte_distance(v, r) <= byte_distance(v, #[trigger] SNAP_THRESHOLDS@[j]))
            && (forall|j: int| 0 <= j < k ==> byte_distance(v, r) < byte_distance(v, #[trigger] SNAP_THRESHOLDS@[j]));
    assert(SNAP_THRESHOLDS@[k1] == r);
    if k1 < k2 {
        assert(false);
    } else if k2 < k1 {
        assert(false);
    }
}

/// Snapping is idempotent: the snap of a value is a threshold, and a
/// threshold snaps to itself.
pub proof fn lemma_snap_idempotent(v: u8)
    ensures
        SNAP_THRESHOLDS@.contains(snap(v)),
        snap(snap(v)) == snap(v),
{
    lemma_nearest_of_first(v, 15);
    let t = snap(v);
    let k = nearest_of_first(v, 15).1;
    assert(SNAP_THRESHOLDS@[k] == t);
    assert(SNAP_THRESHOLDS@ == seq![40u8, 50, 55, 60, 63, 65, 70, 75, 80, 85, 90, 95, 100, 110, 125]);
    assert(is_snap_of(t, t)) by {
        assert forall|j: int| 0 <= j < k implies byte_distance(t, t) < byte_distance(t, #[trigger] SNAP_THRESHOLDS@[j]) by {
            assert(SNAP_THRESHOLDS@[j] != SNAP_THRESHOLDS@[k]);
        }
    }
    lemma_snap_unique(t, t);
}

/// The zone of a fill head is its fill bucket: the non-negative part divided
/// by 8, capped at 7.
pub proof fn lemma_zone_is_bucket(fill_head: int)
    ensures
        zone_of(fill_head) == min_int(max_int(fill_head, 0) / 8, 7),
        0 <= zone_of(fill_head) <= 7,
{
}

/// A tick scores 200 or more exactly when its process value and temperature
/// lie inside both windows of the zone; a score is at most 255.
pub proof fn lemma_zone_score_valid_iff(fill_head: i32, pv: i32, temp: i32)
    ensures
        zone_score(fill_head, pv, temp) >= 200 <==> zone_miss(fill_head, pv, temp) == 0,
        0 <= zone_score(fill_head, pv, temp) <= 255,
{
}

/// Inside both windows of its zone, a tick scores 200 plus 5 for each unit of
/// its smallest distance to any of the four window edges, counting at most 11
/// units.
pub proof fn lemma_zone_score_inside(fill_head: i32, pv: i32, temp: i32)
    requires
        ({
            let w = zone_row(zone_of(fill_head as int));
            w.0 <= pv <= w.1 && w.2 <= temp <= w.3
        }),
    ensures
        ({
            let w = zone_row(zone_of(fill_head as int));
            let s = zone_score(fill_head, pv, temp);
            let m = (s - 200) / 5;
            &&& s >= 200
            &&& (s - 200) % 5 == 0
            &&& m <= 11
            &&& m <= pv - w.0
            &&& m <= w.1 - pv
            &&& m <= temp - w.2
            &&& m <= w.3 - temp
            &&& (m == 11 || m == pv - w.0 || m == w.1 - pv || m == temp - w.2 || m == w.3 - temp)
        }),
{
    let w = zone_row(zone_of(fill_head as int));
    let s = zone_score(fill_head, pv, temp);
    assert(zone_miss(fill_head, pv, temp) == 0);
    let pv_margin = min_int(pv - w.0, w.1 - pv);
    let t_margin = min_int(temp - w.2, w.3 - temp);
    let c = min_int(max_int(min_int(pv_margin, t_margin), 0), 11);
    assert(s == 200 + 5 * c);
    assert((s - 200) / 5 == c && (s - 200) % 5 == 0) by (nonlinear_arith) requires s == 200 + 5 * c, c >= 0;
}

/// Inside both windows, the score does not change when the process value or
/// the temperature is mirrored about the middle of its window: both edges
/// count alike.
pub proof fn lemma_zone_score_mirror(fill_head: i32, pv: i32, temp: i32)
    requires
        ({
            let w = zone_row(zone_of(fill_head as int));
            w.0 <= pv <= w.1 && w.2 <= temp <= w.3
        }),
    ensures
        ({
            let w = zone_row(zone_of(fill_head as int));
            &&& zone_score(fill_head, pv, temp) == zone_score(fill_head, (w.0 + w.1 - pv) as i32, temp)
            &&& zone_score(fill_head, pv, temp) == zone_score(fill_head, pv, (w.2 + w.3 - temp) as i32)
        }),
{
}

} // verus!
