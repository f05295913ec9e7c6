//! Progress metrics that the fuzzers expose to their feedback maps, and the
//! bookkeeping of the per-tick harnesses that compute them.
use vstd::prelude::*;
use std::collections::HashSet;
use crate::pipeline::PipelineState;
use crate::scoring::{bucket_value, bucketize_nonneg, min_int, max_int, zone_score, zone_validity_score};

verus! {

/// Number of metric bytes of the greybox harness.
pub const GREYBOX_METRICS: usize = 21;

/// First distribution slot of the fill zones in the cross-entropy fuzzer.
pub const FILL_ZONE_BASE: usize = 4;

/// Number of distribution slots of the cross-entropy fuzzer.
pub const NUM_PHASES: usize = 12;

/// The fill-zone bucket of a fill head: its non-negative part divided by 8, capped at 7.
pub open spec fn fill_bucket(fill_head: i32) -> int {
    min_int(max_int(fill_head as int, 0) / 8, 7)
}

/// The four metric bytes of the basic pipeline fuzzer: phase, prime score,
/// flux score and fill head, each (negatives raised to 0) truncated to a byte.
pub fn basic_metrics(s: &PipelineState) -> (m: Vec<u8>)
    ensures
        m@ == seq![
            (s.phase % 256) as u8,
            (max_int(s.prime_score as int, 0) % 256) as u8,
            (max_int(s.flux_score as int, 0) % 256) as u8,
            (max_int(s.fill_head as int, 0) % 256) as u8,
        ],
{
    let p = if s.prime_score > 0 { s.prime_score } else { 0 };
    let f = if s.flux_score > 0 { s.flux_score } else { 0 };
    let h = if s.fill_head > 0 { s.fill_head } else { 0 };
    vec![(s.phase % 256) as u8, (p % 256) as u8, (f % 256) as u8, (h % 256) as u8]
}

/// The four metric bytes of the cross-entropy fuzzer: phase (capped at 3),
/// prime and flux scores clamped to a byte, and the largest fill head seen
/// (capped at 255).
pub fn cem_metrics(last: &PipelineState, max_fill_head: i32) -> (m: Vec<u8>)
    requires
        max_fill_head >= 0,
    ensures
        m@ == seq![
            min_int(last.phase as int, 3) as u8,
            min_int(max_int(last.prime_score as int, 0), 255) as u8,
            min_int(max_int(last.flux_score as int, 0), 255) as u8,
            min_int(max_fill_head as int, 255) as u8,
        ],
{
    let ph = if last.phase < 3 { last.phase } else { 3 };
    let p = if last.prime_score < 0 { 0 } else if last.prime_score > 255 { 255 } else { last.prime_score };
    let f = if last.flux_score < 0 { 0 } else if last.flux_score > 255 { 255 } else { last.flux_score };
    let h = if max_fill_head > 255 { 255 } else { max_fill_head };
    vec![ph as u8, p as u8, f as u8, h as u8]
}

/// Distribution slot that a tick run in state `phase` with fill head
/// `fill_head` is attributed to: the phase itself before the fill phase
/// (capped at 3), and the slot of the fill zone during it.
pub open spec fn tick_slot_of(phase: u32, fill_head: i32) -> int {
    if phase == 3 {
        FILL_ZONE_BASE + fill_bucket(fill_head)
    } else {
        min_int(phase as int, 3)
    }
}

/// Distribution slot of a tick, from the state reached after it.
pub fn tick_slot(phase: u32, fill_head: i32) -> (slot: usize)
    ensures
        slot == tick_slot_of(phase, fill_head),
        slot < NUM_PHASES,
{
    if phase == 3 {
        let h: i32 = if fill_head > 0 { fill_head } else { 0 };
        let z: i32 = h / 8;
        let z = if z < 7 { z } else { 7 };
        FILL_ZONE_BASE + z as usize
    } else if phase < 3 {
        phase as usize
    } else {
        3
    }
}

/// Fill-head values reached so far and the best among them.
pub struct FillHeadRecord {
    seen: HashSet<i32>,
    best: i32,
}

impl FillHeadRecord {
    /// The fill-head values recorded.
    pub closed spec fn seen(&self) -> Set<i32> {
        self.seen@
    }

    /// The largest fill head recorded, or -1.
    pub closed spec fn best(&self) -> int {
        self.best as int
    }

    pub fn new() -> (r: FillHeadRecord)
        ensures
            r.seen() == Set::<i32>::empty(),
            r.best() == -1,
    {
        FillHeadRecord { seen: HashSet::new(), best: -1 }
    }

    /// The largest fill head recorded, or -1.
    pub fn best_fill_head(&self) -> (b: i32)
        ensures
            b == self.best(),
    {
        self.best
    }

    /// Records a fill head. It is novel when positive and not seen before;
    /// a novel value above the best so far becomes the new best.
    pub fn observe(&mut self, fill_head: i32) -> (r: (bool, bool))
        ensures
            r.0 == (fill_head > 0 && !old(self).seen().contains(fill_head)),
            final(self).seen() == if r.0 { old(self).seen().insert(fill_head) } else { old(self).seen() },
            r.1 == (r.0 && fill_head > old(self).best()),
            final(self).best() == if r.1 { fill_head as int } else { old(self).best() },
    {
        broadcast use vstd::std_specs::hash::group_hash_axioms;

        if fill_head <= 0 || self.seen.contains(&fill_head) {
            return (false, false);
        }
        self.seen.insert(fill_head);
        if fill_head > self.best {
            self.best = fill_head;
            (true, true)
        } else {
            (true, false)
        }
    }
}

/// What the greybox harness keeps while the ticks of one input run.
pub struct GreyboxTracker {
    last: PipelineState,
    max_fill_head: i32,
    best_bucket: i32,
    best_zone_score: u8,
}

/// The process value and temperature that a tick feeds the fill zones.
pub open spec fn tick_pv(tick: Seq<u8>) -> i32 {
    (tick[0] + tick[1]) as i32
}

impl GreyboxTracker {
    /// The state after the last tick (all zeros before the first).
    pub closed spec fn last(&self) -> PipelineState {
        self.last
    }

    /// The largest non-negative fill head seen.
    pub closed spec fn max_fill_head(&self) -> int {
        self.max_fill_head as int
    }

    /// The highest fill bucket seen, or -1 before the first tick.
    pub closed spec fn best_bucket(&self) -> int {
        self.best_bucket as int
    }

    /// The best zone score among the ticks that reached the highest bucket.
    pub closed spec fn best_zone_score(&self) -> int {
        self.best_zone_score as int
    }

    /// The largest fill head is non-negative and the best bucket is a bucket or -1.
    #[verifier::type_invariant]
    spec fn wf(&self) -> bool {
        &&& 0 <= self.max_fill_head
        &&& -1 <= self.best_bucket <= 7
    }

    pub fn new() -> (t: GreyboxTracker)
        ensures
            t.last().is_zero(),
            t.max_fill_head() == 0,
            t.best_bucket() == -1,
            t.best_zone_score() == 0,
    {
        GreyboxTracker { last: PipelineState::default(), max_fill_head: 0, best_bucket: -1, best_zone_score: 0 }
    }

    /// Accounts for one tick and the state reached after it.
    pub fn observe(&mut self, state: PipelineState, tick: &[u8])
        requires
            tick@.len() >= 3,
        ensures
            final(self).last() == state,
            final(self).max_fill_head() == max_int(old(self).max_fill_head(), max_int(state.fill_head as int, 0)),
            ({
                let bucket = fill_bucket(state.fill_head);
                let score = zone_score(state.fill_head, tick_pv(tick@), tick@[2] as i32);
                if bucket > old(self).best_bucket() {
                    final(self).best_bucket() == bucket && final(self).best_zone_score() == score
                } else if bucket == old(self).best_bucket() {
                    final(self).best_bucket() == bucket && final(self).best_zone_score() == max_int(
                        old(self).best_zone_score(),
                        score,
                    )
                } else {
                    final(self).best_bucket() == old(self).best_bucket() && final(self).best_zone_score()
                        == old(self).best_zone_score()
                }
            }),
    {
        proof {
            use_type_invariant(&*self);
        }
        let h: i32 = if state.fill_head > 0 { state.fill_head } else { 0 };
        if h > self.max_fill_head {
            self.max_fill_head = h;
        }
        let current_pv: i32 = tick[0] as i32 + tick[1] as i32;
        let pipe_temp: i32 = tick[2] as i32;
        let zs = zone_validity_score(state.fill_head, current_pv, pipe_temp);
        let z: i32 = h / 8;
        let bucket: i32 = if z < 7 { z } else { 7 };
        if bucket > self.best_bucket {
            self.best_bucket = bucket;
            self.best_zone_score = zs;
        } else if bucket == self.best_bucket {
            if zs > self.best_zone_score {
                self.best_zone_score = zs;
            }
        }
        self.last = state;
    }

    /// The metric bytes for the input that just ran.
    pub fn metrics(&self) -> (m: Vec<u8>)
        ensures
            m@.len() == GREYBOX_METRICS,
            ({
                let s = self.last();
                let flow_ready: u8 = if s.flow_accum > 6 { 1 } else { 0 };
                let press_ready: u8 = if s.press_accum > 5 { 1 } else { 0 };
                let temp_ready: u8 = if s.temp_accum > 6 { 1 } else { 0 };
                &&& m@[0] == min_int(s.phase as int, 3)
                &&& m@[1] == bucket_value(s.prime_score, 2, 15)
                &&& m@[2] == bucket_value(s.flux_score, 2, 15)
                &&& m@[3] == min_int(self.max_fill_head(), 255)
                &&& m@[4] == flow_ready
                &&& m@[5] == press_ready
                &&& m@[6] == temp_ready
                &&& m@[7] == (if flow_ready == 1 && press_ready == 1 && temp_ready == 1 { 1u8 } else { 0u8 })
                &&& m@[8] == max_int(s.fill_head as int, 0) % 8
                &&& m@[9] == bucket_value(s.phase_counter, 8, 31)
                &&& m@[10] == bucket_value(s.cycle_count, 16, 255)
                &&& m@[11] == bucket_value(s.pv_sum, 8, 31)
                &&& m@[12] == self.best_bucket() + 1
                &&& forall|z: int| 0 <= z < 8 ==> #[trigger] m@[13 + z] == if z == self.best_bucket() {
                    self.best_zone_score()
                } else {
                    0
                }
            }),
    {
        proof {
            use_type_invariant(self);
        }
        let s = &self.last;
        let mut m: Vec<u8> = vec![0u8; GREYBOX_METRICS];
        let flow_ready: u8 = if s.flow_accum > 6 { 1 } else { 0 };
        let press_ready: u8 = if s.press_accum > 5 { 1 } else { 0 };
        let temp_ready: u8 = if s.temp_accum > 6 { 1 } else { 0 };
        m.set(0, if s.phase < 3 { s.phase as u8 } else { 3 });
        m.set(1, bucketize_nonneg(s.prime_score, 2, 15));
        m.set(2, bucketize_nonneg(s.flux_score, 2, 15));
        m.set(3, if self.max_fill_head < 255 { self.max_fill_head as u8 } else { 255 });
        m.set(4, flow_ready);
        m.set(5, press_ready);
        m.set(6, temp_ready);
        m.set(7, if flow_ready == 1 && press_ready == 1 && temp_ready == 1 { 1 } else { 0 });
        let h: i32 = if s.fill_head > 0 { s.fill_head } else { 0 };
        m.set(8, (h % 8) as u8);
        m.set(9, bucketize_nonneg(s.phase_counter, 8, 31));
        m.set(10, bucketize_nonneg(s.cycle_count, 16, 255));
        m.set(11, bucketize_nonneg(s.pv_sum, 8, 31));
        if self.best_bucket >= 0 {
            m.set(12, (self.best_bucket + 1) as u8);
            m.set(13 + self.best_bucket as usize, self.best_zone_score);
        }
        m
    }
}

} // verus!
