//! Tick-aware mutators of the greybox fuzzer and the episode planner of the
//! cross-entropy fuzzer. Random choices come from the fuzzer's random
//! generator; every contract holds whatever it returns.
use vstd::prelude::*;
use libafl_bolts::rands::{Rand, RomuDuoJrRand, StdRand};
use crate::pipeline::{TICK_SIZE, fill_tick, flow_tick, prime_tick, start_tick};
use crate::scoring::{SNAP_THRESHOLDS, byte_distance, is_snap_of, lemma_snap, max_int, min_int, snap};

verus! {

#[verifier::external_type_specification]
#[verifier::external_body]
pub struct ExRomuDuoJrRand(RomuDuoJrRand);

/// Calls `Rand::below_or_zero` of libafl_bolts on the fuzzer's generator: it
/// draws the next 64-bit value and scales it into `[0, n)` (the high word of
/// the 128-bit product with `n`), so it is below `n` when `n > 0` and 0 when
/// `n == 0`. Which value comes out depends on the generator's hidden state.
#[verifier::external_body]
pub(crate) fn below_or_zero(rand: &mut StdRand, n: usize) -> (r: usize)
    ensures
        n == 0 ==> r == 0,
        n > 0 ==> r < n,
{
    rand.below_or_zero(n)
}

/// Whether a mutator changed its input.
#[derive(Debug, Clone, Copy, PartialEq, Eq, Structural)]
pub enum MutationOutcome {
    Mutated,
    Skipped,
}

/// `b` with the command byte (the last byte of each tick) reduced to its low
/// bit at every position in `[start, end)`.
pub open spec fn clamp_cmd(b: Seq<u8>, start: int, end: int) -> Seq<u8> {
    Seq::new(b.len(), |i: int| if start <= i < end && i % 7 == 6 { b[i] & 1 } else { b[i] })
}

/// `b` with the six analog channels of tick `tick` snapped to thresholds.
pub open spec fn snap_tick(b: Seq<u8>, tick: int) -> Seq<u8> {
    Seq::new(b.len(), |i: int| if tick * 7 <= i < tick * 7 + 6 { snap(b[i]) } else { b[i] })
}

/// `b` with channel `channel` of ticks `[from, to)` set to `value`.
pub open spec fn fill_channel(b: Seq<u8>, channel: int, from: int, to: int, value: u8) -> Seq<u8> {
    Seq::new(b.len(), |i: int| if from * 7 <= i < to * 7 && i % 7 == channel { value } else { b[i] })
}

/// The tick templates of the greybox fuzzer: start, prime, flow and fill.
pub open spec fn template(k: int) -> Seq<u8> {
    if k == 0 {
        seq![0u8, 0, 0, 0, 0, 0, 1]
    } else if k == 1 {
        seq![60u8, 30, 0, 60, 0, 0, 0]
    } else if k == 2 {
        seq![60u8, 30, 60, 60, 40, 60, 0]
    } else {
        seq![70u8, 20, 70, 50, 0, 0, 0]
    }
}

/// `b` with tick `tick` replaced by template `k`.
pub open spec fn put_template(b: Seq<u8>, tick: int, k: int) -> Seq<u8> {
    Seq::new(b.len(), |i: int| if tick * 7 <= i < tick * 7 + 7 { template(k)[i - tick * 7] } else { b[i] })
}

/// The result of a channel run: channel `channel` of the `window` ticks from
/// `start` set to the snap of `v`, then command bytes clamped.
pub open spec fn channel_run(b: Seq<u8>, channel: int, start: int, window: int, v: u8) -> Seq<u8> {
    clamp_cmd(fill_channel(b, channel, start, start + window, snap(v)), 0, b.len() as int)
}

/// The result of a template replacement of tick `tick` by template `k`, then command bytes clamped.
pub open spec fn template_put(b: Seq<u8>, tick: int, k: int) -> Seq<u8> {
    clamp_cmd(put_template(b, tick, k), 0, b.len() as int)
}

/// Mutates whole ticks: snaps analog channels to thresholds, runs a channel
/// at one value across several ticks, or puts a phase template in place of a
/// tick; command bytes are always reduced to their low bit.
#[derive(Debug)]
pub struct TickGuidedMutator {
    pub cursor: usize,
}

impl TickGuidedMutator {
    pub fn new() -> (m: TickGuidedMutator)
        ensures
            m.cursor == 0,
    {
        TickGuidedMutator { cursor: 0 }
    }

    /// Moves `v` to the nearest threshold of `SNAP_THRESHOLDS` (the first one on ties).
    pub fn snap_value(v: u8) -> (r: u8)
        ensures
            is_snap_of(v, r),
            r == snap(v),
    {
        let mut best = SNAP_THRESHOLDS[0];
        let mut best_k: usize = 0;
        let mut best_dist = if v >= best { v - best } else { best - v };
        let mut i: usize = 1;
        while i < 15
            invariant
                1 <= i <= 15,
                best_k < i,
                best == SNAP_THRESHOLDS@[best_k as int],
                best_dist == byte_distance(v, best),
                forall|j: int| 0 <= j < i ==> byte_distance(v, best) <= byte_distance(v, #[trigger] SNAP_THRESHOLDS@[j]),
                forall|j: int| 0 <= j < best_k ==> byte_distance(v, best) < byte_distance(v, #[trigger] SNAP_THRESHOLDS@[j]),
            decreases 15 - i,
        {
            let t = SNAP_THRESHOLDS[i];
            let dist = if v >= t { v - t } else { t - v };
            if dist < best_dist {
                best = t;
                best_k = i;
                best_dist = dist;
            }
            i = i + 1;
        }
        proof {
            assert(is_snap_of(v, best)) by {
                assert(SNAP_THRESHOLDS@[best_k as int] == best);
            }
            lemma_snap(v, best);
        }
        best
    }

    /// Reduces the command byte of every whole tick to its low bit.
    pub fn clamp_cmd_bit(bytes: &mut Vec<u8>)
        ensures
            final(bytes)@ == clamp_cmd(old(bytes)@, 0, old(bytes)@.len() as int),
    {
        let n = bytes.len();
        clamp_cmd_range(bytes, 0, n);
    }

    /// Applies the mutation `m` to `bytes`, which hold `ticks` whole ticks:
    /// snapping the tick under the cursor (and moving the cursor on), a
    /// channel run, or a template in place of a tick; then command bytes are
    /// reduced to their low bit.
    pub fn apply_mutation(&mut self, bytes: &mut Vec<u8>, m: TickMutation)
        requires
            old(bytes)@.len() / 7 > 0,
            tick_mutation_allowed(m, old(bytes)@.len() as int / 7),
        ensures
            final(bytes)@ == tick_mutation_result(old(bytes)@, old(self).cursor as int, m),
            final(self).cursor == if m is Snap {
                if old(self).cursor == usize::MAX { 0 } else { (old(self).cursor + 1) as usize }
            } else {
                old(self).cursor
            },
    {
        let n = bytes.len();
        let tick_count = n / TICK_SIZE;
        let ghost b = bytes@;
        match m {
            TickMutation::Snap => {
                let tick = self.cursor % tick_count;
                self.cursor = if self.cursor == usize::MAX { 0 } else { self.cursor + 1 };
                let base = tick * TICK_SIZE;
                let mut ch: usize = 0;
                while ch < 6
                    invariant
                        0 <= ch <= 6,
                        tick < tick_count,
                        tick_count == n / 7,
                        base == tick * 7,
                        n == b.len(),
                        bytes@.len() == n,
                        forall|i: int| 0 <= i < n && !(base <= i < base + ch) ==> bytes@[i] == b[i],
                        forall|i: int| base <= i < base + ch ==> bytes@[i] == snap(b[i]),
                    decreases 6 - ch,
                {
                    let v = Self::snap_value(bytes[base + ch]);
                    bytes.set(base + ch, v);
                    ch = ch + 1;
                }
                assert(bytes@ =~= snap_tick(b, tick as int));
                Self::clamp_cmd_bit(bytes);
            },
            TickMutation::ChannelRun { channel, start, window, raw } => {
                let value = Self::snap_value(raw);
                let end = if start + window < tick_count { start + window } else { tick_count };
                let mut t = start;
                while t < end
                    invariant
                        start <= t <= end <= tick_count,
                        tick_count == n / 7,
                        channel < 6,
                        n == b.len(),
                        bytes@.len() == n,
                        forall|i: int|
                            0 <= i < n ==> bytes@[i] == if start * 7 <= i < t * 7 && i % 7 == channel {
                                value
                            } else {
                                b[i]
                            },
                    decreases end - t,
                {
                    bytes.set(t * TICK_SIZE + channel, value);
                    t = t + 1;
                }
                assert(bytes@ =~= fill_channel(b, channel as int, start as int, (start + window) as int, snap(raw)));
                Self::clamp_cmd_bit(bytes);
            },
            TickMutation::Template { tick, template } => {
                let tpl = template_tick(template);
                let base = tick * TICK_SIZE;
                let mut j: usize = 0;
                while j < TICK_SIZE
                    invariant
                        0 <= j <= 7,
                        tick < tick_count,
                        tick_count == n / 7,
                        base == tick * 7,
                        template < 4,
                        tpl@ == crate::mutators::template(template as int),
                        n == b.len(),
                        bytes@.len() == n,
                        forall|i: int| 0 <= i < n && !(base <= i < base + j) ==> bytes@[i] == b[i],
                        forall|i: int| base <= i < base + j ==> bytes@[i] == tpl@[i - base],
                    decreases 7 - j,
                {
                    bytes.set(base + j, tpl[j]);
                    j = j + 1;
                }
                assert(bytes@ =~= put_template(b, tick as int, template as int));
                Self::clamp_cmd_bit(bytes);
            },
        }
    }

    /// Applies one tick-guided mutation to `bytes` (skipped when they hold no
    /// whole tick, without drawing from `rand`): the values are drawn from
    /// `rand` in the order of `TickDraws`, `tick_mutation_from_draws` turns
    /// them into a mutation, and `apply_mutation` does the rest.
    pub fn mutate_bytes(&mut self, rand: &mut StdRand, bytes: &mut Vec<u8>) -> (r: MutationOutcome)
        ensures
            ({
                let b = old(bytes)@;
                let ticks = b.len() as int / 7;
                if ticks == 0 {
                    &&& r == MutationOutcome::Skipped
                    &&& final(bytes)@ == b
                    &&& final(self).cursor == old(self).cursor
                    &&& *final(rand) == *old(rand)
                } else {
                    &&& r == MutationOutcome::Mutated
                    &&& exists|d: TickDraws|
                        tick_draws_allowed(d, ticks) && final(bytes)@ == tick_mutation_result(
                            b,
                            old(self).cursor as int,
                            #[trigger] tick_mutation_of(d),
                        ) && final(self).cursor == if d.mode == 0 {
                            if old(self).cursor == usize::MAX { 0 } else { (old(self).cursor + 1) as usize }
                        } else {
                            old(self).cursor
                        }
                }
            }),
    {
        let n = bytes.len();
        let tick_count = n / TICK_SIZE;
        if tick_count == 0 {
            return MutationOutcome::Skipped;
        }
        let mode = below_or_zero(rand, 3);
        let d = if mode == 0 {
            TickDraws { mode, channel: 0, start: 0, window: 0, value: 0, tick: 0, template: 0 }
        } else if mode == 1 {
            let channel = below_or_zero(rand, 6);
            let start = below_or_zero(rand, tick_count);
            let rest = tick_count - start;
            let max_window = if rest > 1 { rest } else { 1 };
            let cap = if max_window < 24 { max_window } else { 24 };
            let window = below_or_zero(rand, cap);
            let value = below_or_zero(rand, 256);
            TickDraws { mode, channel, start, window, value, tick: 0, template: 0 }
        } else {
            let tick = below_or_zero(rand, tick_count);
            let template = below_or_zero(rand, 4);
            TickDraws { mode, channel: 0, start: 0, window: 0, value: 0, tick, template }
        };
        let m = tick_mutation_from_draws(d);
        let ghost b = bytes@;
        let ghost c = self.cursor;
        self.apply_mutation(bytes, m);
        assert(tick_draws_allowed(d, tick_count as int) && bytes@ == tick_mutation_result(b, c as int, tick_mutation_of(d)));
        MutationOutcome::Mutated
    }
}

/// The values drawn for one tick-guided mutation, in the order they are
/// drawn: the mode; for a channel run the channel, the start tick, the
/// window draw and the raw value; for a template the tick and the template.
/// Values a mode does not draw are 0.
#[derive(Debug, Clone, Copy, PartialEq, Eq, Structural)]
pub struct TickDraws {
    pub mode: usize,
    pub channel: usize,
    pub start: usize,
    pub window: usize,
    pub value: usize,
    pub tick: usize,
    pub template: usize,
}

/// The bounds the draws are made within for an input of `ticks` whole ticks:
/// mode below 3; for a channel run a channel below 6, a start tick inside the
/// input, a window draw below the ticks left (at least 1) capped at 24, and a
/// byte value; for a template a tick inside the input and one of 4 templates.
pub open spec fn tick_draws_allowed(d: TickDraws, ticks: int) -> bool {
    &&& d.mode < 3
    &&& d.mode == 1 ==> d.channel < 6 && d.start < ticks && d.window < min_int(max_int(ticks - d.start, 1), 24)
        && d.value < 256
    &&& d.mode == 2 ==> d.tick < ticks && d.template < 4
}

/// The mutation that the draws select: mode 0 snaps the tick under the
/// cursor, mode 1 is a channel run of `1 + window` ticks at the raw value
/// taken as a byte, any other mode puts a template in place of a tick.
pub open spec fn tick_mutation_of(d: TickDraws) -> TickMutation {
    if d.mode == 0 {
        TickMutation::Snap
    } else if d.mode == 1 {
        TickMutation::ChannelRun {
            channel: d.channel,
            start: d.start,
            window: (1 + d.window) as usize,
            raw: d.value as u8,
        }
    } else {
        TickMutation::Template { tick: d.tick, template: d.template }
    }
}

/// The mutation that the draws select.
pub fn tick_mutation_from_draws(d: TickDraws) -> (m: TickMutation)
    requires
        d.window < usize::MAX,
    ensures
        m == tick_mutation_of(d),
{
    if d.mode == 0 {
        TickMutation::Snap
    } else if d.mode == 1 {
        TickMutation::ChannelRun { channel: d.channel, start: d.start, window: 1 + d.window, raw: d.value as u8 }
    } else {
        TickMutation::Template { tick: d.tick, template: d.template }
    }
}

/// One tick-guided mutation, with the parameters drawn for it.
#[derive(Debug, Clone, Copy, PartialEq, Eq, Structural)]
pub enum TickMutation {
    /// Snap the six analog channels of the tick under the cursor.
    Snap,
    /// Set `channel` of the `window` ticks from `start` to the snap of `raw`.
    ChannelRun { channel: usize, start: usize, window: usize, raw: u8 },
    /// Put template `template` in place of tick `tick`.
    Template { tick: usize, template: usize },
}

/// The mutations that can be drawn for an input of `ticks` whole ticks: a
/// channel below 6, a start tick inside the input, a window of 1 to 24 ticks
/// that does not run past the end, a tick inside the input and one of the 4
/// templates.
pub open spec fn tick_mutation_allowed(m: TickMutation, ticks: int) -> bool {
    match m {
        TickMutation::Snap => true,
        TickMutation::ChannelRun { channel, start, window, .. } => channel < 6 && start < ticks && 1 <= window
            <= min_int(ticks - start, 24),
        TickMutation::Template { tick, template } => tick < ticks && template < 4,
    }
}

/// What mutation `m` makes of `b` with the cursor at `cursor`.
pub open spec fn tick_mutation_result(b: Seq<u8>, cursor: int, m: TickMutation) -> Seq<u8> {
    match m {
        TickMutation::Snap => clamp_cmd(snap_tick(b, cursor % (b.len() as int / 7)), 0, b.len() as int),
        TickMutation::ChannelRun { channel, start, window, raw } => channel_run(
            b,
            channel as int,
            start as int,
            window as int,
            raw,
        ),
        TickMutation::Template { tick, template } => template_put(b, tick as int, template as int),
    }
}

/// One havoc operation on the suffix, at position `at` counted from the split.
#[derive(Debug, Clone, Copy, PartialEq, Eq, Structural)]
pub enum SuffixOp {
    FlipBit { at: usize, bit: u32 },
    SetByte { at: usize, value: u8 },
    AddByte { at: usize, delta: u8 },
    SubByte { at: usize, delta: u8 },
}

pub open spec fn op_at(op: SuffixOp) -> int {
    match op {
        SuffixOp::FlipBit { at, .. } => at as int,
        SuffixOp::SetByte { at, .. } => at as int,
        SuffixOp::AddByte { at, .. } => at as int,
        SuffixOp::SubByte { at, .. } => at as int,
    }
}

/// An operation the suffix mutator can draw for a suffix of `len` bytes.
pub open spec fn op_allowed(op: SuffixOp, len: int) -> bool {
    &&& 0 <= op_at(op) < len
    &&& match op {
        SuffixOp::FlipBit { bit, .. } => bit < 8,
        SuffixOp::AddByte { delta, .. } => 1 <= delta <= 16,
        SuffixOp::SubByte { delta, .. } => 1 <= delta <= 16,
        SuffixOp::SetByte { .. } => true,
    }
}

/// Applies `op` to `b`, whose suffix starts at `split`.
pub open spec fn apply_op(b: Seq<u8>, split: int, op: SuffixOp) -> Seq<u8> {
    let i = split + op_at(op);
    match op {
        SuffixOp::FlipBit { bit, .. } => b.update(i, b[i] ^ (1u8 << bit)),
        SuffixOp::SetByte { value, .. } => b.update(i, value),
        SuffixOp::AddByte { delta, .. } => b.update(i, ((b[i] + delta) % 256) as u8),
        SuffixOp::SubByte { delta, .. } => b.update(i, ((b[i] - delta + 256) % 256) as u8),
    }
}

/// Applies the operations in order.
pub open spec fn apply_ops(b: Seq<u8>, split: int, ops: Seq<SuffixOp>) -> Seq<u8>
    decreases ops.len(),
{
    if ops.len() == 0 {
        b
    } else {
        apply_op(apply_ops(b, split, ops.drop_last()), split, ops.last())
    }
}

/// Number of whole ticks that the suffix mutator keeps unchanged in an input
/// of `ticks` whole ticks, for a kept share of `percent` percent: the share
/// rounded down, but at least one tick is left to mutate.
pub open spec fn kept_ticks(ticks: int, percent: int) -> int {
    min_int(ticks * percent / 100, ticks - 1)
}

/// The result of a suffix mutation: operations applied after the first
/// `keep` ticks, then command bytes of the mutated ticks clamped.
pub open spec fn suffix_result(b: Seq<u8>, keep: int, aligned: int, ops: Seq<SuffixOp>) -> Seq<u8> {
    clamp_cmd(apply_ops(b, keep * 7, ops), keep * 7, aligned)
}

/// Havoc mutations restricted to the end of the input: a prefix of 70 to 90
/// percent of the whole ticks is kept, and one to eight bit flips, byte
/// replacements or small additions and subtractions hit the rest of the
/// whole ticks, whose command bytes are then reduced to their low bit.
#[derive(Debug)]
pub struct SuffixMutator;

impl SuffixMutator {
    pub fn new() -> SuffixMutator {
        SuffixMutator
    }

    /// Applies a suffix mutation with kept share `keep_percent` and the
    /// operations `ops` to `bytes`: the operations in order, on the whole
    /// ticks after the kept ones, then the command bytes of those ticks
    /// reduced to their low bit.
    pub fn apply_mutation(bytes: &mut Vec<u8>, keep_percent: usize, ops: &[SuffixOp])
        requires
            old(bytes)@.len() / 7 > 0,
            forall|j: int|
                0 <= j < ops@.len() ==> op_allowed(
                    #[trigger] ops@[j],
                    aligned_len(old(bytes)@.len() as int) - kept_ticks(
                        old(bytes)@.len() as int / 7,
                        keep_percent as int,
                    ) * 7,
                ),
        ensures
            final(bytes)@ == suffix_result(
                old(bytes)@,
                kept_ticks(old(bytes)@.len() as int / 7, keep_percent as int),
                aligned_len(old(bytes)@.len() as int),
                ops@,
            ),
    {
        let n = bytes.len();
        let aligned = n - n % TICK_SIZE;
        let tick_count = aligned / TICK_SIZE;
        let ghost b = bytes@;
        let keep_ticks = kept_tick_count(tick_count, keep_percent);
        let split_idx = keep_ticks * TICK_SIZE;
        let mut k: usize = 0;
        while k < ops.len()
            invariant
                0 <= k <= ops@.len(),
                split_idx == keep_ticks * 7,
                keep_ticks < tick_count,
                tick_count * 7 == aligned,
                aligned <= n,
                n == b.len(),
                bytes@.len() == n,
                forall|j: int| 0 <= j < ops@.len() ==> op_allowed(#[trigger] ops@[j], aligned - split_idx),
                bytes@ == apply_ops(b, split_idx as int, ops@.subrange(0, k as int)),
            decreases ops@.len() - k,
        {
            let op = ops[k];
            assert(op_allowed(ops@[k as int], aligned - split_idx));
            match op {
                SuffixOp::FlipBit { at, bit } => {
                    let v = bytes[split_idx + at] ^ (1u8 << bit);
                    bytes.set(split_idx + at, v);
                },
                SuffixOp::SetByte { at, value } => {
                    bytes.set(split_idx + at, value);
                },
                SuffixOp::AddByte { at, delta } => {
                    let v = ((bytes[split_idx + at] as u16 + delta as u16) % 256) as u8;
                    bytes.set(split_idx + at, v);
                },
                SuffixOp::SubByte { at, delta } => {
                    let v = ((bytes[split_idx + at] as u16 + 256 - delta as u16) % 256) as u8;
                    bytes.set(split_idx + at, v);
                },
            }
            assert(ops@.subrange(0, k + 1).drop_last() =~= ops@.subrange(0, k as int));
            assert(ops@.subrange(0, k + 1).last() == op);
            k = k + 1;
        }
        assert(ops@.subrange(0, k as int) =~= ops@);
        clamp_cmd_range(bytes, split_idx, aligned);
    }

    /// Applies one suffix mutation to `bytes` (skipped when they hold no
    /// whole tick, without drawing from `rand`): the share draw, the number
    /// of operations and each operation's `SuffixDraw` are drawn from `rand`,
    /// `suffix_plan_from_draws` turns them into a kept share and operations,
    /// and `apply_mutation` does the rest.
    pub fn mutate_bytes(&mut self, rand: &mut StdRand, bytes: &mut Vec<u8>) -> (r: MutationOutcome)
        ensures
            ({
                let b = old(bytes)@;
                let aligned = b.len() - b.len() as int % 7;
                let ticks = aligned / 7;
                if ticks == 0 {
                    &&& r == MutationOutcome::Skipped
                    &&& final(bytes)@ == b
                    &&& *final(rand) == *old(rand)
                } else {
                    &&& r == MutationOutcome::Mutated
                    &&& exists|percent: int, ds: Seq<SuffixDraw>|
                        70 <= percent <= 90 && 1 <= ds.len() <= 8 && (forall|j: int|
                            0 <= j < ds.len() ==> suffix_draw_allowed(
                                #[trigger] ds[j],
                                aligned - kept_ticks(ticks, percent) * 7,
                            )) && final(bytes)@ == #[trigger] suffix_result(
                            b,
                            kept_ticks(ticks, percent),
                            aligned,
                            suffix_ops_of(ds),
                        )
                }
            }),
    {
        let n = bytes.len();
        let aligned = n - n % TICK_SIZE;
        let tick_count = aligned / TICK_SIZE;
        if tick_count == 0 {
            return MutationOutcome::Skipped;
        }
        let share = below_or_zero(rand, 21);
        let keep_ticks = kept_tick_count(tick_count, 70 + share);
        let suffix_len = aligned - keep_ticks * TICK_SIZE;
        let op_count = 1 + below_or_zero(rand, 8);
        let mut draws: Vec<SuffixDraw> = Vec::new();
        let mut k: usize = 0;
        while k < op_count
            invariant
                0 <= k <= op_count <= 8,
                draws@.len() == k,
                suffix_len > 0,
                forall|j: int| 0 <= j < draws@.len() ==> suffix_draw_allowed(#[trigger] draws@[j], suffix_len as int),
            decreases op_count - k,
        {
            let at = below_or_zero(rand, suffix_len);
            let kind = below_or_zero(rand, 3);
            let d = if kind == 0 {
                SuffixDraw { at, kind, arg: below_or_zero(rand, 8), coin: 0 }
            } else if kind == 1 {
                SuffixDraw { at, kind, arg: below_or_zero(rand, 256), coin: 0 }
            } else {
                let arg = below_or_zero(rand, 16);
                let coin = below_or_zero(rand, 2);
                SuffixDraw { at, kind, arg, coin }
            };
            let ghost prev = draws@;
            draws.push(d);
            assert forall|j: int| 0 <= j < draws@.len() implies suffix_draw_allowed(#[trigger] draws@[j], suffix_len as int) by {
                if j < prev.len() {
                    assert(draws@[j] == prev[j]);
                }
            }
            k = k + 1;
        }
        let (keep_percent, ops) = suffix_plan_from_draws(share, draws.as_slice());
        proof {
            assert forall|j: int| 0 <= j < ops@.len() implies op_allowed(#[trigger] ops@[j], suffix_len as int) by {
                assert(ops@[j] == suffix_op_of(draws@[j]));
                assert(suffix_draw_allowed(draws@[j], suffix_len as int));
            }
        }
        let ghost b = bytes@;
        Self::apply_mutation(bytes, keep_percent, ops.as_slice());
        assert(bytes@ == suffix_result(b, kept_ticks(tick_count as int, (70 + share) as int), aligned as int, suffix_ops_of(draws@)));
        MutationOutcome::Mutated
    }
}

/// The values drawn for one havoc operation, in the order they are drawn:
/// the position in the suffix, the kind (0 flips a bit, 1 sets a byte, any
/// other value adds or subtracts), the argument (the bit, the byte, or the
/// delta less one) and, for an addition or subtraction, the coin that picks
/// between them (0 adds). Values a kind does not draw are 0.
#[derive(Debug, Clone, Copy, PartialEq, Eq, Structural)]
pub struct SuffixDraw {
    pub at: usize,
    pub kind: usize,
    pub arg: usize,
    pub coin: usize,
}

/// The bounds one operation's values are drawn within, for a suffix of `len`
/// bytes: a position inside it, a kind below 3, a bit below 8, a byte below
/// 256, or a delta draw below 16 and a coin below 2.
pub open spec fn suffix_draw_allowed(d: SuffixDraw, len: int) -> bool {
    &&& d.at < len
    &&& d.kind < 3
    &&& d.kind == 0 ==> d.arg < 8
    &&& d.kind == 1 ==> d.arg < 256
    &&& d.kind == 2 ==> d.arg < 16 && d.coin < 2
}

/// The operation that one operation's draws select.
pub open spec fn suffix_op_of(d: SuffixDraw) -> SuffixOp {
    if d.kind == 0 {
        SuffixOp::FlipBit { at: d.at, bit: d.arg as u32 }
    } else if d.kind == 1 {
        SuffixOp::SetByte { at: d.at, value: d.arg as u8 }
    } else if d.coin == 0 {
        SuffixOp::AddByte { at: d.at, delta: (1 + d.arg) as u8 }
    } else {
        SuffixOp::SubByte { at: d.at, delta: (1 + d.arg) as u8 }
    }
}

/// The operations that the draws select, in order.
pub open spec fn suffix_ops_of(ds: Seq<SuffixDraw>) -> Seq<SuffixOp> {
    ds.map_values(|d: SuffixDraw| suffix_op_of(d))
}

/// The kept share and the operations that the draws select: a share of
/// `70 + share` percent, and the operation of each `SuffixDraw` in order.
pub fn suffix_plan_from_draws(share: usize, draws: &[SuffixDraw]) -> (plan: (usize, Vec<SuffixOp>))
    requires
        share <= usize::MAX - 70,
        forall|j: int| 0 <= j < draws@.len() ==> (#[trigger] draws@[j]).arg < usize::MAX,
    ensures
        plan.0 == 70 + share,
        plan.1@ == suffix_ops_of(draws@),
{
    let mut ops: Vec<SuffixOp> = Vec::new();
    let mut k: usize = 0;
    while k < draws.len()
        invariant
            0 <= k <= draws@.len(),
            forall|j: int| 0 <= j < draws@.len() ==> (#[trigger] draws@[j]).arg < usize::MAX,
            ops@ =~= draws@.subrange(0, k as int).map_values(|d: SuffixDraw| suffix_op_of(d)),
        decreases draws@.len() - k,
    {
        let d = draws[k];
        let op = if d.kind == 0 {
            SuffixOp::FlipBit { at: d.at, bit: d.arg as u32 }
        } else if d.kind == 1 {
            SuffixOp::SetByte { at: d.at, value: d.arg as u8 }
        } else if d.coin == 0 {
            SuffixOp::AddByte { at: d.at, delta: (1 + d.arg) as u8 }
        } else {
            SuffixOp::SubByte { at: d.at, delta: (1 + d.arg) as u8 }
        };
        ops.push(op);
        assert(draws@.subrange(0, k + 1) =~= draws@.subrange(0, k as int).push(d));
        k = k + 1;
    }
    assert(draws@.subrange(0, k as int) =~= draws@);
    (70 + share, ops)
}

/// The length of the whole ticks of an input of `len` bytes.
pub open spec fn aligned_len(len: int) -> int {
    len - len % 7
}

/// Number of whole ticks kept by the suffix mutator: `kept_ticks`.
fn kept_tick_count(tick_count: usize, percent: usize) -> (k: usize)
    requires
        tick_count > 0,
    ensures
        k == kept_ticks(tick_count as int, percent as int),
        k < tick_count,
{
    assert((tick_count as int) * (percent as int) <= 0xffff_ffff_ffff_ffff * 0xffff_ffff_ffff_ffff) by (nonlinear_arith)
        requires tick_count <= 0xffff_ffff_ffff_ffff, percent <= 0xffff_ffff_ffff_ffff;
    assert(tick_count * percent / 100 >= 0) by (nonlinear_arith) requires tick_count >= 0, percent >= 0;
    let scaled: u128 = (tick_count as u128) * (percent as u128) / 100;
    if scaled < (tick_count - 1) as u128 { scaled as usize } else { tick_count - 1 }
}

fn template_tick(k: usize) -> (t: Vec<u8>)
    requires
        k < 4,
    ensures
        t@ == template(k as int),
{
    let t = if k == 0 {
        vec![0u8, 0, 0, 0, 0, 0, 1]
    } else if k == 1 {
        vec![60u8, 30, 0, 60, 0, 0, 0]
    } else if k == 2 {
        vec![60u8, 30, 60, 60, 40, 60, 0]
    } else {
        vec![70u8, 20, 70, 50, 0, 0, 0]
    };
    assert(t@ =~= template(k as int));
    t
}

/// Reduces the command bytes at positions `[start, end)` to their low bit.
fn clamp_cmd_range(bytes: &mut Vec<u8>, start: usize, end: usize)
    requires
        start <= end <= old(bytes)@.len(),
    ensures
        final(bytes)@ == clamp_cmd(old(bytes)@, start as int, end as int),
{
    let ghost b = bytes@;
    let mut i: usize = start;
    while i < end
        invariant
            start <= i <= end <= b.len(),
            bytes@.len() == b.len(),
            forall|j: int| 0 <= j < b.len() ==> bytes@[j] == if start <= j < i && j % 7 == 6 { b[j] & 1 } else { b[j] },
        decreases end - i,
    {
        if i % 7 == 6 {
            let v = bytes[i] & 1;
            bytes.set(i, v);
        }
        i = i + 1;
    }
    assert(bytes@ =~= clamp_cmd(b, start as int, end as int));
}

/// After clamping, every command byte in the clamped range is 0 or 1 and
/// every other byte is as it was.
pub proof fn lemma_clamped_commands(b: Seq<u8>, start: int, end: int)
    ensures
        clamp_cmd(b, start, end).len() == b.len(),
        forall|i: int|
            0 <= i < b.len() && start <= i < end && i % 7 == 6 ==> #[trigger] clamp_cmd(b, start, end)[i] <= 1,
        forall|i: int|
            0 <= i < b.len() && !(start <= i < end && i % 7 == 6) ==> #[trigger] clamp_cmd(b, start, end)[i] == b[i],
{
    assert forall|i: int| 0 <= i < b.len() && start <= i < end && i % 7 == 6 implies #[trigger] clamp_cmd(
        b,
        start,
        end,
    )[i] <= 1 by {
        let x = b[i];
        assert(x & 1 <= 1) by (bit_vector);
    }
}

proof fn lemma_apply_ops_frame(b: Seq<u8>, split: int, ops: Seq<SuffixOp>, len: int)
    requires
        0 <= split,
        split + len <= b.len(),
        forall|j: int| 0 <= j < ops.len() ==> op_allowed(#[trigger] ops[j], len),
    ensures
        apply_ops(b, split, ops).len() == b.len(),
        forall|i: int|
            0 <= i < b.len() && !(split <= i < split + len) ==> #[trigger] apply_ops(b, split, ops)[i] == b[i],
    decreases ops.len(),
{
    if ops.len() > 0 {
        let p = ops.drop_last();
        assert forall|j: int| 0 <= j < p.len() implies op_allowed(#[trigger] p[j], len) by {
            assert(p[j] == ops[j]);
        }
        lemma_apply_ops_frame(b, split, p, len);
        assert(op_allowed(ops[ops.len() - 1], len));
    }
}

/// A suffix mutation keeps the length, the kept prefix of whole ticks and
/// the trailing partial tick; only the mutated whole ticks change.
pub proof fn lemma_suffix_frame(b: Seq<u8>, percent: int, ops: Seq<SuffixOp>)
    requires
        70 <= percent <= 90,
        (b.len() - b.len() as int % 7) / 7 > 0,
        forall|j: int|
            0 <= j < ops.len() ==> op_allowed(
                #[trigger] ops[j],
                (b.len() - b.len() as int % 7) - kept_ticks((b.len() - b.len() as int % 7) / 7, percent) * 7,
            ),
    ensures
        ({
            let aligned = b.len() - b.len() as int % 7;
            let keep = kept_ticks(aligned / 7, percent);
            let r = suffix_result(b, keep, aligned, ops);
            &&& r.len() == b.len()
            &&& 0 <= keep < aligned / 7
            &&& forall|i: int| 0 <= i < keep * 7 ==> #[trigger] r[i] == b[i]
            &&& forall|i: int| aligned <= i < b.len() ==> #[trigger] r[i] == b[i]
        }),
{
    let aligned = b.len() - b.len() as int % 7;
    let ticks = aligned / 7;
    let keep = kept_ticks(ticks, percent);
    assert(ticks * percent / 100 >= 0) by (nonlinear_arith) requires ticks >= 0, percent >= 0;
    assert(aligned == ticks * 7);
    lemma_apply_ops_frame(b, keep * 7, ops, aligned - keep * 7);
    lemma_clamped_commands(apply_ops(b, keep * 7, ops), keep * 7, aligned);
}

/// The templates are the pipeline's phase ticks: the start tick, a prime
/// tick, a flow tick and a fill tick of the last zone. Putting the start
/// template in place of a tick leaves that tick with all channels idle and
/// its command bit set.
pub proof fn lemma_templates_are_phase_ticks(b: Seq<u8>, cursor: int, tick: usize)
    requires
        tick < b.len() / 7,
    ensures
        template(0) == start_tick(),
        template(1) == prime_tick(),
        template(2) == flow_tick(),
        template(3) == fill_tick(70, 20, 70),
        tick_mutation_result(b, cursor, TickMutation::Template { tick, template: 0 })[7 * tick + 6] == 1,
        forall|c: int|
            0 <= c < 6 ==> #[trigger] tick_mutation_result(b, cursor, TickMutation::Template { tick, template: 0 })[7
                * tick + c] == 0,
{
    assert(template(0) =~= start_tick());
    assert(template(1) =~= prime_tick());
    assert(template(2) =~= flow_tick());
    assert(template(3) =~= fill_tick(70, 20, 70));
    let put = put_template(b, tick as int, 0);
    assert(put[7 * tick + 6] == 1u8);
    assert(1u8 & 1 == 1u8) by (bit_vector);
    assert((7 * tick + 6) % 7 == 6);
    assert forall|c: int| 0 <= c < 6 implies #[trigger] tick_mutation_result(
        b,
        cursor,
        TickMutation::Template { tick, template: 0 },
    )[7 * tick + c] == 0 by {
        assert((7 * tick + c) % 7 == c);
        assert(put[7 * tick + c] == 0u8);
    }
}

/// A bit flip changes exactly the one bit of its byte (the byte differs from
/// before, and only in that bit) and leaves every other byte alone; flipping
/// the same bit again gives the bytes back.
pub proof fn lemma_flip_bit(b: Seq<u8>, split: int, at: usize, bit: u32)
    requires
        0 <= split,
        split + at < b.len(),
        bit < 8,
    ensures
        ({
            let op = SuffixOp::FlipBit { at, bit };
            let r = apply_op(b, split, op);
            let i = split + at;
            &&& r.len() == b.len()
            &&& r[i] != b[i]
            &&& (r[i] ^ b[i]) == (1u8 << bit)
            &&& forall|j: int| 0 <= j < b.len() && j != i ==> #[trigger] r[j] == b[j]
            &&& apply_op(r, split, op) == b
        }),
{
    let i = split + at;
    let x = b[i];
    assert((x ^ (1u8 << bit)) != x) by (bit_vector) requires bit < 8;
    assert(((x ^ (1u8 << bit)) ^ x) == (1u8 << bit)) by (bit_vector);
    assert(((x ^ (1u8 << bit)) ^ (1u8 << bit)) == x) by (bit_vector);
    let r = apply_op(b, split, SuffixOp::FlipBit { at, bit });
    assert(apply_op(r, split, SuffixOp::FlipBit { at, bit }) =~= b);
}

} // verus!
