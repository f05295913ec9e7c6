//! Integer parts of the cross-entropy fuzzer: which byte distribution each
//! tick position samples from, how new episodes are laid out, and the byte
//! counts of the elite episodes that the distributions are moved toward.
use vstd::prelude::*;
use libafl_bolts::rands::StdRand;
use crate::metrics::{FILL_ZONE_BASE, NUM_PHASES};
use crate::mutators::below_or_zero;
use crate::pipeline::TICK_SIZE;
use crate::scoring::min_int;

verus! {

/// Longest sampled episode, in ticks.
pub const MAX_TICKS: usize = 600;

/// Shortest fresh episode, in ticks.
pub const MIN_TICKS: usize = 120;

/// Number of byte values.
pub const BYTE_VALUES: usize = 256;

/// The distribution slot that tick position `t` samples from, by the expected
/// pipeline timing: start at 0, priming through 25, flow through 65, then one
/// fill zone per 32 ticks (the last zone taking the rest).
pub open spec fn phase_slot_for_tick(t: int) -> int {
    if t == 0 {
        0
    } else if t <= 25 {
        1
    } else if t <= 65 {
        2
    } else {
        FILL_ZONE_BASE + min_int((t - 66) / 32, 7)
    }
}

/// Tick positions follow the pipeline's timing: position 0 is the start,
/// 1 to 25 prime, 26 to 65 flow, and from 66 on each fill zone `k` covers the
/// 32 consecutive positions `66 + 32k` to `66 + 32k + 31` and takes slot
/// `4 + k`, the last zone (slot 11) taking every later position.
pub proof fn lemma_slot_timing(t: int, k: int, j: int)
    ensures
        t == 0 ==> phase_slot_for_tick(t) == 0,
        1 <= t <= 25 ==> phase_slot_for_tick(t) == 1,
        26 <= t <= 65 ==> phase_slot_for_tick(t) == 2,
        0 <= k < 7 && 0 <= j < 32 ==> phase_slot_for_tick(66 + 32 * k + j) == 4 + k,
        t >= 66 + 32 * 7 ==> phase_slot_for_tick(t) == 11,
{
    if 0 <= k < 7 && 0 <= j < 32 {
        assert((32 * k + j) / 32 == k) by (nonlinear_arith) requires 0 <= k, 0 <= j < 32;
        assert(66 + 32 * k + j - 66 == 32 * k + j);
    }
    if t >= 66 + 32 * 7 {
        assert((t - 66) / 32 >= 7) by (nonlinear_arith) requires t - 66 >= 224;
    }
}

/// Distribution slot for tick position `t`.
pub fn phase_for_tick(t: usize) -> (slot: usize)
    ensures
        slot == phase_slot_for_tick(t as int),
        slot < NUM_PHASES,
{
    if t == 0 {
        0
    } else if t <= 25 {
        1
    } else if t <= 65 {
        2
    } else {
        let fill_tick = t - 66;
        let est_zone = fill_tick / 32;
        let est_zone = if est_zone < 7 { est_zone } else { 7 };
        FILL_ZONE_BASE + est_zone
    }
}

/// How one tick of a new episode is made.
#[derive(Debug, Clone, Copy, PartialEq, Eq, Structural)]
pub enum CemTick {
    /// The fixed start tick (command bit set, channels idle).
    Start,
    /// A tick sampled from the distribution of this slot.
    Sample(usize),
}

/// The layout of a new episode: the first `keep_bytes` bytes of the current
/// input, then the planned ticks.
pub struct CemPlan {
    pub keep_bytes: usize,
    pub ticks: Vec<CemTick>,
}

/// Most ticks of an input of `total` whole ticks that an extension keeps:
/// nine tenths, but at least one and at most `MAX_TICKS`.
pub open spec fn max_kept(total: int) -> int {
    min_int(if total * 9 / 10 >= 1 { total * 9 / 10 } else { 1 }, MAX_TICKS as int)
}

/// The ticks of a fresh episode of `n` ticks: the start tick, then ticks
/// sampled by their position.
pub open spec fn fresh_ticks(n: int) -> Seq<CemTick> {
    Seq::new(n as nat, |t: int| if t == 0 { CemTick::Start } else { CemTick::Sample(phase_slot_for_tick(t) as usize) })
}

/// The `n` ticks sampled after `kept` kept ticks, each by its position in the episode.
pub open spec fn extension_ticks(kept: int, n: int) -> Seq<CemTick> {
    Seq::new(n as nat, |t: int| CemTick::Sample(phase_slot_for_tick(kept + t) as usize))
}

/// `plan` is a fresh episode: the start tick, then sampled ticks by position.
pub open spec fn is_fresh_plan(keep_bytes: int, ticks: Seq<CemTick>) -> bool {
    &&& keep_bytes == 0
    &&& MIN_TICKS <= ticks.len() <= MAX_TICKS
    &&& ticks[0] == CemTick::Start
    &&& forall|t: int| 1 <= t < ticks.len() ==> #[trigger] ticks[t] == CemTick::Sample(phase_slot_for_tick(t) as usize)
}

/// `plan` extends an input of `total` whole ticks: it keeps between one tick
/// and `max_kept(total)` of them, and samples more ticks, each by its
/// position in the episode, so that the episode holds at most `MAX_TICKS`.
pub open spec fn is_extension_plan(total: int, keep_bytes: int, ticks: Seq<CemTick>) -> bool {
    let kept = keep_bytes / 7;
    &&& total > 0
    &&& keep_bytes % 7 == 0
    &&& 1 <= kept <= max_kept(total)
    &&& kept + ticks.len() <= MAX_TICKS
    &&& forall|t: int| 0 <= t < ticks.len() ==> #[trigger] ticks[t] == CemTick::Sample(phase_slot_for_tick(kept + t) as usize)
}

/// Whether the planner extends the current input: the mode draw picks
/// extension (below 6 of 10) and the input holds a whole tick.
pub open spec fn extends(existing_len: int, mode: int) -> bool {
    mode < 6 && existing_len / 7 > 0
}

/// The draws the planner may make for an input of `existing_len` bytes after
/// the mode draw `mode`: when extending, the kept-tick draw is below
/// `max_kept` and the extension draw leaves the episode within `MAX_TICKS`;
/// otherwise the fresh-length draw is at most `MAX_TICKS - MIN_TICKS`.
pub open spec fn draws_allowed(existing_len: int, mode: int, keep_draw: int, extend_draw: int, fresh_draw: int) -> bool {
    if extends(existing_len, mode) {
        keep_draw < max_kept(existing_len / 7) && 1 + keep_draw + extend_draw <= MAX_TICKS
    } else {
        fresh_draw <= MAX_TICKS - MIN_TICKS
    }
}

/// The cross-entropy mutator: extends an input of the corpus (six times in
/// ten) or starts a fresh episode, sampling ticks from the learnt
/// distributions.
pub struct CemMutator;

impl CemMutator {
    /// The plan for an input of `existing_len` bytes from the drawn values:
    /// when extending, keep `1 + keep_draw` ticks and sample `extend_draw`
    /// more; otherwise a fresh episode of `MIN_TICKS + fresh_draw` ticks.
    pub fn plan_from_draws(existing_len: usize, mode: usize, keep_draw: usize, extend_draw: usize, fresh_draw: usize) -> (p: CemPlan)
        requires
            draws_allowed(existing_len as int, mode as int, keep_draw as int, extend_draw as int, fresh_draw as int),
        ensures
            extends(existing_len as int, mode as int) ==> p.keep_bytes == 7 * (1 + keep_draw) && p.ticks@
                == extension_ticks(1 + keep_draw, extend_draw as int),
            !extends(existing_len as int, mode as int) ==> p.keep_bytes == 0 && p.ticks@ == fresh_ticks(
                MIN_TICKS + fresh_draw,
            ),
    {
        let total_ticks = existing_len / TICK_SIZE;
        if mode < 6 && total_ticks > 0 {
            let keep_ticks = 1 + keep_draw;
            let mut ticks: Vec<CemTick> = Vec::new();
            let mut t: usize = 0;
            while t < extend_draw
                invariant
                    0 <= t <= extend_draw,
                    keep_ticks + extend_draw <= MAX_TICKS,
                    keep_ticks == 1 + keep_draw,
                    ticks@.len() == t,
                    forall|j: int| 0 <= j < t ==> #[trigger] ticks@[j] == CemTick::Sample(
                        phase_slot_for_tick(keep_ticks + j) as usize,
                    ),
                decreases extend_draw - t,
            {
                let ph = phase_for_tick(keep_ticks + t);
                ticks.push(CemTick::Sample(ph));
                t = t + 1;
            }
            assert(ticks@ =~= extension_ticks(1 + keep_draw, extend_draw as int));
            CemPlan { keep_bytes: keep_ticks * TICK_SIZE, ticks }
        } else {
            let num_ticks = MIN_TICKS + fresh_draw;
            let mut ticks: Vec<CemTick> = Vec::new();
            ticks.push(CemTick::Start);
            let mut t: usize = 1;
            while t < num_ticks
                invariant
                    1 <= t <= num_ticks <= MAX_TICKS,
                    ticks@.len() == t,
                    ticks@[0] == CemTick::Start,
                    forall|j: int| 1 <= j < t ==> #[trigger] ticks@[j] == CemTick::Sample(phase_slot_for_tick(j) as usize),
                decreases num_ticks - t,
            {
                let ph = phase_for_tick(t);
                ticks.push(CemTick::Sample(ph));
                t = t + 1;
            }
            assert(ticks@ =~= fresh_ticks(num_ticks as int));
            CemPlan { keep_bytes: 0, ticks }
        }
    }

    /// Plans the next episode for a current input of `existing_len` bytes:
    /// draws the mode and then the kept and extended lengths, or the fresh
    /// length, from `rand`, and hands them to `plan_from_draws`.
    pub fn plan(&self, rand: &mut StdRand, existing_len: usize) -> (p: CemPlan)
        ensures
            ({
                let total = existing_len as int / 7;
                ||| is_fresh_plan(p.keep_bytes as int, p.ticks@)
                ||| is_extension_plan(total, p.keep_bytes as int, p.ticks@)
            }),
            existing_len / 7 == 0 ==> is_fresh_plan(p.keep_bytes as int, p.ticks@),
            p.keep_bytes <= existing_len,
    {
        let mode = below_or_zero(rand, 10);
        let total_ticks = existing_len / TICK_SIZE;
        let p = if mode < 6 && total_ticks > 0 {
            let max_keep = max_keep_ticks(total_ticks);
            let keep_draw = below_or_zero(rand, max_keep);
            let extend_max = MAX_TICKS - (1 + keep_draw);
            let extend_draw = below_or_zero(rand, extend_max + 1);
            Self::plan_from_draws(existing_len, mode, keep_draw, extend_draw, 0)
        } else {
            let fresh_draw = below_or_zero(rand, MAX_TICKS - MIN_TICKS + 1);
            Self::plan_from_draws(existing_len, mode, 0, 0, fresh_draw)
        };
        p
    }
}

/// `max_kept(total)` for a positive number of whole ticks.
fn max_keep_ticks(total_ticks: usize) -> (m: usize)
    requires
        total_ticks > 0,
    ensures
        m == max_kept(total_ticks as int),
        1 <= m <= MAX_TICKS,
        m <= total_ticks,
{
    let nine_tenths = total_ticks / 10 * 9 + (total_ticks % 10) * 9 / 10;
    proof {
        assert(nine_tenths == total_ticks as int * 9 / 10) by (nonlinear_arith)
            requires nine_tenths == total_ticks / 10 * 9 + (total_ticks % 10) * 9 / 10, total_ticks >= 0;
    }
    let m = if nine_tenths >= 1 { nine_tenths } else { 1 };
    if m < MAX_TICKS { m } else { MAX_TICKS }
}

/// Episodes collected before each update of the distributions.
pub const POPULATION_SIZE: usize = 64;

/// Moves the episode of the last run, if there is one, into the generation
/// buffer and counts it. Says whether the buffer now holds a whole
/// population, so that the distributions are due for an update.
pub fn buffer_pending<T>(pending: &mut Option<T>, buffer: &mut Vec<T>, total: &mut usize) -> (update_due: bool)
    requires
        old(pending).is_some() ==> *old(total) < usize::MAX,
    ensures
        final(pending).is_none(),
        match *old(pending) {
            Some(ep) => {
                &&& final(buffer)@ == old(buffer)@.push(ep)
                &&& *final(total) == *old(total) + 1
                &&& update_due == (final(buffer)@.len() >= POPULATION_SIZE)
            },
            None => {
                &&& final(buffer)@ == old(buffer)@
                &&& *final(total) == *old(total)
                &&& !update_due
            },
        },
{
    match pending.take() {
        Some(ep) => {
            buffer.push(ep);
            *total = *total + 1;
            buffer.len() >= POPULATION_SIZE
        },
        None => false,
    }
}

/// One tick of an episode with the distribution slot it is attributed to.
#[derive(Debug, Clone, Copy)]
pub struct TickRecord {
    pub phase: usize,
    pub bytes: [u8; 7],
}

/// Number of the ticks of `ticks` attributed to `slot`.
pub open spec fn slot_total(ticks: Seq<TickRecord>, slot: int) -> nat
    decreases ticks.len(),
{
    if ticks.len() == 0 {
        0
    } else {
        slot_total(ticks.drop_last(), slot) + if ticks.last().phase == slot { 1nat } else { 0nat }
    }
}

/// Number of the ticks of `ticks` attributed to `slot` whose byte at `pos` is `value`.
pub open spec fn byte_count(ticks: Seq<TickRecord>, slot: int, pos: int, value: int) -> nat
    decreases ticks.len(),
{
    if ticks.len() == 0 {
        0
    } else {
        byte_count(ticks.drop_last(), slot, pos, value) + if ticks.last().phase == slot
            && ticks.last().bytes@[pos] == value {
            1nat
        } else {
            0nat
        }
    }
}

/// Index of the count of byte `value` at position `pos` in slot `slot`.
pub open spec fn count_index(slot: int, pos: int, value: int) -> int {
    (slot * 7 + pos) * 256 + value
}

/// Index of the total of slot `slot` at position `pos`.
pub open spec fn total_index(slot: int, pos: int) -> int {
    slot * 7 + pos
}

/// Byte-value frequencies of elite ticks, per slot and tick position.
pub struct EliteCounts {
    /// `counts[count_index(slot, pos, value)]`: elite ticks of `slot` with `value` at `pos`.
    pub counts: Vec<u32>,
    /// `totals[total_index(slot, pos)]`: elite ticks of `slot`.
    pub totals: Vec<u32>,
}

/// Counts, for every slot and tick position, how often each byte value
/// occurs in the given elite ticks.
pub fn count_elite_bytes(ticks: &[TickRecord]) -> (c: EliteCounts)
    requires
        ticks@.len() <= u32::MAX,
        forall|i: int| 0 <= i < ticks@.len() ==> (#[trigger] ticks@[i]).phase < NUM_PHASES,
    ensures
        c.counts@.len() == NUM_PHASES * TICK_SIZE * BYTE_VALUES,
        c.totals@.len() == NUM_PHASES * TICK_SIZE,
        forall|slot: int, pos: int, value: int|
            0 <= slot < NUM_PHASES && 0 <= pos < 7 && 0 <= value < 256 ==> c.counts@[#[trigger] count_index(
                slot,
                pos,
                value,
            )] == byte_count(ticks@, slot, pos, value),
        forall|slot: int, pos: int|
            0 <= slot < NUM_PHASES && 0 <= pos < 7 ==> c.totals@[#[trigger] total_index(slot, pos)] == slot_total(ticks@, slot),
{
    let mut counts: Vec<u32> = vec![0u32; NUM_PHASES * TICK_SIZE * BYTE_VALUES];
    let mut totals: Vec<u32> = vec![0u32; NUM_PHASES * TICK_SIZE];
    let mut i: usize = 0;
    while i < ticks.len()
        invariant
            0 <= i <= ticks@.len() <= u32::MAX,
            forall|k: int| 0 <= k < ticks@.len() ==> (#[trigger] ticks@[k]).phase < NUM_PHASES,
            counts@.len() == NUM_PHASES * TICK_SIZE * BYTE_VALUES,
            totals@.len() == NUM_PHASES * TICK_SIZE,
            forall|slot: int, pos: int, value: int|
                0 <= slot < NUM_PHASES && 0 <= pos < 7 && 0 <= value < 256 ==> counts@[#[trigger] count_index(
                    slot,
                    pos,
                    value,
                )] == byte_count(ticks@.subrange(0, i as int), slot, pos, value),
            forall|slot: int, pos: int|
                0 <= slot < NUM_PHASES && 0 <= pos < 7 ==> totals@[#[trigger] total_index(slot, pos)] == slot_total(
                    ticks@.subrange(0, i as int),
                    slot,
                ),
        decreases ticks@.len() - i,
    {
        let rec = ticks[i];
        let ghost pre = ticks@.subrange(0, i as int);
        let ghost cur = ticks@.subrange(0, i + 1);
        assert(cur.drop_last() =~= pre);
        assert(cur.last() == rec);
        proof {
            lemma_counts_bounded(pre, i as nat);
        }
        let mut pos: usize = 0;
        while pos < TICK_SIZE
            invariant
                0 <= pos <= 7,
                rec.phase < NUM_PHASES,
                pre.len() == i,
                i < u32::MAX,
                counts@.len() == NUM_PHASES * TICK_SIZE * BYTE_VALUES,
                totals@.len() == NUM_PHASES * TICK_SIZE,
                forall|slot: int, p: int, value: int|
                    0 <= slot < NUM_PHASES && 0 <= p < 7 && 0 <= value < 256 ==> counts@[#[trigger] count_index(
                        slot,
                        p,
                        value,
                    )] == byte_count(pre, slot, p, value) + if slot == rec.phase && p < pos && rec.bytes@[p]
                        == value {
                        1nat
                    } else {
                        0nat
                    },
                forall|slot: int, p: int|
                    0 <= slot < NUM_PHASES && 0 <= p < 7 ==> totals@[#[trigger] total_index(slot, p)] == slot_total(pre, slot) + if slot
                        == rec.phase && p < pos {
                        1nat
                    } else {
                        0nat
                    },
                forall|slot: int, p: int, value: int|
                    0 <= slot < NUM_PHASES && 0 <= p < 7 && 0 <= value < 256 ==> byte_count(pre, slot, p, value) <= i,
                forall|slot: int| 0 <= slot < NUM_PHASES ==> slot_total(pre, slot) <= i,
            decreases 7 - pos,
        {
            let b = rec.bytes[pos] as usize;
            let ci = (rec.phase * TICK_SIZE + pos) * BYTE_VALUES + b;
            let ti = rec.phase * TICK_SIZE + pos;
            proof {
                assert(ci == count_index(rec.phase as int, pos as int, b as int));
                assert(ti == total_index(rec.phase as int, pos as int));
                assert(slot_total(pre, rec.phase as int) <= i);
                assert(ci < NUM_PHASES * TICK_SIZE * BYTE_VALUES) by (nonlinear_arith)
                    requires ci == (rec.phase * 7 + pos) * 256 + b, rec.phase < 12, pos < 7, b < 256;
                assert(ti < NUM_PHASES * TICK_SIZE) by (nonlinear_arith)
                    requires ti == rec.phase * 7 + pos, rec.phase < 12, pos < 7;
            }
            let c0 = counts[ci];
            counts.set(ci, c0 + 1);
            let t0 = totals[ti];
            totals.set(ti, t0 + 1);
            proof {
                assert forall|slot: int, p: int, value: int|
                    0 <= slot < NUM_PHASES && 0 <= p < 7 && 0 <= value < 256 implies counts@[#[trigger] count_index(
                    slot,
                    p,
                    value,
                )] == byte_count(pre, slot, p, value) + if slot == rec.phase && p < pos + 1 && rec.bytes@[p] == value {
                    1nat
                } else {
                    0nat
                } by {
                    lemma_count_index_injective(slot, p, value, rec.phase as int, pos as int, b as int);
                }
                assert forall|slot: int, p: int| 0 <= slot < NUM_PHASES && 0 <= p < 7 implies totals@[#[trigger] total_index(slot, p)]
                    == slot_total(pre, slot) + if slot == rec.phase && p < pos + 1 {
                    1nat
                } else {
                    0nat
                } by {
                    if total_index(slot, p) == ti {
                        assert(slot == rec.phase && p == pos) by (nonlinear_arith)
                            requires slot * 7 + p == rec.phase * 7 + pos, 0 <= p < 7, 0 <= pos < 7;
                    }
                }
            }
            pos = pos + 1;
        }
        i = i + 1;
    }
    assert(ticks@.subrange(0, i as int) =~= ticks@);
    EliteCounts { counts, totals }
}

proof fn lemma_count_index_injective(s1: int, p1: int, v1: int, s2: int, p2: int, v2: int)
    requires
        0 <= p1 < 7,
        0 <= p2 < 7,
        0 <= v1 < 256,
        0 <= v2 < 256,
        0 <= s1,
        0 <= s2,
    ensures
        count_index(s1, p1, v1) == count_index(s2, p2, v2) <==> (s1 == s2 && p1 == p2 && v1 == v2),
{
    if count_index(s1, p1, v1) == count_index(s2, p2, v2) {
        assert(v1 == v2 && s1 * 7 + p1 == s2 * 7 + p2) by (nonlinear_arith)
            requires (s1 * 7 + p1) * 256 + v1 == (s2 * 7 + p2) * 256 + v2, 0 <= v1 < 256, 0 <= v2 < 256,
                0 <= s1 * 7 + p1, 0 <= s2 * 7 + p2;
        assert(s1 == s2 && p1 == p2) by (nonlinear_arith)
            requires s1 * 7 + p1 == s2 * 7 + p2, 0 <= p1 < 7, 0 <= p2 < 7;
    }
}

proof fn lemma_counts_bounded(ticks: Seq<TickRecord>, n: nat)
    requires
        ticks.len() == n,
    ensures
        forall|slot: int, p: int, value: int| #![trigger byte_count(ticks, slot, p, value)] byte_count(ticks, slot, p, value) <= n,
        forall|slot: int| #![trigger slot_total(ticks, slot)] slot_total(ticks, slot) <= n,
    decreases n,
{
    if n > 0 {
        lemma_counts_bounded(ticks.drop_last(), (n - 1) as nat);
        assert forall|slot: int, p: int, value: int| #![trigger byte_count(ticks, slot, p, value)] byte_count(ticks, slot, p, value) <= n by {
            assert(byte_count(ticks.drop_last(), slot, p, value) <= n - 1);
        }
        assert forall|slot: int| #![trigger slot_total(ticks, slot)] slot_total(ticks, slot) <= n by {
            assert(slot_total(ticks.drop_last(), slot) <= n - 1);
        }
    }
}

/// The counts of the byte values `0..n` at position `pos` of slot `slot`.
pub open spec fn counts_below(ticks: Seq<TickRecord>, slot: int, pos: int, n: int) -> nat
    decreases n,
{
    if n <= 0 {
        0
    } else {
        counts_below(ticks, slot, pos, n - 1) + byte_count(ticks, slot, pos, n - 1)
    }
}

proof fn lemma_counts_below_step(ticks: Seq<TickRecord>, slot: int, pos: int, n: int)
    requires
        ticks.len() > 0,
        0 <= n <= 256,
    ensures
        counts_below(ticks, slot, pos, n) == counts_below(ticks.drop_last(), slot, pos, n) + if ticks.last().phase
            == slot && ticks.last().bytes@[pos] < n {
            1nat
        } else {
            0nat
        },
    decreases n,
{
    if n > 0 {
        lemma_counts_below_step(ticks, slot, pos, n - 1);
    }
}

/// At every slot and position the counts of all byte values add up to the
/// slot's total: the elite frequencies of a position form a distribution.
pub proof fn lemma_counts_sum_to_total(ticks: Seq<TickRecord>, slot: int, pos: int)
    requires
        0 <= pos < 7,
    ensures
        counts_below(ticks, slot, pos, 256) == slot_total(ticks, slot),
    decreases ticks.len(),
{
    if ticks.len() > 0 {
        lemma_counts_sum_to_total(ticks.drop_last(), slot, pos);
        lemma_counts_below_step(ticks, slot, pos, 256);
        let b = ticks.last().bytes@[pos];
        assert(b < 256);
    } else {
        lemma_counts_below_empty(ticks, slot, pos, 256);
    }
}

proof fn lemma_counts_below_empty(ticks: Seq<TickRecord>, slot: int, pos: int, n: int)
    requires
        ticks.len() == 0,
    ensures
        counts_below(ticks, slot, pos, n) == 0,
    decreases n,
{
    if n > 0 {
        lemma_counts_below_empty(ticks, slot, pos, n - 1);
    }
}

} // verus!
