//! The pipeline PLC target as the fuzzers see it: its state record, the
//! 7-byte ticks that drive it, hand-made seed sequences, and the progress
//! metrics derived from its state.
use vstd::prelude::*;

verus! {

/// Bytes per PLC scan cycle: pump rate, valve position, pipe temperature,
/// back pressure, feed concentration, coolant and command.
pub const TICK_SIZE: usize = 7;

/// Size of the target's state record.
pub const PIPELINE_STATE_SIZE: usize = 304;

/// The pipeline target's state record.
#[derive(Debug, Clone, Copy)]
pub struct PipelineState {
    pub phase: u32,
    pub cycle_count: i32,
    pub prime_cycles: i32,
    pub prime_score: i32,
    pub flux_score: i32,
    pub flow_accum: i32,
    pub press_accum: i32,
    pub temp_accum: i32,
    pub phase_counter: i32,
    pub fill_head: i32,
    pub buffer: [i32; 64],
    pub pv_sum: i32,
    pub status: i8,
}

impl PipelineState {
    pub open spec fn is_zero(&self) -> bool {
        &&& self.phase == 0
        &&& self.cycle_count == 0
        &&& self.prime_cycles == 0
        &&& self.prime_score == 0
        &&& self.flux_score == 0
        &&& self.flow_accum == 0
        &&& self.press_accum == 0
        &&& self.temp_accum == 0
        &&& self.phase_counter == 0
        &&& self.fill_head == 0
        &&& forall|i: int| 0 <= i < 64 ==> self.buffer@[i] == 0
        &&& self.pv_sum == 0
        &&& self.status == 0
    }
}

impl Default for PipelineState {
    fn default() -> (s: Self)
        ensures
            s.is_zero(),
    {
        PipelineState {
            phase: 0,
            cycle_count: 0,
            prime_cycles: 0,
            prime_score: 0,
            flux_score: 0,
            flow_accum: 0,
            press_accum: 0,
            temp_accum: 0,
            phase_counter: 0,
            fill_head: 0,
            buffer: [0i32; 64],
            pv_sum: 0,
            status: 0,
        }
    }
}

/// Byte `i` of a state image, with bytes past its end read as zero.
pub open spec fn byte_or_zero(b: Seq<u8>, i: int) -> u8 {
    if 0 <= i < b.len() { b[i] } else { 0 }
}

/// The little-endian unsigned 32-bit word at `o`.
pub open spec fn word_at(b: Seq<u8>, o: int) -> int {
    byte_or_zero(b, o) + 256 * byte_or_zero(b, o + 1) + 65536 * byte_or_zero(b, o + 2) + 16777216
        * byte_or_zero(b, o + 3)
}

/// The little-endian two's-complement 32-bit word at `o`.
pub open spec fn signed_word_at(b: Seq<u8>, o: int) -> int {
    let u = word_at(b, o);
    if u >= 0x8000_0000 { u - 0x1_0000_0000 } else { u }
}

fn byte_at(b: &[u8], i: usize) -> (r: u8)
    ensures
        r == byte_or_zero(b@, i as int),
{
    if i < b.len() { b[i] } else { 0 }
}

fn u32_at(b: &[u8], o: usize) -> (r: u32)
    requires
        o + 3 <= usize::MAX,
    ensures
        r == word_at(b@, o as int),
{
    byte_at(b, o) as u32 + 256 * (byte_at(b, o + 1) as u32) + 65536 * (byte_at(b, o + 2) as u32)
        + 16777216 * (byte_at(b, o + 3) as u32)
}

fn i32_at(b: &[u8], o: usize) -> (r: i32)
    requires
        o + 3 <= usize::MAX,
    ensures
        r == signed_word_at(b@, o as int),
{
    let u = u32_at(b, o);
    if u >= 0x8000_0000 {
        ((u - 0x8000_0000) as i32) - 0x4000_0000 - 0x4000_0000
    } else {
        u as i32
    }
}

impl PipelineState {
    /// The record that a little-endian state image holds (the layout of the
    /// target's C struct); bytes missing from a short image read as zero.
    pub open spec fn decoded(b: Seq<u8>, s: PipelineState) -> bool {
        &&& s.phase == word_at(b, 0)
        &&& s.cycle_count == signed_word_at(b, 4)
        &&& s.prime_cycles == signed_word_at(b, 8)
        &&& s.prime_score == signed_word_at(b, 12)
        &&& s.flux_score == signed_word_at(b, 16)
        &&& s.flow_accum == signed_word_at(b, 20)
        &&& s.press_accum == signed_word_at(b, 24)
        &&& s.temp_accum == signed_word_at(b, 28)
        &&& s.phase_counter == signed_word_at(b, 32)
        &&& s.fill_head == signed_word_at(b, 36)
        &&& forall|i: int| 0 <= i < 64 ==> s.buffer@[i] == signed_word_at(b, 40 + 4 * i)
        &&& s.pv_sum == signed_word_at(b, 296)
        &&& s.status == (if byte_or_zero(b, 300) >= 128 {
            byte_or_zero(b, 300) - 256
        } else {
            byte_or_zero(b, 300) as int
        })
    }

    /// Decodes a state image read from the target.
    pub fn from_bytes(b: &[u8]) -> (s: PipelineState)
        ensures
            PipelineState::decoded(b@, s),
    {
        let mut buffer = [0i32; 64];
        let mut i: usize = 0;
        while i < 64
            invariant
                0 <= i <= 64,
                forall|j: int| 0 <= j < i ==> buffer@[j] == signed_word_at(b@, 40 + 4 * j),
            decreases 64 - i,
        {
            let v = i32_at(b, 40 + 4 * i);
            buffer[i] = v;
            i = i + 1;
        }
        let st = byte_at(b, 300);
        let status: i8 = if st >= 128 {
            ((st - 128) as i8) - 64 - 64
        } else {
            st as i8
        };
        PipelineState {
            phase: u32_at(b, 0),
            cycle_count: i32_at(b, 4),
            prime_cycles: i32_at(b, 8),
            prime_score: i32_at(b, 12),
            flux_score: i32_at(b, 16),
            flow_accum: i32_at(b, 20),
            press_accum: i32_at(b, 24),
            temp_accum: i32_at(b, 28),
            phase_counter: i32_at(b, 32),
            fill_head: i32_at(b, 36),
            buffer,
            pv_sum: i32_at(b, 296),
            status,
        }
    }
}

/// The record's leading 32-bit fields in declaration order: phase, cycle
/// count, prime cycles, prime score, flux score, the flow, pressure and
/// temperature accumulators, phase counter and fill head.
pub open spec fn leading_field(s: PipelineState, k: int) -> int {
    if k == 0 {
        s.phase as int
    } else if k == 1 {
        s.cycle_count as int
    } else if k == 2 {
        s.prime_cycles as int
    } else if k == 3 {
        s.prime_score as int
    } else if k == 4 {
        s.flux_score as int
    } else if k == 5 {
        s.flow_accum as int
    } else if k == 6 {
        s.press_accum as int
    } else if k == 7 {
        s.temp_accum as int
    } else if k == 8 {
        s.phase_counter as int
    } else {
        s.fill_head as int
    }
}

/// A state image holds the record in the C layout of its declaration: field
/// number `k` of the ten leading fields occupies the four bytes from `4k`
/// (the phase unsigned, the others signed), the 64 buffer entries follow as
/// fields 10 to 73, `pv_sum` is field 74, and `status` is the byte after it.
pub proof fn lemma_record_layout(b: Seq<u8>, s: PipelineState, k: int, i: int)
    requires
        PipelineState::decoded(b, s),
    ensures
        k == 0 ==> leading_field(s, k) == word_at(b, 4 * k),
        1 <= k < 10 ==> leading_field(s, k) == signed_word_at(b, 4 * k),
        0 <= i < 64 ==> s.buffer@[i] == signed_word_at(b, 4 * (10 + i)),
        s.pv_sum == signed_word_at(b, 4int * 74),
        s.status == (if byte_or_zero(b, 4int * 75) >= 128 {
            byte_or_zero(b, 4int * 75) - 256
        } else {
            byte_or_zero(b, 4int * 75) as int
        }),
{
}

/// An image whose only non-zero bytes are one little-endian word `v` at
/// field `k` decodes to a record whose field `k` is `v` and whose other
/// leading fields are 0.
pub proof fn lemma_single_word_image(b: Seq<u8>, s: PipelineState, k: int, v: i32)
    requires
        PipelineState::decoded(b, s),
        1 <= k < 10,
        b.len() == PIPELINE_STATE_SIZE,
        signed_word_at(b, 4 * k) == v,
        forall|j: int| 0 <= j < b.len() && !(4 * k <= j < 4 * k + 4) ==> #[trigger] b[j] == 0,
    ensures
        leading_field(s, k) == v,
        forall|m: int| 0 <= m < 10 && m != k ==> #[trigger] leading_field(s, m) == 0,
{
    assert forall|m: int| 0 <= m < 10 && m != k implies #[trigger] leading_field(s, m) == 0 by {
        assert(b[4 * m] == 0 && b[4 * m + 1] == 0 && b[4 * m + 2] == 0 && b[4 * m + 3] == 0);
    }
}

/// An empty state image decodes to the all-zero record.
pub proof fn lemma_empty_image_is_zero(s: PipelineState)
    requires
        PipelineState::decoded(Seq::<u8>::empty(), s),
    ensures
        s.is_zero(),
{
}

/// One tick of channel bytes.
pub open spec fn tick_bytes(pump: u8, valve: u8, temp: u8, bp: u8, conc: u8, cool: u8, cmd: u8) -> Seq<u8> {
    seq![pump, valve, temp, bp, conc, cool, cmd]
}

/// `n` copies of the tick `t`, one after another.
pub open spec fn repeat_tick(n: nat, t: Seq<u8>) -> Seq<u8>
    decreases n,
{
    if n == 0 {
        seq![]
    } else {
        repeat_tick((n - 1) as nat, t) + t
    }
}

/// Appends `count` identical ticks with the given channel bytes.
pub fn append_ticks(
    buf: &mut Vec<u8>,
    count: usize,
    pump: u8,
    valve: u8,
    temp: u8,
    bp: u8,
    conc: u8,
    cool: u8,
    cmd: u8,
)
    ensures
        final(buf)@ == old(buf)@ + repeat_tick(count as nat, tick_bytes(pump, valve, temp, bp, conc, cool, cmd)),
{
    let ghost t = tick_bytes(pump, valve, temp, bp, conc, cool, cmd);
    let ghost start = buf@;
    let mut k: usize = 0;
    assert(start + repeat_tick(0, t) =~= start);
    while k < count
        invariant
            0 <= k <= count,
            t == tick_bytes(pump, valve, temp, bp, conc, cool, cmd),
            buf@ == start + repeat_tick(k as nat, t),
        decreases count - k,
    {
        buf.push(pump);
        buf.push(valve);
        buf.push(temp);
        buf.push(bp);
        buf.push(conc);
        buf.push(cool);
        buf.push(cmd);
        assert(buf@ =~= start + repeat_tick((k + 1) as nat, t));
        k = k + 1;
    }
}

/// The tick that starts the pipeline (command bit set, all channels idle).
pub open spec fn start_tick() -> Seq<u8> {
    tick_bytes(0, 0, 0, 0, 0, 0, 1)
}

/// The tick that builds the prime score.
pub open spec fn prime_tick() -> Seq<u8> {
    tick_bytes(60, 30, 0, 60, 0, 0, 0)
}

/// The tick that builds the flux score.
pub open spec fn flow_tick() -> Seq<u8> {
    tick_bytes(60, 30, 60, 60, 40, 60, 0)
}

/// A fill-phase tick with the given pump rate, valve position and temperature.
pub open spec fn fill_tick(pump: u8, valve: u8, temp: u8) -> Seq<u8> {
    tick_bytes(pump, valve, temp, 50, 0, 0, 0)
}

/// The prefix that brings the pipeline to the fill phase: start, 24 prime
/// ticks and 12 flow ticks.
pub open spec fn pre_fill() -> Seq<u8> {
    repeat_tick(1, start_tick()) + repeat_tick(24, prime_tick()) + repeat_tick(12, flow_tick())
}

/// Seeds of the greybox fuzzer: start only; start and priming; and the
/// pre-fill prefix followed by 16 fill ticks of zone 0.
pub fn bootstrap_phase_seeds() -> (seeds: Vec<Vec<u8>>)
    ensures
        seeds@.len() == 3,
        seeds@[0]@ == repeat_tick(1, start_tick()),
        seeds@[1]@ == repeat_tick(1, start_tick()) + repeat_tick(24, prime_tick()),
        seeds@[2]@ == pre_fill() + repeat_tick(16, fill_tick(60, 20, 60)),
{
    let mut seeds: Vec<Vec<u8>> = Vec::new();

    let mut s1: Vec<u8> = Vec::new();
    append_ticks(&mut s1, 1, 0, 0, 0, 0, 0, 0, 1);
    seeds.push(s1);

    let mut s2: Vec<u8> = Vec::new();
    append_ticks(&mut s2, 1, 0, 0, 0, 0, 0, 0, 1);
    append_ticks(&mut s2, 24, 60, 30, 0, 60, 0, 0, 0);
    seeds.push(s2);

    let mut s3: Vec<u8> = Vec::new();
    append_ticks(&mut s3, 1, 0, 0, 0, 0, 0, 0, 1);
    append_ticks(&mut s3, 24, 60, 30, 0, 60, 0, 0, 0);
    append_ticks(&mut s3, 12, 60, 30, 60, 60, 40, 60, 0);
    append_ticks(&mut s3, 16, 60, 20, 60, 50, 0, 0, 0);
    seeds.push(s3);

    proof {
        assert(Seq::<u8>::empty() + repeat_tick(1, start_tick()) =~= repeat_tick(1, start_tick()));
    }
    seeds
}

/// The fill ticks that walk the fill head through all eight zones and past
/// the end of the fill buffer.
pub open spec fn full_fill() -> Seq<u8> {
    repeat_tick(35, fill_tick(60, 20, 60)) + repeat_tick(32, fill_tick(80, 20, 70)) + repeat_tick(
        32,
        fill_tick(65, 20, 80),
    ) + repeat_tick(32, fill_tick(50, 20, 72)) + repeat_tick(32, fill_tick(90, 20, 62)) + repeat_tick(
        32,
        fill_tick(60, 20, 85),
    ) + repeat_tick(32, fill_tick(80, 20, 60)) + repeat_tick(33, fill_tick(70, 20, 70))
}

/// Seeds of the cross-entropy fuzzer: start only; start and priming; the
/// pre-fill prefix with 35 zone-0 fill ticks; and the full pipeline run that
/// overflows the fill buffer.
pub fn bootstrap_seeds() -> (seeds: Vec<Vec<u8>>)
    ensures
        seeds@.len() == 4,
        seeds@[0]@ == repeat_tick(1, start_tick()),
        seeds@[1]@ == repeat_tick(1, start_tick()) + repeat_tick(24, prime_tick()),
        seeds@[2]@ == pre_fill() + repeat_tick(35, fill_tick(60, 20, 60)),
        seeds@[3]@ == pre_fill() + full_fill(),
{
    let mut seeds: Vec<Vec<u8>> = Vec::new();

    let mut s1: Vec<u8> = Vec::new();
    append_ticks(&mut s1, 1, 0, 0, 0, 0, 0, 0, 1);
    seeds.push(s1);

    let mut s2: Vec<u8> = Vec::new();
    append_ticks(&mut s2, 1, 0, 0, 0, 0, 0, 0, 1);
    append_ticks(&mut s2, 24, 60, 30, 0, 60, 0, 0, 0);
    seeds.push(s2);

    let mut s3: Vec<u8> = Vec::new();
    append_ticks(&mut s3, 1, 0, 0, 0, 0, 0, 0, 1);
    append_ticks(&mut s3, 24, 60, 30, 0, 60, 0, 0, 0);
    append_ticks(&mut s3, 12, 60, 30, 60, 60, 40, 60, 0);
    append_ticks(&mut s3, 35, 60, 20, 60, 50, 0, 0, 0);
    seeds.push(s3);

    let mut s4: Vec<u8> = Vec::new();
    append_ticks(&mut s4, 1, 0, 0, 0, 0, 0, 0, 1);
    append_ticks(&mut s4, 24, 60, 30, 0, 60, 0, 0, 0);
    append_ticks(&mut s4, 12, 60, 30, 60, 60, 40, 60, 0);
    append_ticks(&mut s4, 35, 60, 20, 60, 50, 0, 0, 0);
    append_ticks(&mut s4, 32, 80, 20, 70, 50, 0, 0, 0);
    append_ticks(&mut s4, 32, 65, 20, 80, 50, 0, 0, 0);
    append_ticks(&mut s4, 32, 50, 20, 72, 50, 0, 0, 0);
    append_ticks(&mut s4, 32, 90, 20, 62, 50, 0, 0, 0);
    append_ticks(&mut s4, 32, 60, 20, 85, 50, 0, 0, 0);
    append_ticks(&mut s4, 32, 80, 20, 60, 50, 0, 0, 0);
    append_ticks(&mut s4, 33, 70, 20, 70, 50, 0, 0, 0);
    seeds.push(s4);

    proof {
        assert(Seq::<u8>::empty() + repeat_tick(1, start_tick()) =~= repeat_tick(1, start_tick()));
        assert(seeds@[3]@ =~= pre_fill() + full_fill());
    }
    seeds
}

/// The fill ticks of the smoke test, zone by zone.
pub open spec fn smoke_fill() -> Seq<u8> {
    repeat_tick(35, fill_tick(60, 20, 60)) + repeat_tick(32, fill_tick(60, 30, 70)) + repeat_tick(
        32,
        fill_tick(60, 20, 80),
    ) + repeat_tick(32, fill_tick(60, 15, 70)) + repeat_tick(32, fill_tick(80, 25, 60)) + repeat_tick(
        32,
        fill_tick(60, 20, 85),
    ) + repeat_tick(32, fill_tick(80, 20, 60)) + repeat_tick(35, fill_tick(70, 20, 70))
}

/// The tick sequence of the smoke test: through priming and flow into the
/// fill phase, then through every fill zone until the fill buffer overflows.
pub fn smoke_sequence() -> (seq: Vec<u8>)
    ensures
        seq@ == pre_fill() + smoke_fill(),
{
    let mut seq: Vec<u8> = Vec::new();
    append_ticks(&mut seq, 1, 0, 0, 0, 0, 0, 0, 1);
    append_ticks(&mut seq, 24, 60, 30, 0, 60, 0, 0, 0);
    append_ticks(&mut seq, 12, 60, 30, 60, 60, 40, 60, 0);
    append_ticks(&mut seq, 35, 60, 20, 60, 50, 0, 0, 0);
    append_ticks(&mut seq, 32, 60, 30, 70, 50, 0, 0, 0);
    append_ticks(&mut seq, 32, 60, 20, 80, 50, 0, 0, 0);
    append_ticks(&mut seq, 32, 60, 15, 70, 50, 0, 0, 0);
    append_ticks(&mut seq, 32, 80, 25, 60, 50, 0, 0, 0);
    append_ticks(&mut seq, 32, 60, 20, 85, 50, 0, 0, 0);
    append_ticks(&mut seq, 32, 80, 20, 60, 50, 0, 0, 0);
    append_ticks(&mut seq, 35, 70, 20, 70, 50, 0, 0, 0);
    proof {
        assert(seq@ =~= pre_fill() + smoke_fill());
    }
    seq
}

} // verus!
