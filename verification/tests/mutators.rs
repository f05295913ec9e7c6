use libafl_bolts::rands::{Rand, StdRand};
use libafl_sandbox::cem::{
    buffer_pending, count_elite_bytes, phase_for_tick, CemMutator, CemTick, TickRecord, MAX_TICKS, MIN_TICKS,
    POPULATION_SIZE,
};
use libafl_sandbox::mutators::{
    suffix_plan_from_draws, tick_mutation_from_draws, MutationOutcome, SuffixDraw, SuffixMutator, SuffixOp,
    TickDraws, TickGuidedMutator, TickMutation,
};

#[test]
fn clamp_reduces_command_bytes() {
    let mut b = vec![9u8, 9, 9, 9, 9, 9, 6, 9, 9, 9, 9, 9, 9, 7, 3];
    TickGuidedMutator::clamp_cmd_bit(&mut b);
    assert_eq!(b, vec![9, 9, 9, 9, 9, 9, 0, 9, 9, 9, 9, 9, 9, 1, 3]);
}

#[test]
fn tick_guided_keeps_length_and_command_bits() {
    let mut rand = StdRand::with_seed(7);
    let mut m = TickGuidedMutator::new();
    for round in 0..200u32 {
        let mut bytes: Vec<u8> = (0..(7 * 5 + 3)).map(|i| (i as u32 * 37 + round) as u8).collect();
        let before = bytes.clone();
        assert_eq!(m.mutate_bytes(&mut rand, &mut bytes), MutationOutcome::Mutated);
        assert_eq!(bytes.len(), before.len());
        for t in 0..5 {
            assert!(bytes[t * 7 + 6] <= 1);
        }
        assert_eq!(&bytes[35..], &before[35..]);
    }
    let mut short = vec![1u8, 2, 3];
    assert_eq!(m.mutate_bytes(&mut rand, &mut short), MutationOutcome::Skipped);
    assert_eq!(short, vec![1, 2, 3]);
}

#[test]
fn suffix_mutator_keeps_the_prefix() {
    let mut rand = StdRand::with_seed(3);
    let mut m = SuffixMutator::new();
    for _ in 0..200 {
        let mut bytes: Vec<u8> = (0..(7 * 20 + 4)).map(|i| (i * 3) as u8).collect();
        let before = bytes.clone();
        assert_eq!(m.mutate_bytes(&mut rand, &mut bytes), MutationOutcome::Mutated);
        assert_eq!(bytes.len(), before.len());
        // At least 70 % of 20 ticks are kept.
        assert_eq!(&bytes[..14 * 7], &before[..14 * 7]);
        assert_eq!(&bytes[140..], &before[140..]);
        // Each later tick is either kept as it was or mutated with its command bit clamped.
        for t in 14..20 {
            assert!(bytes[t * 7 + 6] <= 1 || bytes[t * 7..t * 7 + 7] == before[t * 7..t * 7 + 7]);
        }
    }
    let mut short = vec![5u8; 6];
    assert_eq!(m.mutate_bytes(&mut rand, &mut short), MutationOutcome::Skipped);
}

#[test]
fn phase_slots_by_position() {
    assert_eq!(phase_for_tick(0), 0);
    assert_eq!(phase_for_tick(1), 1);
    assert_eq!(phase_for_tick(25), 1);
    assert_eq!(phase_for_tick(26), 2);
    assert_eq!(phase_for_tick(65), 2);
    assert_eq!(phase_for_tick(66), 4);
    assert_eq!(phase_for_tick(98), 5);
    assert_eq!(phase_for_tick(290), 11);
    assert_eq!(phase_for_tick(10_000), 11);
}

#[test]
fn cem_plans() {
    let mut rand = StdRand::with_seed(42);
    let cem = CemMutator;
    for _ in 0..200 {
        let p = cem.plan(&mut rand, 0);
        assert_eq!(p.keep_bytes, 0);
        assert!(p.ticks.len() >= MIN_TICKS && p.ticks.len() <= MAX_TICKS);
        assert_eq!(p.ticks[0], CemTick::Start);
        assert_eq!(p.ticks[30], CemTick::Sample(2));
    }
    let mut extended = 0;
    for _ in 0..200 {
        let p = cem.plan(&mut rand, 70);
        if p.keep_bytes > 0 {
            extended += 1;
            assert_eq!(p.keep_bytes % 7, 0);
            let kept = p.keep_bytes / 7;
            assert!(kept >= 1 && kept <= 9);
            assert!(kept + p.ticks.len() <= MAX_TICKS);
            for (t, tick) in p.ticks.iter().enumerate() {
                assert_eq!(*tick, CemTick::Sample(phase_for_tick(kept + t)));
            }
        } else {
            assert_eq!(p.ticks[0], CemTick::Start);
        }
    }
    assert!(extended > 0);
}

#[test]
fn elite_byte_counts() {
    let ticks = vec![
        TickRecord { phase: 0, bytes: [1, 2, 3, 4, 5, 6, 7] },
        TickRecord { phase: 0, bytes: [1, 9, 3, 4, 5, 6, 7] },
        TickRecord { phase: 11, bytes: [255, 0, 0, 0, 0, 0, 0] },
    ];
    let c = count_elite_bytes(&ticks);
    assert_eq!(c.counts.len(), 12 * 7 * 256);
    assert_eq!(c.totals.len(), 12 * 7);
    assert_eq!(c.counts[(0 * 7 + 0) * 256 + 1], 2);
    assert_eq!(c.counts[(0 * 7 + 1) * 256 + 2], 1);
    assert_eq!(c.counts[(0 * 7 + 1) * 256 + 9], 1);
    assert_eq!(c.counts[(11 * 7 + 0) * 256 + 255], 1);
    assert_eq!(c.totals[0], 2);
    assert_eq!(c.totals[11 * 7 + 6], 1);
    assert_eq!(c.totals[5], 2);
    assert_eq!(c.counts.iter().map(|x| *x as usize).sum::<usize>(), 3 * 7);
}

#[test]
fn skipped_mutations_draw_nothing() {
    let mut rand = StdRand::with_seed(11);
    let mut twin = rand;
    let mut short = vec![1u8, 2, 3, 4, 5, 6];
    assert_eq!(TickGuidedMutator::new().mutate_bytes(&mut rand, &mut short), MutationOutcome::Skipped);
    assert_eq!(SuffixMutator::new().mutate_bytes(&mut rand, &mut short), MutationOutcome::Skipped);
    assert_eq!(rand.next(), twin.next());
}

#[test]
fn tick_mutations_from_draws() {
    let base: Vec<u8> = vec![41, 52, 58, 66, 97, 130, 3, 10, 10, 10, 10, 10, 10, 2, 9];
    let mut m = TickGuidedMutator { cursor: 3 };
    let mut b = base.clone();
    m.apply_mutation(&mut b, TickMutation::Snap);
    // Cursor 3 of 2 ticks: tick 1 is snapped; all command bytes clamped.
    assert_eq!(b, vec![41, 52, 58, 66, 97, 130, 1, 40, 40, 40, 40, 40, 40, 0, 9]);
    assert_eq!(m.cursor, 4);

    let mut b = base.clone();
    m.apply_mutation(&mut b, TickMutation::ChannelRun { channel: 2, start: 0, window: 2, raw: 73 });
    assert_eq!(b, vec![41, 52, 75, 66, 97, 130, 1, 10, 10, 75, 10, 10, 10, 0, 9]);
    assert_eq!(m.cursor, 4);

    let mut b = base.clone();
    m.apply_mutation(&mut b, TickMutation::Template { tick: 0, template: 2 });
    assert_eq!(b, vec![60, 30, 60, 60, 40, 60, 0, 10, 10, 10, 10, 10, 10, 0, 9]);
}

#[test]
fn suffix_mutation_from_draws() {
    // 10 whole ticks and 2 trailing bytes; 80 % keeps 8 ticks, so the suffix is 14 bytes.
    let base: Vec<u8> = (0..72).map(|i| i as u8).collect();
    let ops = [
        SuffixOp::FlipBit { at: 0, bit: 1 },
        SuffixOp::SetByte { at: 6, value: 200 },
        SuffixOp::AddByte { at: 3, delta: 10 },
        SuffixOp::SubByte { at: 13, delta: 16 },
    ];
    let mut b = base.clone();
    SuffixMutator::apply_mutation(&mut b, 80, &ops);
    let mut expected = base.clone();
    expected[56] ^= 2;
    expected[62] = 200;
    expected[59] = 69;
    expected[69] = 69 - 16;
    expected[62] &= 1;
    expected[69] &= 1;
    assert_eq!(b, expected);
}

#[test]
fn cem_plans_from_draws() {
    let p = CemMutator::plan_from_draws(70, 2, 3, 5, 0);
    assert_eq!(p.keep_bytes, 28);
    assert_eq!(p.ticks, vec![CemTick::Sample(1); 5]);
    let p = CemMutator::plan_from_draws(70, 7, 0, 0, 10);
    assert_eq!(p.keep_bytes, 0);
    assert_eq!(p.ticks.len(), MIN_TICKS + 10);
    assert_eq!(p.ticks[0], CemTick::Start);
    assert_eq!(p.ticks[66], CemTick::Sample(4));
    let p = CemMutator::plan_from_draws(6, 0, 0, 0, 0);
    assert_eq!(p.keep_bytes, 0);
    assert_eq!(p.ticks.len(), MIN_TICKS);
    // A long input keeps at most MAX_TICKS ticks.
    let mut rand = StdRand::with_seed(5);
    for _ in 0..200 {
        let p = CemMutator.plan(&mut rand, 7 * 2000);
        assert!(p.keep_bytes / 7 + p.ticks.len() <= MAX_TICKS);
    }
}

#[test]
fn episodes_are_buffered_until_a_population_is_full() {
    let mut buffer: Vec<u32> = (0..(POPULATION_SIZE as u32 - 2)).collect();
    let mut total = 5usize;
    let mut pending = Some(100u32);
    assert!(!buffer_pending(&mut pending, &mut buffer, &mut total));
    assert_eq!(pending, None);
    assert_eq!(total, 6);
    assert_eq!(buffer.last(), Some(&100));
    assert!(!buffer_pending(&mut pending, &mut buffer, &mut total));
    assert_eq!(total, 6);
    pending = Some(7);
    assert!(buffer_pending(&mut pending, &mut buffer, &mut total));
    assert_eq!(buffer.len(), POPULATION_SIZE);
}

#[test]
fn draws_select_tick_mutations() {
    let d = TickDraws { mode: 0, channel: 0, start: 0, window: 0, value: 0, tick: 0, template: 0 };
    assert_eq!(tick_mutation_from_draws(d), TickMutation::Snap);
    let d = TickDraws { mode: 1, channel: 4, start: 2, window: 5, value: 300, tick: 0, template: 0 };
    assert_eq!(
        tick_mutation_from_draws(d),
        TickMutation::ChannelRun { channel: 4, start: 2, window: 6, raw: 44 }
    );
    let d = TickDraws { mode: 2, channel: 0, start: 0, window: 0, value: 0, tick: 3, template: 1 };
    assert_eq!(tick_mutation_from_draws(d), TickMutation::Template { tick: 3, template: 1 });
}

#[test]
fn draws_select_suffix_operations() {
    let draws = [
        SuffixDraw { at: 4, kind: 0, arg: 7, coin: 0 },
        SuffixDraw { at: 1, kind: 1, arg: 200, coin: 0 },
        SuffixDraw { at: 2, kind: 2, arg: 15, coin: 0 },
        SuffixDraw { at: 3, kind: 2, arg: 0, coin: 1 },
    ];
    let (percent, ops) = suffix_plan_from_draws(12, &draws);
    assert_eq!(percent, 82);
    assert_eq!(
        ops,
        vec![
            SuffixOp::FlipBit { at: 4, bit: 7 },
            SuffixOp::SetByte { at: 1, value: 200 },
            SuffixOp::AddByte { at: 2, delta: 16 },
            SuffixOp::SubByte { at: 3, delta: 1 },
        ]
    );
}
