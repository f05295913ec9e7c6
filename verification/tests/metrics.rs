use libafl_sandbox::metrics::{basic_metrics, cem_metrics, tick_slot, FillHeadRecord, GreyboxTracker};
use libafl_sandbox::pipeline::PipelineState;

fn state(phase: u32, prime: i32, flux: i32, fill_head: i32) -> PipelineState {
    let mut s = PipelineState::default();
    s.phase = phase;
    s.prime_score = prime;
    s.flux_score = flux;
    s.fill_head = fill_head;
    s
}

#[test]
fn basic_metrics_truncate() {
    assert_eq!(basic_metrics(&state(2, 300, -4, 64)), vec![2, 44, 0, 64]);
}

#[test]
fn cem_metrics_clamp() {
    assert_eq!(cem_metrics(&state(5, 300, -4, 10), 400), vec![3, 255, 0, 255]);
    assert_eq!(cem_metrics(&state(1, 8, 3, 10), 12), vec![1, 8, 3, 12]);
}

#[test]
fn tick_slots() {
    assert_eq!(tick_slot(0, 0), 0);
    assert_eq!(tick_slot(2, 40), 2);
    assert_eq!(tick_slot(9, 40), 3);
    assert_eq!(tick_slot(3, -5), 4);
    assert_eq!(tick_slot(3, 17), 6);
    assert_eq!(tick_slot(3, 64), 11);
}

#[test]
fn fill_head_novelty() {
    let mut r = FillHeadRecord::new();
    assert_eq!(r.observe(0), (false, false));
    assert_eq!(r.observe(5), (true, true));
    assert_eq!(r.observe(5), (false, false));
    assert_eq!(r.observe(3), (true, false));
    assert_eq!(r.observe(9), (true, true));
    assert_eq!(r.observe(-2), (false, false));
}

#[test]
fn greybox_tracker_metrics() {
    let mut t = GreyboxTracker::new();
    let empty = t.metrics();
    assert_eq!(empty.len(), 21);
    assert_eq!(empty[12], 0);
    assert!(empty.iter().all(|b| *b == 0));

    let mut s = state(3, 9, 5, 9);
    s.flow_accum = 7;
    s.press_accum = 6;
    s.temp_accum = 7;
    s.phase_counter = 40;
    s.cycle_count = 100;
    s.pv_sum = 17;
    // fill head 9: zone 1, windows pv [80,110], temp [62,77]; pv = 60 + 25 = 85, temp = 70.
    t.observe(s, &[60, 25, 70, 50, 0, 0, 0]);
    let mut s2 = s;
    s2.fill_head = 3;
    t.observe(s2, &[0, 0, 0, 0, 0, 0, 0]);
    let m = t.metrics();
    assert_eq!(m[0], 3);
    assert_eq!(m[1], 4);
    assert_eq!(m[2], 2);
    assert_eq!(m[3], 9);
    assert_eq!(&m[4..8], &[1, 1, 1, 1]);
    assert_eq!(m[8], 3);
    assert_eq!(m[9], 5);
    assert_eq!(m[10], 6);
    assert_eq!(m[11], 2);
    assert_eq!(m[12], 2);
    assert_eq!(m[14], 225);
    assert_eq!(m[13], 0);
}
