use libafl_sandbox::pipeline::{
    append_ticks, bootstrap_phase_seeds, bootstrap_seeds, smoke_sequence, PipelineState, PIPELINE_STATE_SIZE,
};

#[test]
fn append_ticks_repeats_the_tick() {
    let mut buf = vec![9u8];
    append_ticks(&mut buf, 2, 1, 2, 3, 4, 5, 6, 7);
    assert_eq!(buf, vec![9, 1, 2, 3, 4, 5, 6, 7, 1, 2, 3, 4, 5, 6, 7]);
    append_ticks(&mut buf, 0, 1, 1, 1, 1, 1, 1, 1);
    assert_eq!(buf.len(), 15);
}

#[test]
fn greybox_seeds() {
    let seeds = bootstrap_phase_seeds();
    assert_eq!(seeds.len(), 3);
    assert_eq!(seeds[0], vec![0, 0, 0, 0, 0, 0, 1]);
    assert_eq!(seeds[1].len(), 25 * 7);
    assert_eq!(&seeds[1][7..14], &[60, 30, 0, 60, 0, 0, 0]);
    assert_eq!(seeds[2].len(), (1 + 24 + 12 + 16) * 7);
    assert_eq!(&seeds[2][seeds[2].len() - 7..], &[60, 20, 60, 50, 0, 0, 0]);
}

#[test]
fn cem_seeds_cover_the_whole_pipeline() {
    let seeds = bootstrap_seeds();
    assert_eq!(seeds.len(), 4);
    assert_eq!(seeds[2].len(), (1 + 24 + 12 + 35) * 7);
    let full = &seeds[3];
    assert_eq!(full.len(), (37 + 35 + 32 * 6 + 33) * 7);
    assert_eq!(&full[37 * 7..38 * 7], &[60, 20, 60, 50, 0, 0, 0]);
    assert_eq!(&full[(37 + 35) * 7..(37 + 36) * 7], &[80, 20, 70, 50, 0, 0, 0]);
    assert_eq!(&full[full.len() - 7..], &[70, 20, 70, 50, 0, 0, 0]);
}

#[test]
fn smoke_sequence_layout() {
    let seq = smoke_sequence();
    assert_eq!(seq.len() / 7, 37 + 35 + 32 * 6 + 35);
    assert_eq!(seq.len() % 7, 0);
    assert_eq!(&seq[..7], &[0, 0, 0, 0, 0, 0, 1]);
    assert_eq!(&seq[seq.len() - 7..], &[70, 20, 70, 50, 0, 0, 0]);
}

#[test]
fn state_image_decodes_fields() {
    let mut img = vec![0u8; PIPELINE_STATE_SIZE];
    img[0] = 3;
    img[12..16].copy_from_slice(&8i32.to_le_bytes());
    img[36..40].copy_from_slice(&(-1i32).to_le_bytes());
    img[40 + 4 * 63..44 + 4 * 63].copy_from_slice(&123456i32.to_le_bytes());
    img[296..300].copy_from_slice(&(-77i32).to_le_bytes());
    img[300] = 0xFE;
    let s = PipelineState::from_bytes(&img);
    assert_eq!(s.phase, 3);
    assert_eq!(s.prime_score, 8);
    assert_eq!(s.fill_head, -1);
    assert_eq!(s.buffer[63], 123456);
    assert_eq!(s.pv_sum, -77);
    assert_eq!(s.status, -2);
    let short = PipelineState::from_bytes(&[5, 0, 0, 0, 9]);
    assert_eq!(short.phase, 5);
    assert_eq!(short.cycle_count, 9);
    assert_eq!(short.fill_head, 0);
    let z = PipelineState::default();
    assert_eq!(z.phase, 0);
    assert_eq!(z.buffer, [0; 64]);
}
