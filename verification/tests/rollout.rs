use libafl_sandbox::rollout::{rollout_states_batch, step_series, RolloutAction, RolloutBatch, RolloutError};

/// A toy PLC: its state is a counter byte and the sum of the inputs seen.
struct ToyPlc {
    state: Vec<u8>,
    fail_set: bool,
    bad_read: bool,
}

impl ToyPlc {
    fn run(&mut self, mut batch: RolloutBatch) -> Result<Vec<u8>, RolloutError> {
        loop {
            match batch.next_action() {
                RolloutAction::SetState(s) => {
                    if self.fail_set {
                        batch.set_state_result(false);
                    } else {
                        self.state = s;
                        batch.set_state_result(true);
                    }
                }
                RolloutAction::Step(input) => {
                    self.state[0] = self.state[0].wrapping_add(1);
                    let sum: u8 = input.iter().fold(0u8, |a, b| a.wrapping_add(*b));
                    self.state[1] = self.state[1].wrapping_add(sum);
                    batch.step_done();
                }
                RolloutAction::ReadState => {
                    if self.bad_read {
                        batch.state_read(&self.state[..1]);
                    } else {
                        let s = self.state.clone();
                        batch.state_read(&s);
                    }
                }
                RolloutAction::Finished => return batch.into_result(),
            }
        }
    }
}

#[test]
fn rollouts_record_every_step_state() {
    let initial = vec![0u8, 0, 10, 100];
    let inputs = vec![1u8, 2, 3, 4, 5, 6];
    let batch = rollout_states_batch(&initial, 2, 2, &inputs, 3, 1).unwrap();
    let mut plc = ToyPlc { state: vec![0, 0], fail_set: false, bad_read: false };
    let out = plc.run(batch).unwrap();
    assert_eq!(out, vec![1, 1, 2, 3, 3, 6, 11, 104, 12, 109, 13, 115]);
}

#[test]
fn rollout_shape_errors() {
    assert_eq!(rollout_states_batch(&[], 1, 0, &[], 1, 1).err(), Some(RolloutError::ZeroStateSize));
    assert_eq!(rollout_states_batch(&[], 1, 1, &[], 1, 0).err(), Some(RolloutError::ZeroInputSize));
    assert_eq!(
        rollout_states_batch(&[], usize::MAX, 2, &[], 1, 1).err(),
        Some(RolloutError::InitialStatesOverflow)
    );
    assert_eq!(
        rollout_states_batch(&[0; 3], 2, 2, &[], 1, 1).err(),
        Some(RolloutError::InitialStatesLength { got: 3, expected: 4, rollouts: 2, state_size: 2 })
    );
    assert_eq!(
        rollout_states_batch(&[0; 2], 2, 1, &[], usize::MAX, 1).err(),
        Some(RolloutError::InputsShapeOverflow)
    );
    assert_eq!(
        rollout_states_batch(&[0; 2], 2, 1, &[], usize::MAX / 4, 3).err(),
        Some(RolloutError::InputsSizeOverflow)
    );
    assert_eq!(
        rollout_states_batch(&[0; 2], 2, 1, &[0; 5], 3, 1).err(),
        Some(RolloutError::InputsLength { got: 5, expected: 6, rollouts: 2, steps: 3, input_size: 1 })
    );
}

#[test]
fn rollout_stops_on_plc_failures() {
    let batch = rollout_states_batch(&[0, 0], 1, 2, &[1, 1], 2, 1).unwrap();
    let mut plc = ToyPlc { state: vec![0, 0], fail_set: true, bad_read: false };
    assert_eq!(plc.run(batch), Err(RolloutError::SetStateFailed { rollout: 0 }));
    let batch = rollout_states_batch(&[0, 0], 1, 2, &[1, 1], 2, 1).unwrap();
    let mut plc = ToyPlc { state: vec![0, 0], fail_set: false, bad_read: true };
    assert_eq!(
        plc.run(batch),
        Err(RolloutError::StateSizeMismatch { rollout: 0, step: 0, got: 1, expected: 2 })
    );
}

#[test]
fn empty_rollouts_finish_at_once() {
    let batch = rollout_states_batch(&[], 0, 4, &[], 5, 2).unwrap();
    assert!(matches!(batch.next_action(), RolloutAction::Finished));
    assert_eq!(batch.into_result(), Ok(vec![]));
    let batch = rollout_states_batch(&[7, 8], 2, 1, &[], 0, 3).unwrap();
    let mut plc = ToyPlc { state: vec![0, 0], fail_set: false, bad_read: false };
    assert_eq!(plc.run(batch), Ok(vec![]));
}

#[test]
fn step_series_splits_whole_steps() {
    let inputs: Vec<u8> = (0..17).collect();
    let steps = step_series(&inputs, 7);
    assert_eq!(steps, vec![(0..7).collect::<Vec<u8>>(), (7..14).collect::<Vec<u8>>()]);
    assert!(step_series(&inputs, 0).is_empty());
    assert_eq!(step_series(&inputs, 17).len(), 1);
    assert!(step_series(&inputs, 18).is_empty());
    assert_eq!(step_series(&[], 3).len(), 0);
}

#[test]
fn batch_needs_one_load_and_two_operations_per_step() {
    let initial = vec![0u8; 4];
    let inputs = vec![1u8; 6];
    let mut batch = rollout_states_batch(&initial, 2, 2, &inputs, 3, 1).unwrap();
    let mut operations = 0;
    loop {
        match batch.next_action() {
            RolloutAction::SetState(_) => batch.set_state_result(true),
            RolloutAction::Step(_) => batch.step_done(),
            RolloutAction::ReadState => batch.state_read(&[5, 6]),
            RolloutAction::Finished => break,
        }
        operations += 1;
    }
    assert_eq!(operations, 2 * (1 + 2 * 3));
    assert_eq!(batch.into_result(), Ok(vec![5, 6, 5, 6, 5, 6, 5, 6, 5, 6, 5, 6]));
}
