//! Batched rollouts of the PLC: starting from each initial state, feed a
//! sequence of step inputs and record the state after every step. The PLC
//! itself is driven by the caller; this module decides what to do next and
//! assembles the output.
use vstd::prelude::*;

verus! {

/// Why a rollout batch was refused or stopped.
#[derive(Debug, Clone, Copy, PartialEq, Eq, Structural)]
pub enum RolloutError {
    ZeroStateSize,
    ZeroInputSize,
    InitialStatesOverflow,
    InitialStatesLength { got: usize, expected: usize, rollouts: usize, state_size: usize },
    InputsShapeOverflow,
    InputsSizeOverflow,
    InputsLength { got: usize, expected: usize, rollouts: usize, steps: usize, input_size: usize },
    OutputSizeOverflow,
    SetStateFailed { rollout: usize },
    StateSizeMismatch { rollout: usize, step: usize, got: usize, expected: usize },
}

/// Where a batch is: which PLC operation it waits for.
#[derive(Debug, Clone, Copy, PartialEq, Eq, Structural)]
pub enum RolloutStage {
    /// Load the initial state of `rollout`.
    SetState { rollout: usize },
    /// Run step `step` of `rollout`.
    Step { rollout: usize, step: usize },
    /// Read the state reached by step `step` of `rollout`.
    Read { rollout: usize, step: usize },
    Done,
    Failed(RolloutError),
}

/// What the caller must do with the PLC next.
pub enum RolloutAction {
    /// Load this state into the PLC and report whether that worked.
    SetState(Vec<u8>),
    /// Run one PLC step on these inputs.
    Step(Vec<u8>),
    /// Read the PLC state and report it.
    ReadState,
    /// Nothing is left to do; collect the result.
    Finished,
}

/// The shape checks of a batch, in the order they are made: the first that fails.
pub open spec fn batch_check(
    states_len: nat,
    num_rollouts: nat,
    state_size: nat,
    inputs_len: nat,
    num_steps: nat,
    input_size: nat,
) -> Option<RolloutError> {
    if state_size == 0 {
        Some(RolloutError::ZeroStateSize)
    } else if input_size == 0 {
        Some(RolloutError::ZeroInputSize)
    } else if num_rollouts * state_size > usize::MAX {
        Some(RolloutError::InitialStatesOverflow)
    } else if states_len != num_rollouts * state_size {
        Some(
            RolloutError::InitialStatesLength {
                got: states_len as usize,
                expected: (num_rollouts * state_size) as usize,
                rollouts: num_rollouts as usize,
                state_size: state_size as usize,
            },
        )
    } else if num_rollouts * num_steps > usize::MAX {
        Some(RolloutError::InputsShapeOverflow)
    } else if num_rollouts * num_steps * input_size > usize::MAX {
        Some(RolloutError::InputsSizeOverflow)
    } else if inputs_len != num_rollouts * num_steps * input_size {
        Some(
            RolloutError::InputsLength {
                got: inputs_len as usize,
                expected: (num_rollouts * num_steps * input_size) as usize,
                rollouts: num_rollouts as usize,
                steps: num_steps as usize,
                input_size: input_size as usize,
            },
        )
    } else if num_rollouts * num_steps * state_size > usize::MAX {
        Some(RolloutError::OutputSizeOverflow)
    } else {
        None
    }
}

/// The byte strings of `parts`, one after another.
pub open spec fn concat_all(parts: Seq<Seq<u8>>) -> Seq<u8>
    decreases parts.len(),
{
    if parts.len() == 0 {
        seq![]
    } else {
        concat_all(parts.drop_last()) + parts.last()
    }
}

/// The stage after the last step of rollout `r` out of `n`.
pub open spec fn after_rollout(r: nat, n: nat) -> RolloutStage {
    if r + 1 < n {
        RolloutStage::SetState { rollout: (r + 1) as usize }
    } else {
        RolloutStage::Done
    }
}

proof fn lemma_slot(a: int, b: int, c: int)
    requires
        0 <= a < b,
        0 <= c,
    ensures
        0 <= a * c,
        a * c + c <= b * c,
        (a + 1) * c == a * c + c,
{
    assert(0 <= a * c) by (nonlinear_arith) requires 0 <= a, 0 <= c;
    assert((a + 1) * c == a * c + c) by (nonlinear_arith);
    assert((a + 1) * c <= b * c) by (nonlinear_arith) requires a + 1 <= b, 0 <= c;
}

proof fn lemma_rollouts_left(left: int, per: int)
    requires
        left >= 1,
        per >= 1,
    ensures
        left * per >= left,
        left * per == (left - 1) * per + per,
        (left - 1) * per >= 0,
{
    assert(left * per >= left) by (nonlinear_arith) requires left >= 1, per >= 1;
    assert(left * per == (left - 1) * per + per) by (nonlinear_arith);
    assert((left - 1) * per >= 0) by (nonlinear_arith) requires left >= 1, per >= 1;
}

proof fn lemma_concat_len(parts: Seq<Seq<u8>>, w: nat)
    requires
        forall|k: int| 0 <= k < parts.len() ==> (#[trigger] parts[k]).len() == w,
    ensures
        concat_all(parts).len() == parts.len() * w,
    decreases parts.len(),
{
    if parts.len() > 0 {
        let p = parts.drop_last();
        assert forall|k: int| 0 <= k < p.len() implies (#[trigger] p[k]).len() == w by {
            assert(p[k] == parts[k]);
        }
        lemma_concat_len(p, w);
        assert(parts.len() * w == p.len() * w + w) by (nonlinear_arith) requires parts.len() == p.len() + 1;
    }
}

/// Where a batch stands: its stage and the states read so far, which change together.
struct Progress {
    stage: RolloutStage,
    observed: Ghost<Seq<Seq<u8>>>,
}

/// A batch of rollouts in progress.
pub struct RolloutBatch {
    initial_states: Vec<u8>,
    inputs: Vec<u8>,
    num_rollouts: usize,
    state_size: usize,
    num_steps: usize,
    input_size: usize,
    out: Vec<u8>,
    progress: Progress,
}

impl RolloutBatch {
    pub closed spec fn stage(&self) -> RolloutStage {
        self.progress.stage
    }

    /// The states read so far, in order.
    pub closed spec fn observed(&self) -> Seq<Seq<u8>> {
        self.progress.observed@
    }

    pub closed spec fn initial_states(&self) -> Seq<u8> {
        self.initial_states@
    }

    pub closed spec fn inputs(&self) -> Seq<u8> {
        self.inputs@
    }

    pub closed spec fn num_rollouts(&self) -> nat {
        self.num_rollouts as nat
    }

    pub closed spec fn state_size(&self) -> nat {
        self.state_size as nat
    }

    pub closed spec fn num_steps(&self) -> nat {
        self.num_steps as nat
    }

    pub closed spec fn input_size(&self) -> nat {
        self.input_size as nat
    }

    /// How many PLC operations the batch still needs: one load per rollout
    /// and a step and a read per step, counted from the current stage. A
    /// finished or failed batch needs none.
    pub closed spec fn pending(&self) -> nat {
        let per = 1 + 2 * (self.num_steps as int);
        let nr = self.num_rollouts as int;
        let ns = self.num_steps as int;
        (match self.progress.stage {
            RolloutStage::SetState { rollout } => (nr - rollout) * per,
            RolloutStage::Step { rollout, step } => (nr - rollout - 1) * per + 2 * (ns - step),
            RolloutStage::Read { rollout, step } => (nr - rollout - 1) * per + 2 * (ns - step) - 1,
            _ => 0,
        }) as nat
    }

    /// The shape passed its checks, the output has room for every state, the
    /// states read so far match the stage, and the output begins with them.
    #[verifier::type_invariant]
    spec fn wf(&self) -> bool {
        let nr = self.num_rollouts as int;
        let ns = self.num_steps as int;
        let ss = self.state_size as int;
        &&& batch_check(
            self.initial_states@.len(),
            self.num_rollouts as nat,
            self.state_size as nat,
            self.inputs@.len(),
            self.num_steps as nat,
            self.input_size as nat,
        ) is None
        &&& self.out@.len() == nr * ns * ss
        &&& forall|k: int| 0 <= k < self.progress.observed@.len() ==> (#[trigger] self.progress.observed@[k]).len() == ss
        &&& match self.progress.stage {
            RolloutStage::SetState { rollout } => rollout < nr && self.progress.observed@.len() == rollout * ns,
            RolloutStage::Step { rollout, step } => rollout < nr && step < ns && self.progress.observed@.len()
                == rollout * ns + step,
            RolloutStage::Read { rollout, step } => rollout < nr && step < ns && self.progress.observed@.len()
                == rollout * ns + step,
            RolloutStage::Done => self.progress.observed@.len() == nr * ns,
            RolloutStage::Failed(_) => true,
        }
        &&& !(self.progress.stage is Failed) ==> self.progress.observed@.len() * ss <= self.out@.len()
            && self.out@.subrange(0, self.progress.observed@.len() * ss) == concat_all(self.progress.observed@)
    }

    /// The PLC operation the batch waits for.
    pub fn next_action(&self) -> (a: RolloutAction)
        ensures
            match self.stage() {
                RolloutStage::SetState { rollout } => a matches RolloutAction::SetState(s) && s@
                    == self.initial_states().subrange(
                    rollout * self.state_size(),
                    (rollout + 1) * self.state_size(),
                ),
                RolloutStage::Step { rollout, step } => a matches RolloutAction::Step(i) && i@
                    == self.inputs().subrange(
                    (rollout * self.num_steps() + step) * self.input_size(),
                    (rollout * self.num_steps() + step + 1) * self.input_size(),
                ),
                RolloutStage::Read { .. } => a is ReadState,
                _ => a is Finished,
            },
            (a is Finished) == (self.pending() == 0),
    {
        proof {
            use_type_invariant(self);
        }
        proof {
            let per = 1 + 2 * (self.num_steps as int);
            match self.progress.stage {
                RolloutStage::SetState { rollout } => {
                    lemma_rollouts_left(self.num_rollouts - rollout, per);
                },
                RolloutStage::Step { rollout, .. } => {
                    lemma_rollouts_left(self.num_rollouts - rollout, per);
                },
                RolloutStage::Read { rollout, .. } => {
                    lemma_rollouts_left(self.num_rollouts - rollout, per);
                },
                _ => {},
            }
        }
        match self.progress.stage {
            RolloutStage::SetState { rollout } => {
                proof {
                    lemma_slot(rollout as int, self.num_rollouts as int, self.state_size as int);
                }
                let start = rollout * self.state_size;
                let end = start + self.state_size;
                RolloutAction::SetState(copy_range(&self.initial_states, start, end))
            },
            RolloutStage::Step { rollout, step } => {
                let ghost nr = self.num_rollouts as int;
                let ghost ns = self.num_steps as int;
                proof {
                    lemma_slot(rollout as int, nr, ns);
                    lemma_slot(rollout * ns + step, nr * ns, self.input_size as int);
                }
                let pos = rollout * self.num_steps + step;
                let start = pos * self.input_size;
                let end = start + self.input_size;
                RolloutAction::Step(copy_range(&self.inputs, start, end))
            },
            RolloutStage::Read { .. } => RolloutAction::ReadState,
            _ => RolloutAction::Finished,
        }
    }

    /// Reports whether loading the initial state worked. A failure stops the batch.
    pub fn set_state_result(&mut self, ok: bool)
        requires
            old(self).stage() is SetState,
        ensures
            final(self).observed() == old(self).observed(),
            final(self).initial_states() == old(self).initial_states(),
            final(self).inputs() == old(self).inputs(),
            final(self).num_rollouts() == old(self).num_rollouts(),
            final(self).num_steps() == old(self).num_steps(),
            final(self).state_size() == old(self).state_size(),
            final(self).input_size() == old(self).input_size(),
            final(self).pending() < old(self).pending(),
            ({
                let r = old(self).stage()->SetState_rollout;
                final(self).stage() == if !ok {
                    RolloutStage::Failed(RolloutError::SetStateFailed { rollout: r })
                } else if old(self).num_steps() > 0 {
                    RolloutStage::Step { rollout: r, step: 0 }
                } else {
                    after_rollout(r as nat, old(self).num_rollouts())
                }
            }),
    {
        proof {
            use_type_invariant(&*self);
        }
        let r = match self.progress.stage {
            RolloutStage::SetState { rollout } => rollout,
            _ => 0,
        };
        proof {
            lemma_rollouts_left(self.num_rollouts - r, 1 + 2 * (self.num_steps as int));
        }
        if !ok {
            self.progress.stage = RolloutStage::Failed(RolloutError::SetStateFailed { rollout: r });
        } else if self.num_steps > 0 {
            self.progress.stage = RolloutStage::Step { rollout: r, step: 0 };
        } else if r + 1 < self.num_rollouts {
            proof {
                assert((r + 1) * 0 == 0);
            }
            self.progress.stage = RolloutStage::SetState { rollout: r + 1 };
        } else {
            proof {
                assert(self.num_rollouts as int * 0 == 0);
            }
            self.progress.stage = RolloutStage::Done;
        }
    }

    /// Reports that the PLC ran the step.
    pub fn step_done(&mut self)
        requires
            old(self).stage() is Step,
        ensures
            final(self).observed() == old(self).observed(),
            final(self).initial_states() == old(self).initial_states(),
            final(self).inputs() == old(self).inputs(),
            final(self).num_rollouts() == old(self).num_rollouts(),
            final(self).num_steps() == old(self).num_steps(),
            final(self).state_size() == old(self).state_size(),
            final(self).input_size() == old(self).input_size(),
            final(self).pending() < old(self).pending(),
            final(self).stage() == (RolloutStage::Read {
                rollout: old(self).stage()->Step_rollout,
                step: old(self).stage()->Step_step,
            }),
    {
        proof {
            use_type_invariant(&*self);
        }
        if let RolloutStage::Step { rollout, step } = self.progress.stage {
            self.progress.stage = RolloutStage::Read { rollout, step };
        }
    }

    /// Reports the state read after a step. A state of the wrong size stops
    /// the batch; otherwise it is recorded in the output.
    pub fn state_read(&mut self, state: &[u8])
        requires
            old(self).stage() is Read,
        ensures
            final(self).initial_states() == old(self).initial_states(),
            final(self).inputs() == old(self).inputs(),
            final(self).num_rollouts() == old(self).num_rollouts(),
            final(self).num_steps() == old(self).num_steps(),
            final(self).state_size() == old(self).state_size(),
            final(self).input_size() == old(self).input_size(),
            final(self).pending() < old(self).pending(),
            ({
                let r = old(self).stage()->Read_rollout;
                let s = old(self).stage()->Read_step;
                if state@.len() != old(self).state_size() {
                    &&& final(self).stage() == RolloutStage::Failed(
                        RolloutError::StateSizeMismatch {
                            rollout: r,
                            step: s,
                            got: state@.len() as usize,
                            expected: old(self).state_size() as usize,
                        },
                    )
                    &&& final(self).observed() == old(self).observed()
                } else {
                    &&& final(self).observed() == old(self).observed().push(state@)
                    &&& final(self).stage() == if s + 1 < old(self).num_steps() {
                        RolloutStage::Step { rollout: r, step: (s + 1) as usize }
                    } else {
                        after_rollout(r as nat, old(self).num_rollouts())
                    }
                }
            }),
    {
        proof {
            use_type_invariant(&*self);
        }
        let (r, s) = match self.progress.stage {
            RolloutStage::Read { rollout, step } => (rollout, step),
            _ => (0, 0),
        };
        proof {
            lemma_rollouts_left(self.num_rollouts - r, 1 + 2 * (self.num_steps as int));
        }
        if state.len() != self.state_size {
            self.progress.stage = RolloutStage::Failed(
                RolloutError::StateSizeMismatch { rollout: r, step: s, got: state.len(), expected: self.state_size },
            );
            return;
        }
        let ghost nr = self.num_rollouts as int;
        let ghost ns = self.num_steps as int;
        let ghost ss = self.state_size as int;
        let ghost prev_obs = self.progress.observed@;
        proof {
            lemma_slot(r as int, nr, ns);
            lemma_slot(r * ns + s, nr * ns, ss);
        }
        let pos = r * self.num_steps + s;
        let start = pos * self.state_size;
        proof {
            assert(start == prev_obs.len() * ss);
        }
        write_at(&mut self.out, start, state, state.len());
        let ghost obs = prev_obs.push(state@);
        proof {
            assert(obs.drop_last() =~= prev_obs);
            assert(self.out@.subrange(0, start + ss) =~= self.out@.subrange(0, start as int) + state@);
            assert(start + ss == obs.len() * ss) by (nonlinear_arith)
                requires start == prev_obs.len() * ss, obs.len() == prev_obs.len() + 1;
            assert forall|j: int| 0 <= j < obs.len() implies (#[trigger] obs[j]).len() == ss by {
                if j < prev_obs.len() {
                    assert(obs[j] == prev_obs[j]);
                }
            }
        }
        let next = if s + 1 < self.num_steps {
            RolloutStage::Step { rollout: r, step: s + 1 }
        } else if r + 1 < self.num_rollouts {
            proof {
                assert((r + 1) * ns == r * ns + ns) by (nonlinear_arith);
            }
            RolloutStage::SetState { rollout: r + 1 }
        } else {
            proof {
                assert(nr * ns == r * ns + ns) by (nonlinear_arith) requires r + 1 == nr;
            }
            RolloutStage::Done
        };
        self.progress = Progress { stage: next, observed: Ghost(obs) };
    }

    /// The result of a finished batch: every state read, rollout after
    /// rollout and step after step, or the error that stopped it.
    pub fn into_result(self) -> (r: Result<Vec<u8>, RolloutError>)
        requires
            self.stage() is Done || self.stage() is Failed,
        ensures
            match self.stage() {
                RolloutStage::Failed(e) => r == Err::<Vec<u8>, RolloutError>(e),
                _ => r matches Ok(out) && out@ == concat_all(self.observed()) && self.observed().len()
                    == self.num_rollouts() * self.num_steps() && out@.len() == self.num_rollouts()
                    * self.num_steps() * self.state_size(),
            },
    {
        proof {
            use_type_invariant(&self);
        }
        match self.progress.stage {
            RolloutStage::Failed(e) => Err(e),
            _ => {
                proof {
                    let nr = self.num_rollouts as int;
                    let ns = self.num_steps as int;
                    let ss = self.state_size as int;
                    assert(nr * ns * ss == (nr * ns) * ss);
                    assert(self.out@.subrange(0, self.out@.len() as int) =~= self.out@);
                }
                Ok(self.out)
            },
        }
    }
}

fn write_at(out: &mut Vec<u8>, start: usize, bytes: &[u8], len: usize)
    requires
        len == bytes@.len(),
        start + bytes@.len() <= old(out)@.len(),
    ensures
        final(out)@ == old(out)@.subrange(0, start as int) + bytes@ + old(out)@.subrange(
            start + bytes@.len(),
            old(out)@.len() as int,
        ),
        final(out)@.len() == old(out)@.len(),
        final(out)@.subrange(0, start as int) == old(out)@.subrange(0, start as int),
    no_unwind
{
    let ghost prev = out@;
    let n = out.len();
    let mut k: usize = 0;
    while k < len
        invariant
            out@.len() == prev.len(),
            prev.len() == n,
            len == bytes@.len(),
            start + bytes@.len() <= prev.len(),
            0 <= k <= bytes@.len(),
            forall|j: int| 0 <= j < start ==> out@[j] == prev[j],
            forall|j: int| start + bytes@.len() <= j < prev.len() ==> out@[j] == prev[j],
            forall|j: int| 0 <= j < k ==> out@[start + j] == #[trigger] bytes@[j],
        decreases bytes@.len() - k,
    {
        out[start + k] = bytes[k];
        k = k + 1;
    }
    assert(out@ =~= prev.subrange(0, start as int) + bytes@ + prev.subrange(start + bytes@.len(), prev.len() as int));
    assert(out@.subrange(0, start as int) =~= prev.subrange(0, start as int));
}

fn copy_range(v: &Vec<u8>, start: usize, end: usize) -> (r: Vec<u8>)
    requires
        start <= end <= v@.len(),
    ensures
        r@ == v@.subrange(start as int, end as int),
{
    let mut r: Vec<u8> = Vec::new();
    let mut i: usize = start;
    while i < end
        invariant
            start <= i <= end <= v@.len(),
            r@ =~= v@.subrange(start as int, i as int),
        decreases end - i,
    {
        r.push(v[i]);
        i = i + 1;
    }
    r
}

fn copy_slice(v: &[u8]) -> (r: Vec<u8>)
    ensures
        r@ == v@,
{
    let mut r: Vec<u8> = Vec::new();
    let mut i: usize = 0;
    while i < v.len()
        invariant
            0 <= i <= v@.len(),
            r@ =~= v@.subrange(0, i as int),
        decreases v@.len() - i,
    {
        r.push(v[i]);
        i = i + 1;
    }
    assert(v@.subrange(0, i as int) =~= v@);
    r
}

/// Checks the shape of a rollout batch and, when it is consistent, starts it:
/// `num_rollouts` initial states of `state_size` bytes each, and for each
/// rollout `num_steps` step inputs of `input_size` bytes each.
pub fn rollout_states_batch(
    initial_states_flat: &[u8],
    num_rollouts: usize,
    state_size: usize,
    inputs_flat: &[u8],
    num_steps: usize,
    input_size: usize,
) -> (r: Result<RolloutBatch, RolloutError>)
    ensures
        match batch_check(
            initial_states_flat@.len(),
            num_rollouts as nat,
            state_size as nat,
            inputs_flat@.len(),
            num_steps as nat,
            input_size as nat,
        ) {
            Some(e) => r matches Err(e2) && e2 == e,
            None => r matches Ok(b) && {
                &&& b.initial_states() == initial_states_flat@
                &&& b.inputs() == inputs_flat@
                &&& b.num_rollouts() == num_rollouts
                &&& b.state_size() == state_size
                &&& b.num_steps() == num_steps
                &&& b.input_size() == input_size
                &&& b.observed() == Seq::<Seq<u8>>::empty()
                &&& b.pending() == num_rollouts * (1 + 2 * num_steps)
                &&& b.stage() == if num_rollouts > 0 {
                    RolloutStage::SetState { rollout: 0 }
                } else {
                    RolloutStage::Done
                }
            },
        },
{
    if state_size == 0 {
        return Err(RolloutError::ZeroStateSize);
    }
    if input_size == 0 {
        return Err(RolloutError::ZeroInputSize);
    }
    let expected_states_len = match num_rollouts.checked_mul(state_size) {
        Some(n) => n,
        None => {
            return Err(RolloutError::InitialStatesOverflow);
        },
    };
    if initial_states_flat.len() != expected_states_len {
        return Err(
            RolloutError::InitialStatesLength {
                got: initial_states_flat.len(),
                expected: expected_states_len,
                rollouts: num_rollouts,
                state_size,
            },
        );
    }
    let steps_total = match num_rollouts.checked_mul(num_steps) {
        Some(n) => n,
        None => {
            return Err(RolloutError::InputsShapeOverflow);
        },
    };
    let expected_inputs_len = match steps_total.checked_mul(input_size) {
        Some(n) => n,
        None => {
            return Err(RolloutError::InputsSizeOverflow);
        },
    };
    if inputs_flat.len() != expected_inputs_len {
        return Err(
            RolloutError::InputsLength {
                got: inputs_flat.len(),
                expected: expected_inputs_len,
                rollouts: num_rollouts,
                steps: num_steps,
                input_size,
            },
        );
    }
    let output_len = match steps_total.checked_mul(state_size) {
        Some(n) => n,
        None => {
            return Err(RolloutError::OutputSizeOverflow);
        },
    };
    let out: Vec<u8> = vec![0u8; output_len];
    let stage = if num_rollouts > 0 {
        RolloutStage::SetState { rollout: 0 }
    } else {
        RolloutStage::Done
    };
    proof {
        assert(out@.subrange(0, 0) =~= Seq::<u8>::empty());
        assert(0 * (num_steps as int) == 0);
        assert(0 * (state_size as int) == 0);
        assert((num_rollouts as int - 0) * (1 + 2 * (num_steps as int)) == num_rollouts * (1 + 2
            * num_steps));
        assert(0 * (1 + 2 * (num_steps as int)) == 0);
    }
    let initial_states = copy_slice(initial_states_flat);
    let inputs = copy_slice(inputs_flat);
    let b = RolloutBatch {
        initial_states,
        inputs,
        num_rollouts,
        state_size,
        num_steps,
        input_size,
        out,
        progress: Progress { stage, observed: Ghost(Seq::empty()) },
    };
    Ok(b)
}

pub open spec fn views(parts: Seq<Vec<u8>>) -> Seq<Seq<u8>> {
    parts.map_values(|p: Vec<u8>| p@)
}

/// Splits `inputs` into the consecutive steps of `bytes_per_step` bytes each
/// that the PLC is fed one after another; a trailing partial step is dropped,
/// and a step width of 0 yields no steps.
pub fn step_series(inputs: &[u8], bytes_per_step: usize) -> (steps: Vec<Vec<u8>>)
    ensures
        bytes_per_step == 0 ==> steps@.len() == 0,
        bytes_per_step > 0 ==> steps@.len() == inputs@.len() as int / (bytes_per_step as int),
        forall|i: int|
            0 <= i < steps@.len() ==> (#[trigger] steps@[i])@ == inputs@.subrange(
                i * bytes_per_step,
                (i + 1) * bytes_per_step,
            ),
        bytes_per_step > 0 ==> concat_all(views(steps@)) == inputs@.subrange(
            0,
            inputs@.len() - inputs@.len() as int % (bytes_per_step as int),
        ),
{
    let mut steps: Vec<Vec<u8>> = Vec::new();
    if bytes_per_step == 0 {
        return steps;
    }
    let bps = bytes_per_step;
    let n = inputs.len();
    let mut offset: usize = 0;
    assert(views(steps@) =~= Seq::<Seq<u8>>::empty());
    assert(inputs@.subrange(0, 0) =~= Seq::<u8>::empty());
    while bps <= n - offset
        invariant
            bps > 0,
            n == inputs@.len(),
            offset <= n,
            offset == steps@.len() * bps,
            forall|i: int|
                0 <= i < steps@.len() ==> (#[trigger] steps@[i])@ == inputs@.subrange(i * bps, (i + 1) * bps),
            concat_all(views(steps@)) == inputs@.subrange(0, offset as int),
        decreases n - offset,
    {
        let ghost prev = steps@;
        let chunk = copy_slice_range(inputs, offset, offset + bps);
        steps.push(chunk);
        proof {
            assert(views(steps@).drop_last() =~= views(prev));
            assert(views(steps@).last() == chunk@);
            assert(inputs@.subrange(0, offset + bps) =~= inputs@.subrange(0, offset as int) + chunk@);
            assert((prev.len() + 1) * bps == prev.len() * bps + bps) by (nonlinear_arith);
            assert forall|i: int| 0 <= i < steps@.len() implies (#[trigger] steps@[i])@ == inputs@.subrange(
                i * bps,
                (i + 1) * bps,
            ) by {
                if i < prev.len() {
                    assert(steps@[i] == prev[i]);
                }
            }
        }
        offset = offset + bps;
    }
    proof {
        let k = steps@.len() as int;
        assert(n as int / (bps as int) == k && n as int % (bps as int) == n - offset) by (nonlinear_arith)
            requires
                offset == k * bps,
                offset <= n,
                n - offset < bps,
                bps > 0,
                k >= 0,
        {
            vstd::arithmetic::div_mod::lemma_fundamental_div_mod_converse(n as int, bps as int, k, n - offset);
        }
    }
    steps
}

fn copy_slice_range(v: &[u8], start: usize, end: usize) -> (r: Vec<u8>)
    requires
        start <= end <= v@.len(),
    ensures
        r@ == v@.subrange(start as int, end as int),
{
    let mut r: Vec<u8> = Vec::new();
    let mut i: usize = start;
    while i < end
        invariant
            start <= i <= end <= v@.len(),
            r@ =~= v@.subrange(start as int, i as int),
        decreases end - i,
    {
        r.push(v[i]);
        i = i + 1;
    }
    r
}

} // verus!
