# libafl_sandbox

A fuzzing sandbox for PLC programs, built on LibAFL. The PLC target is a C
program behind a small C interface (`plc_*` functions); the fuzzers drive it
tick by tick, where a tick is one scan cycle fed a fixed number of input
bytes.

The library under `src/` is verified with Verus:

- `vars`, `names`, `table`: typed PLC variables inside a raw state snapshot,
  their little-endian codec, display names, and bulk reads and writes by name.
- `rollout`: batched rollouts of the PLC as a state machine that tells the
  caller which PLC operation comes next, and the splitting of tick series.
- `pipeline`: the pipeline target's state record, tick sequences and seeds.
- `scoring`, `metrics`: the fill-zone scores and progress metrics that feed
  the fuzzers' feedback maps.
- `mutators`, `cem`: the tick-aware mutators and the integer side of the
  cross-entropy fuzzer (episode plans, tick attribution, elite byte counts).

`app/` holds the program: the C bindings of the target, the LibAFL fuzzing
loops, the Python bindings, and the floating-point parts of the
cross-entropy fuzzer.
