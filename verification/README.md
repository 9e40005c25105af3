# dcs_blocks

Control blocks for a scanned process-control runtime, written and verified in
Verus: analog and digital channels, alarms, gates, edge triggers, counters,
selectors and sums, and the larger machines of a water works (a backwash
sequence, the coordinator that grants it the shared supply, and a blower
group).

A block is a state machine on plain values. A scan hands it what its input
points read and takes back what it drives, in order. Each block has a view;
its constructors, scans, retunes, descriptions and checkpoints are stated over
that view, exactly, with every refusal and the inputs on which it comes.

## Layout

- `src/value.rs`, `src/float.rs`, `src/text.rs`, `src/table.rs`,
  `src/params.rs`, `src/describe.rs`: samples and qualities, doubles as bit
  patterns, names with numbers in them, named values, parameters, and
  descriptions.
- `src/backwash_sequence.rs` with `src/sequence_model.rs` and
  `src/sequence_laws.rs`; `src/backwash_coordinator.rs` with
  `src/coordinator_laws.rs`; `src/blower_group.rs` with `src/blower_model.rs`
  and `src/blower_laws.rs`: the machine, what it is, and what holds of it.
- the other files of `src/`: one block each, with its laws at the end.
- `tests/`: the library run on concrete values.
- `app/`: running the blocks against a point image. It reads the points, does
  the floating-point arithmetic (sums, products and quotients) that the blocks
  ask for, and drives what they write.

## Floating point

The library holds doubles by their bit patterns. It compares, selects and
bounds them, and converts integers to doubles and back; all of that is proved.
Where a block needs a sum, a product or a quotient, a function gives out the
operands and the scan takes the result as an argument, and what the scan does
is proved for every value of it.
