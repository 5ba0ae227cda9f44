# dora-test-utils

A testing utility library for the [DORA](https://dora-rs.ai/) dataflow framework, verified
with Verus.

- `NodeHarness` drives one node in a unit test: it buffers the events that the node is
  created with, and files the outputs that it produces by output ID.
- `run_test_source` emits loaded data on one or more outputs. JSON values are converted to
  Arrow arrays, with a type hint or with the type inferred. A JSON array becomes an array of
  structures with the one field `data`, one for each element.
- `classify_values` and `TrajectoryNode` are the logic of two example nodes.

## Layout

- `src/` is the library. Every function states what it returns or changes, and Verus proves
  it. What the Arrow crates, `serde_json` and `dora-message` do is stated in the contracts of
  a few small functions: in `arrays.rs`, `data_type.rs`, `json.rs`, `data_id.rs` and
  `numerals.rs`.
- `tests/` holds the tests, which run with the real crates.
- `app/` holds the nodes and drivers around the library: what talks to the dora API
  (`dora-node-api` 1.0), reads the environment, sleeps and prints.
