# know_rust

know_rust characterizes a Rust workspace (its crates, items, uses and usage
sites) and renders an orientation document and a reference index for an agent
that is about to author code against the workspace.

The library under `src/` is written in Verus: its functions carry contracts
over a mathematical model (sequences of characters for text, `Seq`s and
`Map`s for tables) and are proved against them. The calls into outside crates
(`indexmap`, `regex`, `liquid`, and a few `std` functions Verus has no
specification for) stand behind small trusted wrappers whose contracts say
only what the outside source shows: a liquid render, for one, is held to
templates without filters or tags and its text is named, not written out.
The main areas:

- reading and resolving uses: `use_tree` (the `use` path grammar),
  `resolution` (import bindings, crate vocabulary, origin resolution, facade
  re-exports), `modules` (module chains and the visibility index),
  `adopt` and `adopt_roots` (the lock file and the foreign roots the
  workspace adopts through `pub use`);
- measuring patterns: `items_index` (facts bucketed by file), `metrics`,
  `synthesis`, `grouping`, `pattern_metrics`, `usage`, `histogram`,
  `use_class`, `sloc`;
- the picker's integer stages: `ballots` (per-crate ballots), `pick_caps`
  (per-crate pools, per-group caps, consumer demand sites);
- rendering: `reference`, `routing`, `orientation`, `orientation_doc` (the
  assembled orientation document and its liquid prompts), `seams`,
  `instances`, `vocabulary`, `foreign`, `emit_text`;
- consumer demand: `demand`, `demand_tiers`, `weights`, `overlap`;
- shared models: `pattern`, `picks`, `config`, `text`, `lexical`,
  `stable_order`, `sorting`, `assoc`, `numfmt`.

`app/` is the command-line program: it reads `fingerprint.json` and
`facts.json` and the prompt texts, formats the values that arrive as floats,
and writes `orientation.md` and `reference.md` through the library; its
`adopted` command reads `Cargo.lock` and the registry checkouts and writes
`know_rust_adopted.json`.

## What is not here

- Commands: only `emit` and `adopted` exist. `characterize`, `scan`, `measure-overlap`,
  `measure-demand` and `rustdoc-overlay` are absent: the source scanners and
  the fact types they fill are not part of this tree, and their work is file,
  process and network I/O.
- `emit` needs `-c <calibration.toml>`: there is no built-in calibration,
  because the tuned default calibration file is not part of this tree.
- Orientation sections: the significance-set pick lists (S5) and the
  use-tier guidance printed inside them are not rendered; the picker's float
  scoring and its single-transferable-vote election are not implemented. The integer stages
  (ballots, pools, caps) are in `ballots` and `pick_caps`.
- Demand tracing: the classification of demanded names and pairs is in
  `demand_tiers`; the trace that collects them from a consumer's uses is not,
  since the consumer's item and usage fact types are not part of this tree.
