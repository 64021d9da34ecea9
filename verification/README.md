# argumentation-suite

Abstract (Dung), bipolar, value-based and weighted bipolar argumentation,
with a catalogue of Walton argumentation schemes, written in Verus. The
functions of the library carry contracts that Verus proves, except two
trusted wrappers whose contracts are taken from the documentation of the
code they call: `strongly_connected` (petgraph's `tarjan_scc`, in
`src/bipolar/coalition.rs`) and `to_lowercase` (`str::to_lowercase`, in
`src/schemes/scheme.rs`).

Building scheme instances into ASPIC+ structured systems
(`add_scheme_to_system`, `add_counter_argument`) is not part of this
library: it needs the structured systems of the `argumentation` crate,
which this library does not depend on.

## Layout

- `src/dung.rs`, `src/extensions.rs`, `src/matrix.rs` — Dung frameworks and
  their grounded, complete, preferred and stable extensions.
- `src/bipolar/` — attack and necessary-support frameworks: derived
  attacks, flattening, support-closed extensions, coalitions (strongly
  connected components of the support graph, computed by `petgraph`) and
  reachability queries.
- `src/values/` — values, audiences, Pareto defeat, acceptance for one
  audience, for every audience ordering and for groups of audiences; the
  APX text format; value promotions read off scheme instances.
- `src/weighted.rs` — the arguments and edges of a weighted framework
  (the weights stay with the caller), subsets of edges, residual
  frameworks and acceptance over them.
- `src/schemes/` — schemes, critical questions, bindings, instantiation,
  the catalogue and its registry, and the AIF graph of an instance.
- `src/playground.rs` — the Dung interface of the documentation playground.
- `src/order.rs`, `src/strings.rs`, `src/text.rs` — string order, sorting,
  and character-level text operations.
- `app/` — what stays outside the verified library: AIFdb JSON (serde),
  weights and budgets (floating point) and the WebAssembly bindings.
- `tests/` — the test suite.

The laws of the library are public proof functions whose names begin with
`law_`.
