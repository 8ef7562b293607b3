# swiftlight_compiler

The verified core of the SwiftLight compiler, written in Verus.

- `src/module/` — module identifiers and the module dependency graph:
  cycle detection, topological order (dependencies first), reachability.
- `src/optimization.rs` — pass identities and results, the pipeline
  configuration, pass scheduling, and the manager that runs AST and IR
  passes until nothing changes.
- `src/middleend/ir/representation.rs` — the IR type system: layout
  (size and alignment), free type variables, substitution, unification and
  the textual form of types.
- `src/middleend/optimization/` — the middle end's pass selection by
  optimisation level, and loop facts used by vectorisation.
- `src/middleend/concurrent/` — runtime channels (FIFO buffers with
  capacity and closing), the future map (states, results, dependencies,
  cancellation) and the records of the concurrency analysis.
- `src/name_table.rs` — tables keyed by name, where a later insertion
  replaces an earlier one.

Verus verifies every function of the library; those that compute
something carry a contract that says what (the constructors of the unit
pass types have nothing to state). The laws that relate several functions
are public proof functions next to them. The tests under `tests/` run the
library on concrete values.
