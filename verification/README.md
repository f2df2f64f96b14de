# korec stage0, verified front end

The front end of `korec`, the stage0 compiler of the Kore language, written
in Verus: the functions under `src/` carry contracts that Verus proves,
but for the few wrappers around std that the code marks as trusted.

## Layout

- `src/diag.rs`: source spans, diagnostics and the sink that collects them.
- `src/text.rs`: string helpers (comparison, concatenation, decimal
  rendering, UTF-8 access) shared by the passes.
- `src/frontend/lexer`: bytes to tokens; the token stream is specified
  completely by a spec function over the source bytes.
- `src/frontend/parser`: tokens to syntax tree, with error recovery that
  always makes progress.
- `src/frontend/ast`: the syntax tree, its printer (balanced
  S-expressions) and the visitor that walks it; a pass that keeps a record
  of what it was handed learns from the `walk_*` functions that they hand
  on every part of a node, in preorder.
- `src/frontend/resolve`: symbol table, scope stack, module registry with
  cycle detection and topological order, `use` path resolution, and the
  two-pass name resolver; `names.rs` states which names the second pass
  reports as undefined.
- `src/frontend/typecheck`: types, the type context and the checker;
  `typing.rs` gives the type of every expression, and the codes and
  positions of the errors checking it reports, as spec functions.
- `src/frontend/escape`: the move and borrow-escape checker; `rules.rs`
  gives the bindings and errors of every expression as spec functions.
- `src/frontend/counters.rs`: deterministic work counters.
- `src/cli.rs`: the command line and helpers of the driver.
- `src/ice.rs`: fixed-capacity internal-error reports.
- `app/`: the `korec` program around the library (arguments, files,
  rendering of diagnostics) and the compile-time evaluator, which works on
  floating-point values.
- `tests/`: tests of the library.
