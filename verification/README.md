# hyperpuzzle

The bookkeeping behind a catalog of hypercube puzzles, written in Verus and
proved against its contracts.

- `src/` is the verified library: tags and tag sets, naming schemes and
  automatic names, the twist-system builder (motors as fixed-point
  coefficients), the library of definition files with loading, unloading,
  lookup and the cache of constructed puzzles, building a puzzle by ID with
  redirects and the cache, puzzle IDs of generated puzzles and the redirect-following build
  state machine, scramble parameters and progress, piece builders and the
  catalog listing.
- `tests/` runs the library on concrete values.
- `app/` is the command-line program around it: argument parsing, JSON output
  with serde, error messages, and the shared, locked library.
