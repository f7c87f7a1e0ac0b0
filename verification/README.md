# forge3d

The scene-evaluation core of Forge3D, written in Verus and proved against
its contracts.

## Layout

- `src/` — the verified library.
  - `depsgraph/` — the dependency graph: building nodes and relations,
    Kahn ordering with depths, dirty-tag propagation, sequential evaluation
    and the level-by-level decisions of parallel evaluation.
  - `dna/` — runtime type information: schemas, dynamic values, property
    paths, the schema registry and schema migrations.
  - `drivers/` — driver descriptions and the expression lexer and parser.
  - `geonodes/` — geometry node graphs: sockets, nodes, links, the
    smallest-id-first topological order and the pass-through evaluator.
  - `constraints/` — constraint targets, axis flags and mode enums.
  - `index_map.rs`, `ahash_map.rs`, `text.rs` — the outside collections as
    Verus sees them, and string helpers.
- `app/` — plain Rust around the library: floating-point evaluation of
  constraints and driver expressions, the rayon-based parallel scheduler,
  the process-wide schema registry, and error types with `Display`.
- `tests/` — tests of the library.

Floating-point payloads are kept in the library as their bit patterns
(`f64::to_bits` / `f32::to_bits`); `app/numeric.rs` reads them as numbers.
