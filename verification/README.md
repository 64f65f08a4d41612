# comp3931

Procedural plants from L-systems, with the rewriting engine and the logic around it
proved correct with Verus.

## Layout

- `src/` — the verified library
  - `lsystem.rs` — symbols, rules (normal, stochastic, parametric, context-sensitive),
    the parallel rewriting pass and its laws
  - `dice.rs` — seeded random draws for stochastic rules
  - `scenes/` — the classic curves (dragon, Sierpiński, Peano, fractal plant) and the
    scene controller's rebuild decisions
  - `turtle/` — the turtle's recorded path and line geometry, bracket and cut
    handling, and geometry concatenation and index patterns
  - `ecosystem.rs` — self-thinning and competition among overlapping plants
  - `settings.rs`, `state.rs`, `lod.rs`, `fnv.rs`, `world.rs`, `gui.rs`, `plants.rs` —
    calendar and auto-progress, key handling, level-of-detail tiers, FNV-1a hashing,
    and plain state
- `tests/` — tests of the library
- `app/` — a headless run of the viewer: the plant species, the floating-point turtle,
  the ecosystem's placement, camera and level of detail, and a command line

## Running

```sh
comp3931 --scene forest --frames 3
comp3931 --scene garden --keys Right,Right,Up --auto 4 --frames 6 --perf
comp3931 --classic dragon 10
```
