# permguard_control_plane

The rules of the permguard control plane, written in Verus and proved
against their contracts: how its object store updates refs, how the decision
and event stores accept, keep, page and sweep records, and how refusals are
answered.

- `src/` is the verified library. Each module opens with what it covers;
  the laws that span several functions are public proof functions named
  `law_*`.
- `app/` is ordinary Rust around it: the filesystem, the clock and JSON, which
  hand the library plain values and carry out what it decides.
- `tests/` runs the library on concrete values.
