# lau-blueprint

A voxel building-plan library: materials, blueprints made of positioned and rotated
blocks, a library of named blueprints with search and fork, structural validation
(foundation, size limit, connectivity to the ground, material warnings) and five
ready-made blueprints. The library is written in Verus and its behaviour is stated in
contracts that Verus proves.

Layout:

- `src/material.rs` — materials and their per-block cost in tenths.
- `src/blueprint.rs` — blocks, blueprints, bounding box, position sums, material counts.
- `src/connectivity.rs` — occupied positions, face adjacency, ground walks, and the
  breadth-first search that finds every position connected to the ground.
- `src/validator.rs` — the validation rules and their messages.
- `src/library.rs` — the name-keyed blueprint library.
- `src/prebuilt.rs` — the ready-made blueprints.
- `src/text.rs` — decimal text and ASCII case folding.
- `src/laws.rs` — properties of the library as a whole.
- `app/lib.rs` — float-valued measures (vibe cost, center of mass) and serde records.
- `tests/` — tests of the compiled library.
