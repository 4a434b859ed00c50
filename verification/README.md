# voltra

The decisions of the Voltra 2D engine's editor and physics, as a library whose
contracts are proved by Verus.

- `src/` is the library. Every function in it is verified, and the laws the
  editor and the physics promise — undo and redo put a scene back, a drag is
  one entry, a new edit clears the redo branch, Stop restores the scene the
  first Play took, a pair is the same pair either way round, the layer rule is
  symmetric — are public proof functions beside the code they speak of.
- `tests/` runs the library on concrete scenes.
- `app/` is the editor program: the window, the egui panels, the engine's
  world, and the floating-point geometry of the camera, the gizmo, the
  narrow phase, the solver, the queries and the physics clock. It reads the
  world into the plain values the library works on and carries out what the
  library hands back.

## Maps

The touching pairs, the undo history's records and the impulse cache are
maps keyed by an entity pair, a scene id and a contact key. In `src/` each is
a `Vec` kept in key order with no key twice (`src/sorted.rs`), an invariant
that every operation is proved to keep, and each is read through `to_map` as
a `Map`. vstd's `BTreeMap` and `HashMap` specifications say what a call does
only for keys whose comparison or hash Verus has a specification for; these
keys are structs whose `Ord` and `Hash` are derived, which Verus does not
read, so with them the maps' calls would verify but prove nothing about what
they hold. Re-keying them by integers would change the types the rest of the
library and its callers use, for the sake of the container alone.
