# space_rts

The game logic of a real-time space strategy game, written in Verus and
proved against its contracts.

`src/` is the library:

- `ships`: ship types, model identifiers and the model table, build times
  counted in half seconds.
- `build_queue`: a carrier's first-in first-out build queue; the caller owns
  the clock.
- `carrying`: a carrier's hangar of at most 100 ships, priority ships first
  (an `arrayvec::ArrayVec` behind trusted wrappers).
- `bvh_store`, `bvh`: the node links of the dynamic bounding volume
  hierarchy (nodes in a `slab::Slab` behind trusted wrappers): inserting a
  leaf beside a sibling, removing a leaf, the four tree rotations and a
  depth-first walk and a debug listing, with the tree invariant proved for
  each.
- `keyboard`, `mouse`, `controls`: input state machines and the decisions of
  clicks and keys.
- `components`, `ui`: marker types, crew kinds, unit statuses, per-model
  counts, selection panel buttons and text runs.
- `draw`, `mesh`: indirect draw planning, buffer growth, circle index lists,
  the texture table, and index bookkeeping when merging mesh primitives.

`app/` is a program around the library: it opens a window, maps window
input to the library's keys and buttons, keeps the game clock, and holds the
floating-point geometry (bounding boxes, rays, steering, formations, the
surface-area heuristic of the hierarchy).
