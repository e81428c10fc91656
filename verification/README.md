# rusterix

The verified core of a tile-based software renderer and retro game engine.

- `src/` is the library, written in Verus: every function carries a contract
  that Verus proves. It holds the map model (vertices, linedefs, sectors,
  selection, deletion, copy and paste), terrain cells and their meshes, the
  chunk build schedule, integer line rasterization and screen tiling, entity
  inventories, named attributes and the updates that keep copies in sync,
  items and their updates, the vertex animation state machine, the
  configuration read from TOML, and parts of the region's script host: the
  host calls that change region state (`action`, `id`, `notify_in`,
  `set_proximity_tracking`, `take`, `deal_damage`, `random`), taking damage
  and dying, the region settings and startup events, due notifications
  (skipping dead entities), waking sleeping entities, collecting entity and
  item updates, and running each queued script command at most once per
  event and tick.
  Laws that relate several operations are public proof functions.
- `tests/` runs the library on concrete values.
- `app/` is plain Rust around the library: floating point geometry, the wire
  format of entity updates, the region's tick loop around a script runtime,
  and the server's message loop.
