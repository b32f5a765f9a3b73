# forgia

The verified core of the Forgia game, written in Verus.

`src/` is the library, verified by Verus against the contracts stated on its
functions:

- `run_graph`: SplitMix64, the rejection-sampled `roll_range`, the weighted
  draw of stage kinds and the seeded generation of a roguelite run graph
  (fixed floors, distinct branches, no restricted kind offered at two
  depths in a row).
- `rooms`: the room-grid maze: shuffled walls, spanning tree plus extra loops
  (every room reachable; with loops, no room is a dead end), door-width
  parity, interior walls.
- `hashes`, `floor_plan`: stable integer hashes, FNV-1a, floor-tile yaw and
  variant, the content-derived cache key of merged static batches and the
  per-frame handling of a pending merge (stale, cached, waiting, merged).
- `stage`, `layout_verdict`, `streaming`: the per-frame handling of a stage
  request (idempotent spawn, despawn on a change of stage) and sensor verdicts,
  the weighted draw of points of interest, eviction counters and log, the
  generation-time histogram, the cell-manifest shape check.
- `chunk`, `sdf_cache`, `padding_ring`: chunk coordinates and layout, the
  bounded cache of unloaded chunks, the zstd-compressed little-endian storage
  of quantized SDF samples, and the save/restore of a height buffer's border.
- `biomes`, `biome_registry`, `paths`, `collision`, `terrain_shape`,
  `noise_cache`, `damage_arcs`, `config_dir`: biome identities and their
  registry, road tiers, collision groups, genome defaults, the Perlin cache,
  the damage-arc buffer and the walk up to the `config/` directory.
- `navmesh_rebuild`: when the navigation mesh is rebuilt (after one stable
  frame, never while authored pieces are loading) or forgotten.

Calls into `zstd`, `noise`, `std::path` and `str::to_lowercase` go through small trusted wrappers
whose contracts are stated beside them.

`app/` is ordinary Rust around the library: reading genomes (TOML, serde),
the filesystem, and the floating-point geometry and thresholds, which hand
plain values to the library. `tests/` exercises the library.
