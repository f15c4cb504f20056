# voxel_world

The logic of a small voxel game, verified with Verus.

- `src/blockdefs.rs`: block definitions (with the defaults a definition file
  may leave out) and the registry that hands out block ids.
- `src/voxels.rs`: grid coordinates, chunks, the chunk map and chunk store,
  and block reads and writes in the world.
  - `src/voxels/meshing.rs`: the render mesh of a chunk (one quad per face
    that no solid neighbour hides).
  - `src/voxels/collision.rs`: the colliding cells of a chunk.
- `src/chunks.rs`: test terrain for new chunks, and which chunks to load and
  unload around chunk loaders.
- `src/player.rs`: input latching between frames and fixed-rate steps.
- `src/entity_map.rs`: the position-to-entity hash map of bevy's platform
  layer, behind trusted wrappers.
- `app/`: the bevy game around the library (rendering, physics, input,
  asset loading, floating-point movement).

Collections:

- The chunk components of the game's entities are kept in `ChunkStore`, a
  vector with at most one entry per entity (a type invariant). An ECS query
  is a system parameter of the game engine, not a collection that verified
  code can call, so the library holds the components that its logic reads.
- The chunks that the loaders want are not gathered into a set: whether a
  chunk is wanted is computed from the loaders' cubes, and the spawn list
  takes each wanted chunk from the first loader that reaches it, so each is
  listed once. The loaded-chunk map itself stays bevy's hash map, behind the
  trusted wrappers of `src/entity_map.rs`.
- Block ids are looked up by scanning the registered definitions for the
  last one with the key, which is what a map from key to last registered id
  answers. A hash map keyed by `String` gives Verus nothing to prove with.
