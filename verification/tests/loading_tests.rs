use voxel_world::chunks::{debug_voxel, generate_debug_voxels, spawn_chunk, ChunkLoader, LoadedChunks};
use voxel_world::voxels::{ChunkStore, GridPos};

#[test]
fn debug_voxel_rule() {
    assert_eq!(debug_voxel(1, 1, 1, true), 1);
    assert_eq!(debug_voxel(0, 5, 7, true), 2);
    assert_eq!(debug_voxel(0, 5, 7, false), 3);
    assert_eq!(debug_voxel(1, 2, 3, false), 3);
    assert_eq!(debug_voxel(3, 7, 15, false), 1);
}

#[test]
fn debug_terrain_holds_everywhere() {
    let v = generate_debug_voxels();
    for x in 0..16usize {
        for y in 0..16usize {
            for z in 0..16usize {
                let id = v[x][y][z];
                if x & y & z == 0 {
                    assert!(id == 2 || id == 3);
                } else {
                    assert_eq!(id, 1);
                }
            }
        }
    }
}

#[test]
fn spawned_chunk_is_marked_for_a_mesh_only() {
    let mut store = ChunkStore::new();
    assert_eq!(spawn_chunk(GridPos::new(4, 5, 6), 9, &mut store), 9);
    let e = store.get(9).unwrap();
    assert_eq!(e.chunk.coord, GridPos::new(4, 5, 6));
    assert!(e.dirty_mesh);
    assert!(!e.dirty_collider);
}

#[test]
fn loader_of_range() {
    let l = ChunkLoader::of_range(5);
    assert_eq!(l.range, 5);
    assert!(l.last_chunk_pos.is_none());
}

#[test]
fn update_loads_the_cube_and_unloads_the_rest() {
    let mut loaded = LoadedChunks::new();
    let mut store = ChunkStore::new();
    let mut loaders = vec![ChunkLoader::of_range(1)];
    let centers = vec![GridPos::new(0, 0, 0)];
    let plan = loaded.plan_update(&mut loaders, &centers);
    assert_eq!(loaders[0].last_chunk_pos, Some(GridPos::new(0, 0, 0)));
    assert_eq!(plan.spawn.len(), 27);
    assert!(plan.despawn.is_empty());
    assert_eq!(plan.spawn[0], GridPos::new(-1, -1, -1));
    let entities: Vec<u64> = (100..127).collect();
    loaded.apply_update(&plan, &entities, &mut store);
    assert_eq!(store.get(100).unwrap().chunk.coord, GridPos::new(-1, -1, -1));

    // move one chunk along x: nine chunks come in, nine go out
    let centers = vec![GridPos::new(1, 0, 0)];
    let plan = loaded.plan_update(&mut loaders, &centers);
    assert_eq!(plan.spawn.len(), 9);
    assert!(plan.spawn.iter().all(|p| p.x == 2));
    assert_eq!(plan.despawn.len(), 9);
    assert!(plan.despawn.iter().all(|(p, e)| p.x == -1 && *e >= 100 && *e < 127));
    let gone: Vec<u64> = plan.despawn.iter().map(|(_, e)| *e).collect();
    let entities: Vec<u64> = (200..209).collect();
    loaded.apply_update(&plan, &entities, &mut store);
    for e in gone {
        assert!(store.get(e).is_none());
    }
    let again = loaded.plan_update(&mut loaders, &centers);
    assert!(again.spawn.is_empty() && again.despawn.is_empty());
}

#[test]
fn overlapping_loaders_spawn_each_chunk_once() {
    let loaded = LoadedChunks::default();
    let mut loaders = vec![ChunkLoader::of_range(1), ChunkLoader::of_range(1), ChunkLoader::of_range(-1)];
    let centers = vec![GridPos::new(0, 0, 0), GridPos::new(1, 0, 0), GridPos::new(9, 9, 9)];
    let plan = loaded.plan_update(&mut loaders, &centers);
    assert_eq!(plan.spawn.len(), 36);
    for a in 0..plan.spawn.len() {
        for b in 0..a {
            assert_ne!(plan.spawn[a], plan.spawn[b]);
        }
    }
    assert_eq!(loaders[2].last_chunk_pos, Some(GridPos::new(9, 9, 9)));
}

#[test]
fn range_zero_loads_the_loader_chunk() {
    let loaded = LoadedChunks::new();
    let mut loaders = vec![ChunkLoader::of_range(0)];
    let centers = vec![GridPos::new(-3, 7, i32::MAX)];
    let plan = loaded.plan_update(&mut loaders, &centers);
    assert_eq!(plan.spawn, vec![GridPos::new(-3, 7, i32::MAX)]);
}

#[test]
fn terrain_follows_the_coins() {
    let mut coins = [[[false; 16]; 16]; 16];
    coins[0][3][5] = true;
    coins[1][1][1] = true;
    let v = voxel_world::chunks::debug_voxels_from_coins(&coins);
    assert_eq!(v[0][3][5], 2);
    assert_eq!(v[0][3][6], 3);
    assert_eq!(v[1][1][1], 1);
    assert_eq!(v[2][4][1], 3);
}
