use voxel_world::blockdefs::{BlockDefinition, BlockRegistry, UvRect};
use voxel_world::voxels::collision::{generate_chunk_collider, solid_voxels};
use voxel_world::voxels::meshing::{build_mesh, generate_voxel_face, is_solid, VoxelFace};
use voxel_world::voxels::{
    block_to_chunk, block_to_chunk_local, generate_chunk_mesh, chunk_to_block, spawn_chunk, Chunk, ChunkEntry, ChunkMap,
    ChunkStore, GridPos, VoxelData, VoxelWorld,
};

fn def(key: &str, empty: bool, transparent: bool, solid: bool, uv: UvRect) -> BlockDefinition {
    let mut d = BlockDefinition::with_defaults(key.to_string(), key.to_string());
    d.empty = empty;
    d.transparent = transparent;
    d.solid = solid;
    d.uv_rect = uv;
    d
}

fn uv(a: u32) -> UvRect {
    UvRect { min_x: a, min_y: a + 1, max_x: a + 2, max_y: a + 3 }
}

/// Registry: 0 air, 1 stone, 2 glass.
fn registry() -> BlockRegistry {
    let mut r = BlockRegistry::new();
    r.register(def("rg_air", true, true, false, uv(0)));
    r.register(def("rg_stone", false, false, true, uv(10)));
    r.register(def("rg_glass", false, true, true, uv(20)));
    r
}

fn empty_voxels() -> VoxelData {
    [[[0u16; 16]; 16]; 16]
}

#[test]
fn block_to_chunk_floors_negative_coordinates() {
    let p = GridPos::new(-1, 17, 0);
    assert_eq!(block_to_chunk(p), GridPos::new(-1, 1, 0));
    assert_eq!(block_to_chunk_local(p), GridPos::new(15, 1, 0));
    let q = GridPos::new(-16, -17, 31);
    assert_eq!(block_to_chunk(q), GridPos::new(-1, -2, 1));
    assert_eq!(block_to_chunk_local(q), GridPos::new(0, 15, 15));
}

#[test]
fn chunk_and_local_give_the_block_back() {
    for &(x, y, z) in &[(-33, 5, 100), (0, -1, 15), (i32::MIN, i32::MAX, 7)] {
        let p = GridPos::new(x, y, z);
        let c = block_to_chunk(p);
        let l = block_to_chunk_local(p);
        assert_eq!(c.x as i64 * 16 + l.x as i64, x as i64);
        assert_eq!(c.y as i64 * 16 + l.y as i64, y as i64);
        assert_eq!(c.z as i64 * 16 + l.z as i64, z as i64);
    }
}

#[test]
fn chunk_to_block_is_the_chunk_corner() {
    let b = chunk_to_block(GridPos::new(2, -1, 0));
    assert_eq!(b, GridPos::new(32, -16, 0));
    assert_eq!(block_to_chunk(b), GridPos::new(2, -1, 0));
    assert_eq!(block_to_chunk_local(b), GridPos::new(0, 0, 0));
}

#[test]
fn chunk_voxel_set_then_get() {
    let mut c = Chunk { coord: GridPos::new(0, 0, 0), voxels: empty_voxels() };
    c.set_voxel(GridPos::new(3, 4, 5), 9);
    assert_eq!(c.get_voxel(GridPos::new(3, 4, 5)), 9);
    assert_eq!(c.get_voxel(GridPos::new(5, 4, 3)), 0);
    assert_eq!(c.voxels[3][4][5], 9);
}

#[test]
fn world_get_and_set_block() {
    let mut world = VoxelWorld::new();
    let mut data = empty_voxels();
    data[1][2][3] = 1;
    let e = spawn_chunk(GridPos::new(-1, 0, 0), data, 77, &mut world);
    assert_eq!(e, 77);
    // block (-15, 2, 3) lies in chunk (-1, 0, 0) at local (1, 2, 3)
    assert_eq!(world.get_block(GridPos::new(-15, 2, 3)), Some(1));
    assert_eq!(world.get_block(GridPos::new(-16, 0, 0)), Some(0));
    assert_eq!(world.get_block(GridPos::new(0, 0, 0)), None);
    assert!(world.set_block(GridPos::new(-16, 0, 0), 2));
    assert_eq!(world.get_block(GridPos::new(-16, 0, 0)), Some(2));
    assert_eq!(world.get_block(GridPos::new(-15, 2, 3)), Some(1));
    assert!(!world.set_block(GridPos::new(16, 0, 0), 2));
    assert_eq!(world.get_block(GridPos::new(16, 0, 0)), None);
    let entry = world.chunks.get(77).unwrap();
    assert!(entry.dirty_mesh && entry.dirty_collider);
    assert_eq!(entry.chunk.coord, GridPos::new(-1, 0, 0));
}

#[test]
fn set_block_fails_when_entity_has_no_chunk() {
    let mut world = VoxelWorld::new();
    world.chunk_map.insert(GridPos::new(0, 0, 0), 5);
    assert_eq!(world.chunk_map.get(GridPos::new(0, 0, 0)), Some(5));
    assert_eq!(world.get_block(GridPos::new(1, 1, 1)), None);
    assert!(!world.set_block(GridPos::new(1, 1, 1), 3));
}

#[test]
fn chunk_map_records_latest_entity() {
    let mut m = ChunkMap::new();
    assert_eq!(m.get(GridPos::new(1, 2, 3)), None);
    m.insert(GridPos::new(1, 2, 3), 4);
    m.insert(GridPos::new(1, 2, 3), 6);
    m.insert(GridPos::new(3, 2, 1), 8);
    assert_eq!(m.get(GridPos::new(1, 2, 3)), Some(6));
    assert_eq!(m.get(GridPos::new(3, 2, 1)), Some(8));
}

#[test]
fn chunk_store_insert_replace_remove() {
    let mut s = ChunkStore::new();
    let chunk = Chunk { coord: GridPos::new(0, 0, 0), voxels: empty_voxels() };
    s.insert(ChunkEntry { entity: 1, chunk, dirty_mesh: false, dirty_collider: false });
    s.insert(ChunkEntry { entity: 2, chunk, dirty_mesh: true, dirty_collider: false });
    s.insert(ChunkEntry { entity: 1, chunk, dirty_mesh: true, dirty_collider: true });
    assert!(s.get(1).unwrap().dirty_collider);
    assert!(s.remove(1));
    assert!(!s.remove(1));
    assert!(s.get(1).is_none());
    assert!(s.get(2).unwrap().dirty_mesh);
}

#[test]
fn voxel_face_corners_and_normals() {
    let f = generate_voxel_face(VoxelFace::Front, GridPos::new(1, 2, 3));
    assert_eq!(f.positions, [(1, 2, 3), (2, 2, 3), (2, 3, 3), (1, 3, 3)]);
    assert_eq!(f.normals, [(0, 0, -1); 4]);
    let b = generate_voxel_face(VoxelFace::Bottom, GridPos::new(0, 0, 0));
    assert_eq!(b.positions, [(0, 0, 1), (1, 0, 1), (1, 0, 0), (0, 0, 0)]);
    assert_eq!(b.normals, [(0, -1, 0); 4]);
    let l = generate_voxel_face(VoxelFace::Left, GridPos::new(0, 0, 0));
    assert_eq!(l.positions, [(0, 0, 1), (0, 0, 0), (0, 1, 0), (0, 1, 1)]);
    assert_eq!(VoxelFace::Right.adj_offset(), GridPos::new(1, 0, 0));
    assert_eq!(VoxelFace::Front.adj_offset(), GridPos::new(0, 0, -1));
}

#[test]
fn is_solid_outside_chunk_and_by_definition() {
    let reg = registry();
    let mut v = empty_voxels();
    v[0][0][0] = 1;
    v[1][0][0] = 2;
    v[2][0][0] = 9;
    let c = Chunk { coord: GridPos::new(0, 0, 0), voxels: v };
    assert!(is_solid(&c, GridPos::new(0, 0, 0), &reg));
    assert!(!is_solid(&c, GridPos::new(1, 0, 0), &reg)); // glass is transparent
    assert!(!is_solid(&c, GridPos::new(2, 0, 0), &reg)); // no definition
    assert!(!is_solid(&c, GridPos::new(3, 0, 0), &reg)); // air
    assert!(!is_solid(&c, GridPos::new(-1, 0, 0), &reg));
    assert!(!is_solid(&c, GridPos::new(0, 16, 0), &reg));
}

#[test]
fn air_chunk_has_no_mesh() {
    let reg = registry();
    let c = Chunk { coord: GridPos::new(0, 0, 0), voxels: empty_voxels() };
    assert!(build_mesh(&c, &reg).is_none());
}

#[test]
fn single_block_mesh_has_six_faces() {
    let reg = registry();
    let mut v = empty_voxels();
    v[1][2][3] = 1;
    let c = Chunk { coord: GridPos::new(0, 0, 0), voxels: v };
    let m = build_mesh(&c, &reg).unwrap();
    assert_eq!(m.positions.len(), 24);
    assert_eq!(m.normals.len(), 24);
    assert_eq!(m.uvs.len(), 24);
    assert_eq!(m.indices.len(), 36);
    assert_eq!(&m.positions[0..4], &[(1, 2, 3), (2, 2, 3), (2, 3, 3), (1, 3, 3)]);
    assert_eq!(m.normals[4], (1, 0, 0));
    assert_eq!(m.normals[23], (0, -1, 0));
    assert_eq!(&m.uvs[0..4], &[(10, 11), (12, 11), (12, 13), (10, 13)]);
    assert_eq!(&m.indices[0..12], &[0, 2, 1, 0, 3, 2, 4, 6, 5, 4, 7, 6]);
    assert!(m.indices.iter().all(|&i| (i as usize) < m.positions.len()));
}

#[test]
fn adjacent_blocks_hide_shared_faces() {
    let reg = registry();
    let mut v = empty_voxels();
    v[1][1][1] = 1;
    v[2][1][1] = 1;
    let c = Chunk { coord: GridPos::new(0, 0, 0), voxels: v };
    let m = build_mesh(&c, &reg).unwrap();
    assert_eq!(m.indices.len(), 10 * 6);
    assert_eq!(m.positions.len(), 10 * 4);
    // first block: Front, Back, Left, Top, Bottom (its Right face is hidden)
    assert_eq!(m.normals[4], (0, 0, 1));
}

#[test]
fn transparent_neighbour_does_not_hide() {
    let reg = registry();
    let mut v = empty_voxels();
    v[1][1][1] = 1;
    v[2][1][1] = 2;
    let c = Chunk { coord: GridPos::new(0, 0, 0), voxels: v };
    let m = build_mesh(&c, &reg).unwrap();
    // glass does not hide the stone's Right face; the solid stone hides the
    // glass's Left face.
    assert_eq!(m.indices.len(), (6 + 5) * 6);
    assert_eq!(m.uvs[24], (20, 21));
}

#[test]
fn undefined_blocks_are_not_drawn_nor_collide() {
    let reg = registry();
    let mut v = empty_voxels();
    v[0][0][0] = 40;
    let c = Chunk { coord: GridPos::new(0, 0, 0), voxels: v };
    assert!(build_mesh(&c, &reg).is_none());
    assert!(solid_voxels(&c, &reg).is_empty());
}

#[test]
fn chunk_border_faces_are_drawn() {
    let reg = registry();
    let mut v = empty_voxels();
    v[0][0][0] = 1;
    v[15][15][15] = 1;
    let c = Chunk { coord: GridPos::new(0, 0, 0), voxels: v };
    let m = build_mesh(&c, &reg).unwrap();
    assert_eq!(m.indices.len(), 12 * 6);
    assert_eq!(m.positions[24], (15, 15, 15));
}

#[test]
fn solid_voxels_lists_solid_cells_in_walk_order() {
    let reg = registry();
    let mut v = empty_voxels();
    v[3][0][0] = 2;
    v[0][5][1] = 1;
    v[0][0][2] = 0;
    let c = Chunk { coord: GridPos::new(0, 0, 0), voxels: v };
    assert_eq!(solid_voxels(&c, &reg), vec![(0, 5, 1), (3, 0, 0)]);
}

#[test]
fn dirty_meshes_and_colliders_are_rebuilt_once() {
    let reg = registry();
    let mut world = VoxelWorld::new();
    let mut data = empty_voxels();
    data[0][0][0] = 1;
    spawn_chunk(GridPos::new(0, 0, 0), data, 1, &mut world);
    spawn_chunk(GridPos::new(1, 0, 0), empty_voxels(), 2, &mut world);
    let meshes = generate_chunk_mesh(&reg, &mut world.chunks);
    assert_eq!(meshes.len(), 2);
    for (e, m) in &meshes {
        assert_eq!(m.is_some(), *e == 1);
    }
    // the air chunk keeps its mesh marker; the other does not
    assert!(!world.chunks.get(1).unwrap().dirty_mesh);
    assert!(world.chunks.get(2).unwrap().dirty_mesh);
    let colliders = generate_chunk_collider(&reg, &mut world.chunks);
    assert_eq!(colliders.len(), 2);
    for (e, cells) in &colliders {
        if *e == 1 {
            assert_eq!(cells, &vec![(0, 0, 0)]);
        } else {
            assert!(cells.is_empty());
        }
    }
    assert!(generate_chunk_collider(&reg, &mut world.chunks).is_empty());
    assert!(world.set_block(GridPos::new(5, 5, 5), 1));
    let again = generate_chunk_collider(&reg, &mut world.chunks);
    assert_eq!(again.len(), 1);
    assert_eq!(again[0].1, vec![(0, 0, 0), (5, 5, 5)]);
}

#[test]
fn adjacent_transparent_blocks_hide_nothing() {
    let reg = registry();
    let mut v = empty_voxels();
    v[0][0][0] = 2;
    v[1][0][0] = 2;
    let c = Chunk { coord: GridPos::new(0, 0, 0), voxels: v };
    let m = build_mesh(&c, &reg).unwrap();
    assert_eq!(m.positions.len(), 48);
    assert_eq!(m.indices.len(), 72);
}

#[test]
fn adjacent_opaque_blocks_at_the_corner() {
    let reg = registry();
    let mut v = empty_voxels();
    v[0][0][0] = 1;
    v[1][0][0] = 1;
    let c = Chunk { coord: GridPos::new(0, 0, 0), voxels: v };
    let m = build_mesh(&c, &reg).unwrap();
    assert_eq!(m.positions.len(), 40);
    assert_eq!(m.indices.len(), 60);
}
