//! Building the render mesh of a chunk: one quad for each block face that
//! no solid neighbour hides.
use vstd::prelude::*;
use crate::blockdefs::{BlockId, BlockRegistry, UvRect};
use crate::voxels::{
    Chunk, ChunkEntry, ChunkStore, GridPos, CHUNK_SIZE, entry_map, entities_distinct, lemma_entry_map_index,
    lemma_entry_map_same_entities,
};

verus! {

/// Number of blocks in a chunk.
pub const CHUNK_VOLUME: usize = 4096;

/// The six faces of a block, in the order in which a mesh lists them.
#[derive(Clone, Copy, Debug, PartialEq, Eq, Structural)]
pub enum VoxelFace {
    Front,
    Right,
    Back,
    Left,
    Top,
    Bottom,
}

/// The face at position `i` of the face order.
pub open spec fn spec_face_at(i: int) -> VoxelFace {
    if i == 0 {
        VoxelFace::Front
    } else if i == 1 {
        VoxelFace::Right
    } else if i == 2 {
        VoxelFace::Back
    } else if i == 3 {
        VoxelFace::Left
    } else if i == 4 {
        VoxelFace::Top
    } else {
        VoxelFace::Bottom
    }
}

/// Direction from a block to the neighbour that a face looks at.
pub open spec fn face_offset(face: VoxelFace) -> (int, int, int) {
    match face {
        VoxelFace::Front => (0, 0, -1),
        VoxelFace::Right => (1, 0, 0),
        VoxelFace::Back => (0, 0, 1),
        VoxelFace::Left => (-1, 0, 0),
        VoxelFace::Top => (0, 1, 0),
        VoxelFace::Bottom => (0, -1, 0),
    }
}

/// The outward normal of a face.
pub open spec fn face_normal(face: VoxelFace) -> (i32, i32, i32) {
    match face {
        VoxelFace::Front => (0, 0, -1i32),
        VoxelFace::Right => (1, 0, 0),
        VoxelFace::Back => (0, 0, 1),
        VoxelFace::Left => (-1i32, 0, 0),
        VoxelFace::Top => (0, 1, 0),
        VoxelFace::Bottom => (0, -1i32, 0),
    }
}

/// Corner `j` (of four, counter-clockwise seen from outside) of a face of
/// the unit cube.
pub open spec fn face_corner(face: VoxelFace, j: int) -> (int, int, int) {
    match face {
        VoxelFace::Front => if j == 0 { (0, 0, 0) } else if j == 1 { (1, 0, 0) } else if j == 2 { (1, 1, 0) } else { (0, 1, 0) },
        VoxelFace::Right => if j == 0 { (1, 0, 0) } else if j == 1 { (1, 0, 1) } else if j == 2 { (1, 1, 1) } else { (1, 1, 0) },
        VoxelFace::Back => if j == 0 { (1, 0, 1) } else if j == 1 { (0, 0, 1) } else if j == 2 { (0, 1, 1) } else { (1, 1, 1) },
        VoxelFace::Left => if j == 0 { (0, 0, 1) } else if j == 1 { (0, 0, 0) } else if j == 2 { (0, 1, 0) } else { (0, 1, 1) },
        VoxelFace::Top => if j == 0 { (0, 1, 0) } else if j == 1 { (1, 1, 0) } else if j == 2 { (1, 1, 1) } else { (0, 1, 1) },
        VoxelFace::Bottom => if j == 0 { (0, 0, 1) } else if j == 1 { (1, 0, 1) } else if j == 2 { (1, 0, 0) } else { (0, 0, 0) },
    }
}

/// Corner `j` of a face of the block whose lowest corner is `offset`.
pub open spec fn face_vertex(face: VoxelFace, offset: GridPos, j: int) -> (i32, i32, i32) {
    let c = face_corner(face, j);
    ((offset.x + c.0) as i32, (offset.y + c.1) as i32, (offset.z + c.2) as i32)
}

/// Texture coordinates of corner `j` of a face: the rectangle's corners in
/// the order (min, min), (max, min), (max, max), (min, max).
pub open spec fn face_uv(uv: UvRect, j: int) -> (u32, u32) {
    if j == 0 {
        (uv.min_x, uv.min_y)
    } else if j == 1 {
        (uv.max_x, uv.min_y)
    } else if j == 2 {
        (uv.max_x, uv.max_y)
    } else {
        (uv.min_x, uv.max_y)
    }
}

impl VoxelFace {
    /// The face at position `i` of the face order.
    pub fn from_index(i: usize) -> (face: VoxelFace)
        requires
            i < 6,
        ensures
            face == spec_face_at(i as int),
    {
        if i == 0 {
            VoxelFace::Front
        } else if i == 1 {
            VoxelFace::Right
        } else if i == 2 {
            VoxelFace::Back
        } else if i == 3 {
            VoxelFace::Left
        } else if i == 4 {
            VoxelFace::Top
        } else {
            VoxelFace::Bottom
        }
    }

    /// Direction from a block to the neighbour that this face looks at.
    pub fn adj_offset(&self) -> (d: GridPos)
        ensures
            (d.x as int, d.y as int, d.z as int) == face_offset(*self),
    {
        match self {
            VoxelFace::Front => GridPos { x: 0, y: 0, z: -1 },
            VoxelFace::Right => GridPos { x: 1, y: 0, z: 0 },
            VoxelFace::Back => GridPos { x: 0, y: 0, z: 1 },
            VoxelFace::Left => GridPos { x: -1, y: 0, z: 0 },
            VoxelFace::Top => GridPos { x: 0, y: 1, z: 0 },
            VoxelFace::Bottom => GridPos { x: 0, y: -1, z: 0 },
        }
    }
}

/// Corner positions and normals of one face of one block.
pub struct VoxelFaceData {
    pub positions: [(i32, i32, i32); 4],
    pub normals: [(i32, i32, i32); 4],
}

/// The four corners and normals of `face` of the unit block whose lowest
/// corner is `offset`.
pub fn generate_voxel_face(face: VoxelFace, offset: GridPos) -> (data: VoxelFaceData)
    requires
        offset.x < i32::MAX,
        offset.y < i32::MAX,
        offset.z < i32::MAX,
    ensures
        forall|j: int| 0 <= j < 4 ==> #[trigger] data.positions@[j] == face_vertex(face, offset, j),
        forall|j: int| 0 <= j < 4 ==> #[trigger] data.normals@[j] == face_normal(face),
{
    let x = offset.x;
    let y = offset.y;
    let z = offset.z;
    let positions: [(i32, i32, i32); 4];
    let normals: [(i32, i32, i32); 4];
    match face {
        VoxelFace::Front => {
            positions = [(x, y, z), (x + 1, y, z), (x + 1, y + 1, z), (x, y + 1, z)];
            normals = [(0, 0, -1), (0, 0, -1), (0, 0, -1), (0, 0, -1)];
        },
        VoxelFace::Right => {
            positions = [(x + 1, y, z), (x + 1, y, z + 1), (x + 1, y + 1, z + 1), (x + 1, y + 1, z)];
            normals = [(1, 0, 0), (1, 0, 0), (1, 0, 0), (1, 0, 0)];
        },
        VoxelFace::Back => {
            positions = [(x + 1, y, z + 1), (x, y, z + 1), (x, y + 1, z + 1), (x + 1, y + 1, z + 1)];
            normals = [(0, 0, 1), (0, 0, 1), (0, 0, 1), (0, 0, 1)];
        },
        VoxelFace::Left => {
            positions = [(x, y, z + 1), (x, y, z), (x, y + 1, z), (x, y + 1, z + 1)];
            normals = [(-1, 0, 0), (-1, 0, 0), (-1, 0, 0), (-1, 0, 0)];
        },
        VoxelFace::Top => {
            positions = [(x, y + 1, z), (x + 1, y + 1, z), (x + 1, y + 1, z + 1), (x, y + 1, z + 1)];
            normals = [(0, 1, 0), (0, 1, 0), (0, 1, 0), (0, 1, 0)];
        },
        VoxelFace::Bottom => {
            positions = [(x, y, z + 1), (x + 1, y, z + 1), (x + 1, y, z), (x, y, z)];
            normals = [(0, -1, 0), (0, -1, 0), (0, -1, 0), (0, -1, 0)];
        },
    }
    VoxelFaceData { positions, normals }
}


/// Whether the block at `pos` (which may lie outside the chunk) hides the
/// faces next to it: it lies inside the chunk and its definition is neither
/// empty nor transparent. A block whose id has no definition hides nothing.
pub open spec fn spec_is_solid(chunk: Chunk, pos: (int, int, int), registry: BlockRegistry) -> bool {
    &&& 0 <= pos.0 < CHUNK_SIZE as int
    &&& 0 <= pos.1 < CHUNK_SIZE as int
    &&& 0 <= pos.2 < CHUNK_SIZE as int
    &&& match registry.spec_get_def(chunk.voxel(pos.0, pos.1, pos.2)) {
        Some(def) => !(def.empty || def.transparent),
        None => false,
    }
}

/// Whether the block at `pos` hides the faces next to it.
pub fn is_solid(chunk: &Chunk, pos: GridPos, registry: &BlockRegistry) -> (r: bool)
    ensures
        r == spec_is_solid(*chunk, (pos.x as int, pos.y as int, pos.z as int), *registry),
{
    let size: i32 = 16;
    if pos.x < 0 || pos.x >= size {
        return false;
    }
    if pos.y < 0 || pos.y >= size {
        return false;
    }
    if pos.z < 0 || pos.z >= size {
        return false;
    }
    let id = chunk.voxels[pos.x as usize][pos.y as usize][pos.z as usize];
    match registry.get_def(id) {
        None => false,
        Some(def) => !(def.empty || def.transparent),
    }
}

/// One visible face: the block it belongs to, which face, and the atlas
/// rectangle of the block's texture.
pub struct Quad {
    pub cell: GridPos,
    pub face: VoxelFace,
    pub uv: UvRect,
}

/// The block visited at step `i` of a chunk walk (x slowest, z fastest).
pub open spec fn cell_of(i: int) -> GridPos {
    GridPos { x: (i / 256) as i32, y: ((i / 16) % 16) as i32, z: (i % 16) as i32 }
}

/// The atlas rectangle of the block at `cell` when the block is drawn: its id
/// has a definition, the definition is not empty, and the id is not 0.
pub open spec fn drawn_uv(chunk: Chunk, registry: BlockRegistry, cell: GridPos) -> Option<UvRect> {
    let id = chunk.voxel(cell.x as int, cell.y as int, cell.z as int);
    match registry.spec_get_def(id) {
        Some(def) => if !def.empty && id != 0 { Some(def.uv_rect) } else { None },
        None => None,
    }
}

/// The neighbour of `cell` across `face`.
pub open spec fn neighbour(cell: GridPos, face: VoxelFace) -> (int, int, int) {
    let d = face_offset(face);
    (cell.x + d.0, cell.y + d.1, cell.z + d.2)
}

/// The visible faces among the first `f` faces of the drawn block at `cell`.
pub open spec fn face_quads(chunk: Chunk, registry: BlockRegistry, cell: GridPos, uv: UvRect, f: int) -> Seq<Quad>
    decreases f,
{
    if f <= 0 {
        Seq::empty()
    } else {
        let face = spec_face_at(f - 1);
        let before = face_quads(chunk, registry, cell, uv, f - 1);
        if spec_is_solid(chunk, neighbour(cell, face), registry) {
            before
        } else {
            before.push(Quad { cell, face, uv })
        }
    }
}

/// The visible faces of the block at `cell`.
pub open spec fn cell_quads(chunk: Chunk, registry: BlockRegistry, cell: GridPos) -> Seq<Quad> {
    match drawn_uv(chunk, registry, cell) {
        Some(uv) => face_quads(chunk, registry, cell, uv, 6),
        None => Seq::empty(),
    }
}

/// The visible faces of the first `n` blocks of the chunk walk.
pub open spec fn quads_before(chunk: Chunk, registry: BlockRegistry, n: int) -> Seq<Quad>
    decreases n,
{
    if n <= 0 {
        Seq::empty()
    } else {
        quads_before(chunk, registry, n - 1) + cell_quads(chunk, registry, cell_of(n - 1))
    }
}

/// Every visible face of the chunk, in mesh order.
pub open spec fn mesh_quads(chunk: Chunk, registry: BlockRegistry) -> Seq<Quad> {
    quads_before(chunk, registry, CHUNK_VOLUME as int)
}

/// Vertex positions of a list of quads, four per quad.
pub open spec fn quad_positions(qs: Seq<Quad>) -> Seq<(i32, i32, i32)>
    decreases qs.len(),
{
    if qs.len() == 0 {
        Seq::empty()
    } else {
        let q = qs.last();
        quad_positions(qs.drop_last()) + seq![
            face_vertex(q.face, q.cell, 0),
            face_vertex(q.face, q.cell, 1),
            face_vertex(q.face, q.cell, 2),
            face_vertex(q.face, q.cell, 3),
        ]
    }
}

/// Vertex normals of a list of quads, four per quad.
pub open spec fn quad_normals(qs: Seq<Quad>) -> Seq<(i32, i32, i32)>
    decreases qs.len(),
{
    if qs.len() == 0 {
        Seq::empty()
    } else {
        let n = face_normal(qs.last().face);
        quad_normals(qs.drop_last()) + seq![n, n, n, n]
    }
}

/// Vertex texture coordinates of a list of quads, four per quad.
pub open spec fn quad_uvs(qs: Seq<Quad>) -> Seq<(u32, u32)>
    decreases qs.len(),
{
    if qs.len() == 0 {
        Seq::empty()
    } else {
        let uv = qs.last().uv;
        quad_uvs(qs.drop_last()) + seq![face_uv(uv, 0), face_uv(uv, 1), face_uv(uv, 2), face_uv(uv, 3)]
    }
}

/// Triangle indices of a list of quads: two triangles per quad over its four
/// vertices.
pub open spec fn quad_indices(qs: Seq<Quad>) -> Seq<u32>
    decreases qs.len(),
{
    if qs.len() == 0 {
        Seq::empty()
    } else {
        let b = 4 * (qs.len() - 1);
        quad_indices(qs.drop_last()) + seq![
            b as u32,
            (b + 2) as u32,
            (b + 1) as u32,
            b as u32,
            (b + 3) as u32,
            (b + 2) as u32,
        ]
    }
}

/// Vertex and index arrays of a render mesh.
pub struct MeshData {
    pub positions: Vec<(i32, i32, i32)>,
    pub normals: Vec<(i32, i32, i32)>,
    pub uvs: Vec<(u32, u32)>,
    pub indices: Vec<u32>,
}

/// The mesh arrays hold exactly the vertices and triangles of `qs`.
pub open spec fn mesh_matches(m: MeshData, qs: Seq<Quad>) -> bool {
    &&& m.positions@ == quad_positions(qs)
    &&& m.normals@ == quad_normals(qs)
    &&& m.uvs@ == quad_uvs(qs)
    &&& m.indices@ == quad_indices(qs)
}

/// `r` is the mesh of `chunk`: `None` when it has no visible face, else
/// the arrays of its visible faces.
pub open spec fn is_chunk_mesh(chunk: Chunk, registry: BlockRegistry, r: Option<MeshData>) -> bool {
    match r {
        None => mesh_quads(chunk, registry).len() == 0,
        Some(m) => mesh_quads(chunk, registry).len() > 0 && mesh_matches(m, mesh_quads(chunk, registry)),
    }
}

/// Four vertices and six indices per quad.
pub proof fn lemma_mesh_lengths(qs: Seq<Quad>)
    ensures
        quad_positions(qs).len() == 4 * qs.len(),
        quad_normals(qs).len() == 4 * qs.len(),
        quad_uvs(qs).len() == 4 * qs.len(),
        quad_indices(qs).len() == 6 * qs.len(),
    decreases qs.len(),
{
    if qs.len() > 0 {
        lemma_mesh_lengths(qs.drop_last());
    }
}

proof fn lemma_face_quads_len(chunk: Chunk, registry: BlockRegistry, cell: GridPos, uv: UvRect, f: int)
    ensures
        face_quads(chunk, registry, cell, uv, f).len() <= if f < 0 { 0 } else { f },
    decreases f,
{
    if f > 0 {
        lemma_face_quads_len(chunk, registry, cell, uv, f - 1);
    }
}

proof fn lemma_quads_before_len(chunk: Chunk, registry: BlockRegistry, n: int)
    requires
        n >= 0,
    ensures
        quads_before(chunk, registry, n).len() <= 6 * n,
    decreases n,
{
    if n > 0 {
        lemma_quads_before_len(chunk, registry, n - 1);
        let cell = cell_of(n - 1);
        match drawn_uv(chunk, registry, cell) {
            Some(uv) => lemma_face_quads_len(chunk, registry, cell, uv, 6),
            None => {},
        }
    }
}

/// Every triangle index names one of the mesh's vertices.
pub proof fn lemma_indices_in_range(qs: Seq<Quad>)
    requires
        4 * qs.len() <= u32::MAX,
    ensures
        forall|k: int| 0 <= k < quad_indices(qs).len() ==> #[trigger] quad_indices(qs)[k] < quad_positions(qs).len(),
    decreases qs.len(),
{
    lemma_mesh_lengths(qs);
    if qs.len() > 0 {
        lemma_indices_in_range(qs.drop_last());
        lemma_mesh_lengths(qs.drop_last());
        let prev = quad_indices(qs.drop_last());
        assert forall|k: int| 0 <= k < quad_indices(qs).len() implies #[trigger] quad_indices(qs)[k]
            < quad_positions(qs).len() by {
            if k < prev.len() {
                assert(quad_indices(qs)[k] == prev[k]);
            }
        }
    }
}

/// Appends the four vertices and two triangles of one quad.
fn push_quad(mesh: &mut MeshData, face_data: &VoxelFaceData, uv: UvRect, base: u32, Ghost(qs): Ghost<Seq<Quad>>, Ghost(q): Ghost<Quad>)
    requires
        mesh_matches(*old(mesh), qs),
        base == 4 * qs.len(),
        base + 3 <= u32::MAX,
        q.uv == uv,
        forall|j: int| 0 <= j < 4 ==> #[trigger] face_data.positions@[j] == face_vertex(q.face, q.cell, j),
        forall|j: int| 0 <= j < 4 ==> #[trigger] face_data.normals@[j] == face_normal(q.face),
    ensures
        mesh_matches(*final(mesh), qs.push(q)),
{
    mesh.positions.push(face_data.positions[0]);
    mesh.positions.push(face_data.positions[1]);
    mesh.positions.push(face_data.positions[2]);
    mesh.positions.push(face_data.positions[3]);
    mesh.normals.push(face_data.normals[0]);
    mesh.normals.push(face_data.normals[1]);
    mesh.normals.push(face_data.normals[2]);
    mesh.normals.push(face_data.normals[3]);
    mesh.uvs.push((uv.min_x, uv.min_y));
    mesh.uvs.push((uv.max_x, uv.min_y));
    mesh.uvs.push((uv.max_x, uv.max_y));
    mesh.uvs.push((uv.min_x, uv.max_y));
    mesh.indices.push(base);
    mesh.indices.push(base + 2);
    mesh.indices.push(base + 1);
    mesh.indices.push(base);
    mesh.indices.push(base + 3);
    mesh.indices.push(base + 2);
    proof {
        let qs2 = qs.push(q);
        assert(qs2.drop_last() =~= qs);
        assert(qs2.last() == q);
        assert(mesh.positions@ =~= quad_positions(qs2));
        assert(mesh.normals@ =~= quad_normals(qs2));
        assert(mesh.uvs@ =~= quad_uvs(qs2));
        assert(mesh.indices@ =~= quad_indices(qs2));
    }
}

/// The render mesh of a chunk: for each drawn block (its id has a
/// definition that is not empty, and the id is not 0) one quad per face
/// whose neighbour is not solid, with the block's atlas rectangle as texture
/// coordinates. `None` when no face is visible.
pub fn build_mesh(chunk: &Chunk, registry: &BlockRegistry) -> (r: Option<MeshData>)
    ensures
        is_chunk_mesh(*chunk, *registry, r),
{
    let mut mesh = MeshData { positions: Vec::new(), normals: Vec::new(), uvs: Vec::new(), indices: Vec::new() };
    let ghost mut qs: Seq<Quad> = Seq::empty();
    let mut i: usize = 0;
    while i < CHUNK_VOLUME
        invariant
            i <= CHUNK_VOLUME,
            qs == quads_before(*chunk, *registry, i as int),
            mesh_matches(mesh, qs),
        decreases CHUNK_VOLUME - i,
    {
        proof {
            lemma_quads_before_len(*chunk, *registry, i as int);
            lemma_mesh_lengths(qs);
        }
        let x = i / 256;
        let y = (i / 16) % 16;
        let z = i % 16;
        let ghost cell = cell_of(i as int);
        let ghost start = qs;
        let id: BlockId = chunk.voxels[x][y][z];
        match registry.get_def(id) {
            None => {},
            Some(def) => {
                if !def.empty && chunk.voxels[x][y][z] != 0 {
                    let uv = def.uv_rect;
                    let mut base = mesh.positions.len() as u32;
                    let offset = GridPos { x: x as i32, y: y as i32, z: z as i32 };
                    assert(offset == cell);
                    let mut f: usize = 0;
                    while f < 6
                        invariant
                            f <= 6,
                            i < CHUNK_VOLUME,
                            offset == cell,
                            cell == cell_of(i as int),
                            start == quads_before(*chunk, *registry, i as int),
                            start.len() <= 6 * i,
                            drawn_uv(*chunk, *registry, cell) == Some(uv),
                            qs == start + face_quads(*chunk, *registry, cell, uv, f as int),
                            qs.len() <= start.len() + f,
                            mesh_matches(mesh, qs),
                            base == 4 * qs.len(),
                        decreases 6 - f,
                    {
                        proof {
                            lemma_face_quads_len(*chunk, *registry, cell, uv, f as int);
                        }
                        let face = VoxelFace::from_index(f);
                        let d = face.adj_offset();
                        let adj = GridPos { x: offset.x + d.x, y: offset.y + d.y, z: offset.z + d.z };
                        if !is_solid(chunk, adj, registry) {
                            let face_data = generate_voxel_face(face, offset);
                            let ghost q = Quad { cell, face, uv };
                            push_quad(&mut mesh, &face_data, uv, base, Ghost(qs), Ghost(q));
                            proof {
                                assert(start + face_quads(*chunk, *registry, cell, uv, f + 1) =~= qs.push(q));
                                qs = qs.push(q);
                                lemma_mesh_lengths(qs);
                            }
                            base = base + 4;
                        }
                        f = f + 1;
                    }
                }
            },
        }
        proof {
            assert(qs =~= quads_before(*chunk, *registry, i + 1));
        }
        i = i + 1;
    }
    proof {
        lemma_mesh_lengths(qs);
    }
    if mesh.indices.len() == 0 {
        None
    } else {
        Some(mesh)
    }
}


/// Builds the mesh of every chunk whose mesh marker is set, in the
/// store's order, and lists each such entity with its mesh. The marker is
/// cleared where a mesh came out; a chunk without visible faces keeps its
/// marker (its entity is to lose its mesh, and is listed again next time).
pub fn generate_chunk_mesh(registry: &BlockRegistry, chunks: &mut ChunkStore) -> (rebuilt: Vec<(u64, Option<MeshData>)>)
    ensures
        final(chunks)@.dom() == old(chunks)@.dom(),
        forall|e: u64| #[trigger] final(chunks)@.dom().contains(e) ==>
            final(chunks)@[e] == if old(chunks)@[e].dirty_mesh && mesh_quads(old(chunks)@[e].chunk, *registry).len() > 0 {
                ChunkEntry { dirty_mesh: false, ..old(chunks)@[e] }
            } else {
                old(chunks)@[e]
            },
        forall|k: int| #![trigger rebuilt@[k]] 0 <= k < rebuilt@.len() ==> {
            let e = rebuilt@[k].0;
            &&& old(chunks)@.dom().contains(e)
            &&& old(chunks)@[e].dirty_mesh
            &&& is_chunk_mesh(old(chunks)@[e].chunk, *registry, rebuilt@[k].1)
        },
        forall|a: int, b: int| 0 <= a < rebuilt@.len() && 0 <= b < rebuilt@.len() && a != b ==>
            #[trigger] rebuilt@[a].0 != #[trigger] rebuilt@[b].0,
        forall|e: u64| old(chunks)@.dom().contains(e) && #[trigger] old(chunks)@[e].dirty_mesh ==>
            exists|k: int| 0 <= k < rebuilt@.len() && #[trigger] rebuilt@[k].0 == e,
{
    proof {
        use_type_invariant(&*chunks);
    }
    let mut entries = Vec::new();
    std::mem::swap(&mut entries, &mut chunks.entries);
    let ghost s0 = entries@;
    let mut rebuilt: Vec<(u64, Option<MeshData>)> = Vec::new();
    let ghost mut idx: Seq<int> = Seq::empty();
    let mut i: usize = 0;
    while i < entries.len()
        invariant
            entities_distinct(s0),
            entry_map(s0) == old(chunks)@,
            i <= entries@.len(),
            entries@.len() == s0.len(),
            forall|j: int| 0 <= j < i ==> #[trigger] entries@[j] == if s0[j].dirty_mesh && mesh_quads(s0[j].chunk, *registry).len() > 0 {
                ChunkEntry { dirty_mesh: false, ..s0[j] }
            } else {
                s0[j]
            },
            forall|j: int| i <= j < s0.len() ==> #[trigger] entries@[j] == s0[j],
            idx.len() == rebuilt@.len(),
            forall|k: int| #![trigger idx[k]] 0 <= k < idx.len() ==> {
                &&& 0 <= idx[k] < i
                &&& s0[idx[k]].dirty_mesh
                &&& rebuilt@[k].0 == s0[idx[k]].entity
                &&& is_chunk_mesh(s0[idx[k]].chunk, *registry, rebuilt@[k].1)
            },
            forall|a: int, b: int| 0 <= a < b < idx.len() ==> #[trigger] idx[a] < #[trigger] idx[b],
            forall|j: int| 0 <= j < i && #[trigger] s0[j].dirty_mesh ==> exists|k: int|
                0 <= k < idx.len() && #[trigger] idx[k] == j,
        decreases s0.len() - i,
    {
        let entry = entries[i];
        let ghost idx0 = idx;
        if entry.dirty_mesh {
            let mesh = build_mesh(&entry.chunk, registry);
            let built = mesh.is_some();
            rebuilt.push((entry.entity, mesh));
            proof {
                idx = idx.push(i as int);
            }
            if built {
                let mut cleared = entry;
                cleared.dirty_mesh = false;
                entries[i] = cleared;
            }
        }
        proof {
            assert forall|j: int| 0 <= j < i + 1 && #[trigger] s0[j].dirty_mesh implies exists|k: int|
                0 <= k < idx.len() && #[trigger] idx[k] == j by {
                if j == i {
                    assert(idx[idx.len() - 1] == j);
                } else {
                    let k = choose|k: int| 0 <= k < idx0.len() && #[trigger] idx0[k] == j;
                    assert(idx[k] == j);
                }
            }
        }
        i = i + 1;
    }
    proof {
        let s1 = entries@;
        assert forall|j: int| 0 <= j < s0.len() implies #[trigger] s1[j].entity == s0[j].entity by {}
        assert(entities_distinct(s1)) by {
            assert forall|a: int, b: int|
                0 <= a < s1.len() && 0 <= b < s1.len() && a != b implies #[trigger] s1[a].entity
                != #[trigger] s1[b].entity by {
                assert(s1[a].entity == s0[a].entity);
                assert(s1[b].entity == s0[b].entity);
            }
        }
        lemma_entry_map_same_entities(s0, s1);
        assert forall|e: u64| #[trigger] entry_map(s1).dom().contains(e) implies entry_map(s1)[e]
            == if entry_map(s0)[e].dirty_mesh && mesh_quads(entry_map(s0)[e].chunk, *registry).len() > 0 {
                ChunkEntry { dirty_mesh: false, ..entry_map(s0)[e] }
            } else {
                entry_map(s0)[e]
            } by {
            let j = choose|j: int| 0 <= j < s1.len() && #[trigger] s1[j].entity == e;
            lemma_entry_map_index(s1, j);
            lemma_entry_map_index(s0, j);
        }
        assert forall|k: int| #![trigger rebuilt@[k]] 0 <= k < rebuilt@.len() implies {
            let e = rebuilt@[k].0;
            &&& entry_map(s0).dom().contains(e)
            &&& entry_map(s0)[e].dirty_mesh
            &&& is_chunk_mesh(entry_map(s0)[e].chunk, *registry, rebuilt@[k].1)
        } by {
            assert(0 <= idx[k] < s0.len());
            lemma_entry_map_index(s0, idx[k]);
        }
        assert forall|a: int, b: int| 0 <= a < rebuilt@.len() && 0 <= b < rebuilt@.len() && a != b implies
            #[trigger] rebuilt@[a].0 != #[trigger] rebuilt@[b].0 by {
            assert(idx[a] != idx[b]) by {
                if a < b { assert(idx[a] < idx[b]); } else { assert(idx[b] < idx[a]); }
            }
            assert(0 <= idx[a] < s0.len());
            assert(0 <= idx[b] < s0.len());
        }
        assert forall|e: u64| entry_map(s0).dom().contains(e) && #[trigger] entry_map(s0)[e].dirty_mesh implies
            exists|k: int| 0 <= k < rebuilt@.len() && #[trigger] rebuilt@[k].0 == e by {
            let j = choose|j: int| 0 <= j < s0.len() && #[trigger] s0[j].entity == e;
            lemma_entry_map_index(s0, j);
            assert(s0[j].dirty_mesh);
            let k = choose|k: int| 0 <= k < idx.len() && #[trigger] idx[k] == j;
            assert(rebuilt@[k].0 == e);
        }
    }
    chunks.entries = entries;
    rebuilt
}

/// Each quad among the first `f` faces of a block shows a face of that
/// block, with its atlas rectangle, whose neighbour is not solid.
proof fn lemma_face_quads_visible(chunk: Chunk, registry: BlockRegistry, cell: GridPos, uv: UvRect, f: int)
    ensures
        forall|k: int| 0 <= k < face_quads(chunk, registry, cell, uv, f).len() ==> {
            let q = #[trigger] face_quads(chunk, registry, cell, uv, f)[k];
            &&& q.cell == cell
            &&& q.uv == uv
            &&& !spec_is_solid(chunk, neighbour(q.cell, q.face), registry)
        },
    decreases f,
{
    if f > 0 {
        lemma_face_quads_visible(chunk, registry, cell, uv, f - 1);
        let before = face_quads(chunk, registry, cell, uv, f - 1);
        assert forall|k: int| 0 <= k < face_quads(chunk, registry, cell, uv, f).len() implies {
            let q = #[trigger] face_quads(chunk, registry, cell, uv, f)[k];
            &&& q.cell == cell
            &&& q.uv == uv
            &&& !spec_is_solid(chunk, neighbour(q.cell, q.face), registry)
        } by {
            if k < before.len() {
                assert(face_quads(chunk, registry, cell, uv, f)[k] == before[k]);
            }
        }
    }
}

/// Every quad of the first `n` blocks belongs to a drawn block, carries that
/// block's atlas rectangle, and faces a neighbour that is not solid.
proof fn lemma_quads_before_visible(chunk: Chunk, registry: BlockRegistry, n: int)
    ensures
        forall|k: int| 0 <= k < quads_before(chunk, registry, n).len() ==> {
            let q = #[trigger] quads_before(chunk, registry, n)[k];
            &&& drawn_uv(chunk, registry, q.cell) == Some(q.uv)
            &&& !spec_is_solid(chunk, neighbour(q.cell, q.face), registry)
        },
    decreases n,
{
    if n > 0 {
        lemma_quads_before_visible(chunk, registry, n - 1);
        let before = quads_before(chunk, registry, n - 1);
        let cell = cell_of(n - 1);
        let added = cell_quads(chunk, registry, cell);
        match drawn_uv(chunk, registry, cell) {
            Some(uv) => lemma_face_quads_visible(chunk, registry, cell, uv, 6),
            None => {},
        }
        assert forall|k: int| 0 <= k < quads_before(chunk, registry, n).len() implies {
            let q = #[trigger] quads_before(chunk, registry, n)[k];
            &&& drawn_uv(chunk, registry, q.cell) == Some(q.uv)
            &&& !spec_is_solid(chunk, neighbour(q.cell, q.face), registry)
        } by {
            if k < before.len() {
                assert(quads_before(chunk, registry, n)[k] == before[k]);
            } else {
                assert(quads_before(chunk, registry, n)[k] == added[k - before.len()]);
            }
        }
    }
}

/// A chunk mesh shows only faces of drawn blocks (with the block's atlas
/// rectangle) that no solid neighbour hides, and each of its triangle
/// indices names one of its vertices.
pub proof fn lemma_chunk_mesh_sound(chunk: Chunk, registry: BlockRegistry)
    ensures
        forall|k: int| 0 <= k < mesh_quads(chunk, registry).len() ==> {
            let q = #[trigger] mesh_quads(chunk, registry)[k];
            &&& drawn_uv(chunk, registry, q.cell) == Some(q.uv)
            &&& !spec_is_solid(chunk, neighbour(q.cell, q.face), registry)
        },
        forall|k: int| 0 <= k < quad_indices(mesh_quads(chunk, registry)).len()
            ==> #[trigger] quad_indices(mesh_quads(chunk, registry))[k] < quad_positions(mesh_quads(chunk, registry)).len(),
{
    lemma_quads_before_visible(chunk, registry, CHUNK_VOLUME as int);
    lemma_quads_before_len(chunk, registry, CHUNK_VOLUME as int);
    lemma_indices_in_range(mesh_quads(chunk, registry));
}

/// A chunk none of whose blocks is drawn has no mesh.
pub proof fn lemma_undrawn_chunk_has_no_mesh(chunk: Chunk, registry: BlockRegistry)
    requires
        forall|i: int| 0 <= i < CHUNK_VOLUME ==> #[trigger] drawn_uv(chunk, registry, cell_of(i)) is None,
    ensures
        mesh_quads(chunk, registry).len() == 0,
{
    lemma_undrawn_prefix(chunk, registry, CHUNK_VOLUME as int);
}

proof fn lemma_undrawn_prefix(chunk: Chunk, registry: BlockRegistry, n: int)
    requires
        n <= CHUNK_VOLUME,
        forall|i: int| 0 <= i < CHUNK_VOLUME ==> #[trigger] drawn_uv(chunk, registry, cell_of(i)) is None,
    ensures
        quads_before(chunk, registry, n).len() == 0,
    decreases n,
{
    if n > 0 {
        lemma_undrawn_prefix(chunk, registry, n - 1);
        assert(drawn_uv(chunk, registry, cell_of(n - 1)) is None);
    }
}


/// The chunk walk visits step `i` at the cell `(i / 256, i / 16 % 16, i % 16)`,
/// which lies inside the chunk and gives `i` back.
pub proof fn lemma_cell_of(i: int)
    requires
        0 <= i < CHUNK_VOLUME,
    ensures
        0 <= cell_of(i).x < 16,
        0 <= cell_of(i).y < 16,
        0 <= cell_of(i).z < 16,
        i == 256 * cell_of(i).x + 16 * cell_of(i).y + cell_of(i).z,
{
}

/// Blocks that are not drawn add no quad: the walk's quads up to `b` are
/// those up to `a`.
proof fn lemma_skip_undrawn(chunk: Chunk, registry: BlockRegistry, a: int, b: int)
    requires
        0 <= a <= b,
        forall|i: int| a <= i < b ==> #[trigger] drawn_uv(chunk, registry, cell_of(i)) is None,
    ensures
        quads_before(chunk, registry, b) == quads_before(chunk, registry, a),
    decreases b - a,
{
    if b > a {
        lemma_skip_undrawn(chunk, registry, a, b - 1);
        assert(drawn_uv(chunk, registry, cell_of(b - 1)) is None);
        assert(quads_before(chunk, registry, b) =~= quads_before(chunk, registry, b - 1));
    }
}

/// Two drawn blocks side by side, at `(0, 0, 0)` and `(1, 0, 0)`, in an
/// otherwise empty chunk: an opaque block hides the two faces they share,
/// leaving 10 quads (40 vertices, 60 indices); a transparent block hides
/// none, leaving all 12 (48 vertices, 72 indices).
pub proof fn lemma_two_block_culling(chunk: Chunk, registry: BlockRegistry, d: crate::blockdefs::BlockDefinition)
    requires
        match registry.spec_get_def(0) {
            Some(air) => air.empty || air.transparent,
            None => true,
        },
        registry.spec_get_def(1) == Some(d),
        !d.empty,
        chunk.voxel(0, 0, 0) == 1,
        chunk.voxel(1, 0, 0) == 1,
        forall|x: int, y: int, z: int|
            0 <= x < 16 && 0 <= y < 16 && 0 <= z < 16 && !(x == 0 && y == 0 && z == 0) && !(x == 1 && y == 0
                && z == 0) ==> #[trigger] chunk.voxel(x, y, z) == 0,
    ensures
        mesh_quads(chunk, registry).len() == if d.transparent { 12int } else { 10int },
        quad_positions(mesh_quads(chunk, registry)).len() == if d.transparent { 48int } else { 40int },
        quad_indices(mesh_quads(chunk, registry)).len() == if d.transparent { 72int } else { 60int },
{
    let c0 = cell_of(0);
    let c1 = cell_of(256);
    assert(c0 == GridPos { x: 0, y: 0, z: 0 });
    assert(c1 == GridPos { x: 1, y: 0, z: 0 });
    assert forall|i: int| (1 <= i < 256 || 257 <= i < 4096) implies #[trigger] drawn_uv(chunk, registry, cell_of(i)) is None by {
        lemma_cell_of(i);
        let c = cell_of(i);
        assert(chunk.voxel(c.x as int, c.y as int, c.z as int) == 0);
    }
    lemma_skip_undrawn(chunk, registry, 1, 256);
    lemma_skip_undrawn(chunk, registry, 257, 4096);
    assert(quads_before(chunk, registry, 0) == Seq::<Quad>::empty());
    assert(quads_before(chunk, registry, 1) =~= cell_quads(chunk, registry, c0));
    assert(quads_before(chunk, registry, 257) == quads_before(chunk, registry, 256) + cell_quads(chunk, registry, c1));
    assert(drawn_uv(chunk, registry, c0) == Some(d.uv_rect));
    assert(drawn_uv(chunk, registry, c1) == Some(d.uv_rect));
    let uv = d.uv_rect;
    // the neighbours of both blocks
    assert(spec_is_solid(chunk, (1, 0, 0), registry) == !d.transparent);
    assert(spec_is_solid(chunk, (0, 0, 0), registry) == !d.transparent);
    assert(!spec_is_solid(chunk, (0, 0, -1), registry));
    assert(!spec_is_solid(chunk, (-1, 0, 0), registry));
    assert(!spec_is_solid(chunk, (0, -1, 0), registry));
    assert(chunk.voxel(0, 0, 1) == 0);
    assert(chunk.voxel(0, 1, 0) == 0);
    assert(chunk.voxel(1, 0, 1) == 0);
    assert(chunk.voxel(1, 1, 0) == 0);
    assert(chunk.voxel(2, 0, 0) == 0);
    assert(!spec_is_solid(chunk, (0, 0, 1), registry));
    assert(!spec_is_solid(chunk, (0, 1, 0), registry));
    assert(!spec_is_solid(chunk, (1, 0, 1), registry));
    assert(!spec_is_solid(chunk, (1, 1, 0), registry));
    assert(!spec_is_solid(chunk, (2, 0, 0), registry));
    assert(!spec_is_solid(chunk, (1, 0, -1), registry));
    assert(!spec_is_solid(chunk, (1, -1, 0), registry));
    reveal_with_fuel(face_quads, 7);
    assert(face_quads(chunk, registry, c0, uv, 6).len() == if d.transparent { 6int } else { 5int });
    assert(face_quads(chunk, registry, c1, uv, 6).len() == if d.transparent { 6int } else { 5int });
    lemma_mesh_lengths(mesh_quads(chunk, registry));
}

/// Every face of a drawn block whose neighbour is not solid is in the
/// chunk's mesh, with the block's atlas rectangle. With
/// `lemma_chunk_mesh_sound`: a face is shown exactly when its block is drawn
/// and its neighbour is not solid.
pub proof fn lemma_visible_face_in_mesh(chunk: Chunk, registry: BlockRegistry, cell: GridPos, f: int, uv: UvRect)
    requires
        0 <= cell.x < 16,
        0 <= cell.y < 16,
        0 <= cell.z < 16,
        0 <= f < 6,
        drawn_uv(chunk, registry, cell) == Some(uv),
        !spec_is_solid(chunk, neighbour(cell, spec_face_at(f)), registry),
    ensures
        mesh_quads(chunk, registry).contains(Quad { cell, face: spec_face_at(f), uv }),
{
    let i = 256 * cell.x + 16 * cell.y + cell.z;
    assert(cell_of(i) == cell);
    let q = Quad { cell, face: spec_face_at(f), uv };
    lemma_face_quads_contains(chunk, registry, cell, uv, 6, f);
    assert(cell_quads(chunk, registry, cell).contains(q));
    let cq = cell_quads(chunk, registry, cell);
    let k = choose|k: int| 0 <= k < cq.len() && cq[k] == q;
    let before = quads_before(chunk, registry, i);
    assert(quads_before(chunk, registry, i + 1) == before + cq);
    assert(quads_before(chunk, registry, i + 1)[before.len() + k] == q);
    assert(quads_before(chunk, registry, i + 1).contains(q));
    lemma_quads_before_keeps(chunk, registry, i + 1, CHUNK_VOLUME as int, q);
}

proof fn lemma_face_quads_contains(chunk: Chunk, registry: BlockRegistry, cell: GridPos, uv: UvRect, n: int, f: int)
    requires
        0 <= f < n,
        !spec_is_solid(chunk, neighbour(cell, spec_face_at(f)), registry),
    ensures
        face_quads(chunk, registry, cell, uv, n).contains(Quad { cell, face: spec_face_at(f), uv }),
    decreases n,
{
    let q = Quad { cell, face: spec_face_at(f), uv };
    let fq = face_quads(chunk, registry, cell, uv, n);
    if f == n - 1 {
        assert(fq[fq.len() - 1] == q);
    } else {
        lemma_face_quads_contains(chunk, registry, cell, uv, n - 1, f);
        let prev = face_quads(chunk, registry, cell, uv, n - 1);
        let k = choose|k: int| 0 <= k < prev.len() && prev[k] == q;
        assert(fq[k] == q);
    }
}

proof fn lemma_quads_before_keeps(chunk: Chunk, registry: BlockRegistry, a: int, b: int, q: Quad)
    requires
        0 <= a <= b,
        quads_before(chunk, registry, a).contains(q),
    ensures
        quads_before(chunk, registry, b).contains(q),
    decreases b - a,
{
    if b > a {
        lemma_quads_before_keeps(chunk, registry, a, b - 1, q);
        let prev = quads_before(chunk, registry, b - 1);
        let k = choose|k: int| 0 <= k < prev.len() && prev[k] == q;
        assert(quads_before(chunk, registry, b)[k] == q);
    }
}


/// Cross product of two integer vectors.
pub open spec fn cross(a: (int, int, int), b: (int, int, int)) -> (int, int, int) {
    (a.1 * b.2 - a.2 * b.1, a.2 * b.0 - a.0 * b.2, a.0 * b.1 - a.1 * b.0)
}

/// Difference of two integer vectors.
pub open spec fn minus(a: (int, int, int), b: (int, int, int)) -> (int, int, int) {
    (a.0 - b.0, a.1 - b.1, a.2 - b.2)
}

/// The normal of a face, as integers.
pub open spec fn normal_of(face: VoxelFace) -> (int, int, int) {
    let n = face_normal(face);
    (n.0 as int, n.1 as int, n.2 as int)
}

/// The geometry of the six faces of the unit cube:
/// - each face is hidden by the neighbour on its outward side: the direction
///   to that neighbour is the face's normal;
/// - the normal is a unit vector along one axis;
/// - each corner is a corner of the unit cube lying on the side the normal
///   points to (coordinate 1 along a positive normal, 0 along a negative);
/// - the four corners are distinct, and the first triangle of the quad,
///   corners 0, 2, 1 as the mesh indexes them, faces along the normal.
pub proof fn lemma_face_geometry(f: int)
    requires
        0 <= f < 6,
    ensures
        ({
            let face = spec_face_at(f);
            let n = normal_of(face);
            &&& face_offset(face) == n
            &&& n.0 * n.0 + n.1 * n.1 + n.2 * n.2 == 1
            &&& forall|j: int| 0 <= j < 4 ==> {
                let c = #[trigger] face_corner(face, j);
                &&& 0 <= c.0 <= 1 && 0 <= c.1 <= 1 && 0 <= c.2 <= 1
                &&& c.0 * n.0 + c.1 * n.1 + c.2 * n.2 == if n.0 + n.1 + n.2 > 0 { 1int } else { 0int }
            }
            &&& forall|j: int, k: int| 0 <= j < 4 && 0 <= k < 4 && j != k ==> #[trigger] face_corner(face, j)
                != #[trigger] face_corner(face, k)
            &&& cross(minus(face_corner(face, 2), face_corner(face, 0)), minus(face_corner(face, 1), face_corner(face, 0))) == n
        }),
{
    let face = spec_face_at(f);
    let n = normal_of(face);
    assert(face_offset(face) == n);
    assert(n == (0int, 0int, -1int) || n == (1int, 0int, 0int) || n == (0int, 0int, 1int) || n == (-1int, 0int, 0int)
        || n == (0int, 1int, 0int) || n == (0int, -1int, 0int));
    assert(n.0 * n.0 + n.1 * n.1 + n.2 * n.2 == 1) by (nonlinear_arith)
        requires
            n == (0int, 0int, -1int) || n == (1int, 0int, 0int) || n == (0int, 0int, 1int) || n == (-1int, 0int, 0int)
                || n == (0int, 1int, 0int) || n == (0int, -1int, 0int),
    ;
    assert forall|j: int| 0 <= j < 4 implies {
        let c = #[trigger] face_corner(face, j);
        &&& 0 <= c.0 <= 1 && 0 <= c.1 <= 1 && 0 <= c.2 <= 1
        &&& c.0 * n.0 + c.1 * n.1 + c.2 * n.2 == if n.0 + n.1 + n.2 > 0 { 1int } else { 0int }
    } by {
        if j == 0 {} else if j == 1 {} else if j == 2 {} else {}
    }
    assert forall|j: int, k: int| 0 <= j < 4 && 0 <= k < 4 && j != k implies #[trigger] face_corner(face, j)
        != #[trigger] face_corner(face, k) by {
        if j == 0 {} else if j == 1 {} else if j == 2 {} else {}
    }
    let c0 = face_corner(face, 0);
    let c1 = face_corner(face, 1);
    let c2 = face_corner(face, 2);
    let a = minus(c2, c0);
    let b = minus(c1, c0);
    if f == 0 {
        assert(a == (1int, 1int, 0int) && b == (1int, 0int, 0int));
    } else if f == 1 {
        assert(a == (0int, 1int, 1int) && b == (0int, 0int, 1int));
    } else if f == 2 {
        assert(a == (-1int, 1int, 0int) && b == (-1int, 0int, 0int));
    } else if f == 3 {
        assert(a == (0int, 1int, -1int) && b == (0int, 0int, -1int));
    } else if f == 4 {
        assert(a == (1int, 0int, 1int) && b == (1int, 0int, 0int));
    } else {
        assert(a == (1int, 0int, -1int) && b == (1int, 0int, 0int));
    }
    assert(cross(a, b) == n) by (nonlinear_arith)
        requires
            (a == (1int, 1int, 0int) && b == (1int, 0int, 0int) && n == (0int, 0int, -1int))
            || (a == (0int, 1int, 1int) && b == (0int, 0int, 1int) && n == (1int, 0int, 0int))
            || (a == (-1int, 1int, 0int) && b == (-1int, 0int, 0int) && n == (0int, 0int, 1int))
            || (a == (0int, 1int, -1int) && b == (0int, 0int, -1int) && n == (-1int, 0int, 0int))
            || (a == (1int, 0int, 1int) && b == (1int, 0int, 0int) && n == (0int, 1int, 0int))
            || (a == (1int, 0int, -1int) && b == (1int, 0int, 0int) && n == (0int, -1int, 0int)),
    ;
}

/// The six faces look in six different directions.
pub proof fn lemma_faces_distinct(f: int, g: int)
    requires
        0 <= f < 6,
        0 <= g < 6,
        f != g,
    ensures
        normal_of(spec_face_at(f)) != normal_of(spec_face_at(g)),
{
}

/// Each vertex of a face of the block at `offset` is a corner of that
/// block, on the side its normal points to: one unit above `offset` along a
/// positive normal, level with it along a negative one.
pub proof fn lemma_face_vertex_on_face(f: int, offset: GridPos, j: int)
    requires
        0 <= f < 6,
        0 <= j < 4,
        offset.x < i32::MAX,
        offset.y < i32::MAX,
        offset.z < i32::MAX,
    ensures
        ({
            let face = spec_face_at(f);
            let n = normal_of(face);
            let v = face_vertex(face, offset, j);
            &&& offset.x <= v.0 <= offset.x + 1
            &&& offset.y <= v.1 <= offset.y + 1
            &&& offset.z <= v.2 <= offset.z + 1
            &&& (v.0 - offset.x) * n.0 + (v.1 - offset.y) * n.1 + (v.2 - offset.z) * n.2 == if n.0 + n.1 + n.2 > 0 {
                1int
            } else {
                0int
            }
        }),
{
    lemma_face_geometry(f);
    let face = spec_face_at(f);
    let c = face_corner(face, j);
    let v = face_vertex(face, offset, j);
    assert(v.0 == offset.x + c.0 && v.1 == offset.y + c.1 && v.2 == offset.z + c.2);
}

/// A chunk mesh holds a face of a drawn block exactly when the block one
/// step along the face's normal is not solid (outside the chunk counts as
/// not solid).
pub proof fn lemma_mesh_faces_by_normal(chunk: Chunk, registry: BlockRegistry, cell: GridPos, f: int)
    requires
        0 <= cell.x < 16,
        0 <= cell.y < 16,
        0 <= cell.z < 16,
        0 <= f < 6,
        drawn_uv(chunk, registry, cell) is Some,
    ensures
        ({
            let face = spec_face_at(f);
            let n = normal_of(face);
            let q = Quad { cell, face, uv: drawn_uv(chunk, registry, cell)->0 };
            mesh_quads(chunk, registry).contains(q) == !spec_is_solid(
                chunk,
                (cell.x + n.0, cell.y + n.1, cell.z + n.2),
                registry,
            )
        }),
{
    let face = spec_face_at(f);
    let uv = drawn_uv(chunk, registry, cell)->0;
    let q = Quad { cell, face, uv };
    lemma_face_geometry(f);
    assert(neighbour(cell, face) == (cell.x + normal_of(face).0, cell.y + normal_of(face).1, cell.z + normal_of(face).2));
    if !spec_is_solid(chunk, neighbour(cell, face), registry) {
        lemma_visible_face_in_mesh(chunk, registry, cell, f, uv);
    }
    if mesh_quads(chunk, registry).contains(q) {
        lemma_chunk_mesh_sound(chunk, registry);
        let k = choose|k: int| 0 <= k < mesh_quads(chunk, registry).len() && mesh_quads(chunk, registry)[k] == q;
        assert(!spec_is_solid(chunk, neighbour(q.cell, q.face), registry));
    }
}

} // verus!
