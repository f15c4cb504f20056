//! The voxel world: grid coordinates, chunks, and block reads and writes.
use vstd::prelude::*;
use crate::blockdefs::BlockId;
use crate::entity_map::{
    EntityMap, PosKey, entity_map_contents, entity_map_new, entity_map_insert, entity_map_get,
};

pub mod collision;
pub mod meshing;

pub use meshing::generate_chunk_mesh;

verus! {

/// Edge length of a cubic chunk, in blocks.
pub const CHUNK_SIZE: usize = 16;

/// A position on the integer grid: a block, a chunk, or a block inside a chunk.
#[derive(Clone, Copy, Debug, PartialEq, Eq, Hash, Structural)]
pub struct GridPos {
    pub x: i32,
    pub y: i32,
    pub z: i32,
}

/// Position of a block in the world.
pub type BlockPos = GridPos;

/// Position of a chunk on the chunk grid.
pub type ChunkPos = GridPos;

/// Position of a block relative to the corner of its chunk.
pub type LocalChunkPos = GridPos;

impl GridPos {
    /// A position from its three coordinates.
    pub fn new(x: i32, y: i32, z: i32) -> (p: GridPos)
        ensures
            p == (GridPos { x, y, z }),
    {
        GridPos { x, y, z }
    }

    /// The position as a map key.
    pub open spec fn key(self) -> PosKey {
        (self.x, self.y, self.z)
    }

    /// The position as a map key.
    pub fn to_key(self) -> (k: PosKey)
        ensures
            k == self.key(),
    {
        (self.x, self.y, self.z)
    }

    /// The position that a map key stands for.
    pub fn from_key(k: PosKey) -> (p: GridPos)
        ensures
            p.key() == k,
    {
        GridPos { x: k.0, y: k.1, z: k.2 }
    }
}

/// Floor division of a coordinate by the chunk size.
pub open spec fn chunk_coord(v: int) -> int {
    v / (CHUNK_SIZE as int)
}

/// Remainder of a coordinate after floor division by the chunk size.
pub open spec fn local_coord(v: int) -> int {
    v % (CHUNK_SIZE as int)
}

/// The chunk that holds a block.
pub open spec fn spec_block_to_chunk(p: BlockPos) -> ChunkPos {
    GridPos {
        x: chunk_coord(p.x as int) as i32,
        y: chunk_coord(p.y as int) as i32,
        z: chunk_coord(p.z as int) as i32,
    }
}

/// A block's position inside its chunk.
pub open spec fn spec_block_to_chunk_local(p: BlockPos) -> LocalChunkPos {
    GridPos {
        x: local_coord(p.x as int) as i32,
        y: local_coord(p.y as int) as i32,
        z: local_coord(p.z as int) as i32,
    }
}

/// Whether a local position lies inside a chunk.
pub open spec fn in_chunk(p: LocalChunkPos) -> bool {
    &&& 0 <= p.x < CHUNK_SIZE as int
    &&& 0 <= p.y < CHUNK_SIZE as int
    &&& 0 <= p.z < CHUNK_SIZE as int
}

/// A block's position inside its chunk (remainder of floor division by the
/// chunk size, on each axis).
pub fn block_to_chunk_local(block_pos: BlockPos) -> (local: LocalChunkPos)
    ensures
        local == spec_block_to_chunk_local(block_pos),
        in_chunk(local),
{
    let size: i32 = 16;
    GridPos {
        x: block_pos.x.checked_rem_euclid(size).unwrap(),
        y: block_pos.y.checked_rem_euclid(size).unwrap(),
        z: block_pos.z.checked_rem_euclid(size).unwrap(),
    }
}

/// The chunk that holds a block (floor division by the chunk size, on each
/// axis).
pub fn block_to_chunk(block_pos: BlockPos) -> (chunk_pos: ChunkPos)
    ensures
        chunk_pos == spec_block_to_chunk(block_pos),
{
    let size: i32 = 16;
    GridPos {
        x: block_pos.x.checked_div_euclid(size).unwrap(),
        y: block_pos.y.checked_div_euclid(size).unwrap(),
        z: block_pos.z.checked_div_euclid(size).unwrap(),
    }
}

/// Whether a chunk's corner block has coordinates that fit in `i32`.
pub open spec fn chunk_origin_fits(c: ChunkPos) -> bool {
    &&& i32::MIN <= c.x * (CHUNK_SIZE as int) <= i32::MAX
    &&& i32::MIN <= c.y * (CHUNK_SIZE as int) <= i32::MAX
    &&& i32::MIN <= c.z * (CHUNK_SIZE as int) <= i32::MAX
}

/// The block at the lowest corner of a chunk.
pub fn chunk_to_block(chunk_pos: ChunkPos) -> (block_pos: BlockPos)
    requires
        chunk_origin_fits(chunk_pos),
    ensures
        block_pos.x == chunk_pos.x * (CHUNK_SIZE as int),
        block_pos.y == chunk_pos.y * (CHUNK_SIZE as int),
        block_pos.z == chunk_pos.z * (CHUNK_SIZE as int),
{
    let size: i32 = 16;
    GridPos { x: chunk_pos.x * size, y: chunk_pos.y * size, z: chunk_pos.z * size }
}

/// Every block lies in its chunk at its local position: the chunk's corner
/// plus the local offset gives the block back, and the offset is inside the
/// chunk.
pub proof fn lemma_block_decomposition(p: BlockPos)
    ensures
        spec_block_to_chunk(p).x * (CHUNK_SIZE as int) + spec_block_to_chunk_local(p).x == p.x,
        spec_block_to_chunk(p).y * (CHUNK_SIZE as int) + spec_block_to_chunk_local(p).y == p.y,
        spec_block_to_chunk(p).z * (CHUNK_SIZE as int) + spec_block_to_chunk_local(p).z == p.z,
        in_chunk(spec_block_to_chunk_local(p)),
{
}

/// A chunk's corner block lies in that chunk, at local position zero.
pub proof fn lemma_chunk_corner(c: ChunkPos)
    requires
        chunk_origin_fits(c),
    ensures
        ({
            let b = GridPos {
                x: (c.x * (CHUNK_SIZE as int)) as i32,
                y: (c.y * (CHUNK_SIZE as int)) as i32,
                z: (c.z * (CHUNK_SIZE as int)) as i32,
            };
            spec_block_to_chunk(b) == c && spec_block_to_chunk_local(b) == GridPos { x: 0, y: 0, z: 0 }
        }),
{
}

/// The block ids of a chunk, indexed `[x][y][z]`.
pub type VoxelData = [[[BlockId; CHUNK_SIZE]; CHUNK_SIZE]; CHUNK_SIZE];

/// A chunk of blocks at a position on the chunk grid.
#[derive(Clone, Copy)]
pub struct Chunk {
    pub coord: ChunkPos,
    pub voxels: VoxelData,
}

/// The block id at `(x, y, z)` of a voxel array.
pub open spec fn voxel_of(v: VoxelData, x: int, y: int, z: int) -> BlockId {
    v@[x]@[y]@[z]
}

impl Chunk {
    /// The block id at local position `(x, y, z)`.
    pub open spec fn voxel(&self, x: int, y: int, z: int) -> BlockId {
        voxel_of(self.voxels, x, y, z)
    }

    /// The block id at a local position.
    pub fn get_voxel(&self, local_pos: LocalChunkPos) -> (id: BlockId)
        requires
            in_chunk(local_pos),
        ensures
            id == self.voxel(local_pos.x as int, local_pos.y as int, local_pos.z as int),
    {
        self.voxels[local_pos.x as usize][local_pos.y as usize][local_pos.z as usize]
    }

    /// Writes the block id at a local position; every other position keeps
    /// its block.
    pub fn set_voxel(&mut self, local_pos: LocalChunkPos, block_id: BlockId)
        requires
            in_chunk(local_pos),
        ensures
            final(self).coord == old(self).coord,
            forall|x: int, y: int, z: int|
                #![trigger final(self).voxel(x, y, z)]
                0 <= x < 16 && 0 <= y < 16 && 0 <= z < 16 ==> final(self).voxel(x, y, z) == if x == local_pos.x && y == local_pos.y && z
                    == local_pos.z {
                    block_id
                } else {
                    old(self).voxel(x, y, z)
                },
    {
        self.voxels[local_pos.x as usize][local_pos.y as usize][local_pos.z as usize] = block_id;
    }
}


/// A chunk entity together with the markers that ask for its mesh and its
/// collider to be rebuilt.
#[derive(Clone, Copy)]
pub struct ChunkEntry {
    pub entity: u64,
    pub chunk: Chunk,
    pub dirty_mesh: bool,
    pub dirty_collider: bool,
}

/// Whether some entry of `s` belongs to entity `e`.
pub open spec fn entity_listed(s: Seq<ChunkEntry>, e: u64) -> bool {
    exists|i: int| 0 <= i < s.len() && #[trigger] s[i].entity == e
}

/// No two entries of `s` belong to the same entity.
pub open spec fn entities_distinct(s: Seq<ChunkEntry>) -> bool {
    forall|i: int, j: int|
        0 <= i < s.len() && 0 <= j < s.len() && i != j ==> #[trigger] s[i].entity != #[trigger] s[j].entity
}

/// The entries of `s`, looked up by entity.
pub open spec fn entry_map(s: Seq<ChunkEntry>) -> Map<u64, ChunkEntry> {
    Map::new(
        |e: u64| entity_listed(s, e),
        |e: u64| s[choose|i: int| 0 <= i < s.len() && #[trigger] s[i].entity == e],
    )
}

/// With distinct entities, the entry map gives each entry back under its own
/// entity.
pub proof fn lemma_entry_map_index(s: Seq<ChunkEntry>, i: int)
    requires
        entities_distinct(s),
        0 <= i < s.len(),
    ensures
        entry_map(s).dom().contains(s[i].entity),
        entry_map(s)[s[i].entity] == s[i],
{
    assert(entity_listed(s, s[i].entity));
    let j = choose|j: int| 0 <= j < s.len() && #[trigger] s[j].entity == s[i].entity;
    assert(s[j].entity == s[i].entity);
}

/// Two entry lists whose entries belong to the same entities, position by
/// position, list the same entities.
pub proof fn lemma_entry_map_same_entities(s0: Seq<ChunkEntry>, s1: Seq<ChunkEntry>)
    requires
        s0.len() == s1.len(),
        forall|j: int| 0 <= j < s0.len() ==> #[trigger] s1[j].entity == s0[j].entity,
    ensures
        entry_map(s1).dom() == entry_map(s0).dom(),
{
    assert forall|e: u64| entry_map(s1).dom().contains(e) == entry_map(s0).dom().contains(e) by {
        if entry_map(s0).dom().contains(e) {
            let j = choose|j: int| 0 <= j < s0.len() && #[trigger] s0[j].entity == e;
            assert(s1[j].entity == e);
        }
        if entry_map(s1).dom().contains(e) {
            let j = choose|j: int| 0 <= j < s1.len() && #[trigger] s1[j].entity == e;
            assert(s0[j].entity == e);
        }
    }
    assert(entry_map(s1).dom() =~= entry_map(s0).dom());
}


/// Chunk entities and their chunks, as the chunk components of the game's
/// entities hold them: each entity has at most one entry.
pub struct ChunkStore {
    entries: Vec<ChunkEntry>,
}

impl ChunkStore {
    #[verifier::type_invariant]
    spec fn distinct(self) -> bool {
        entities_distinct(self.entries@)
    }

    /// The entries, by entity.
    pub closed spec fn view(&self) -> Map<u64, ChunkEntry> {
        entry_map(self.entries@)
    }

    /// The entries in the order in which the store walks them.
    pub closed spec fn entry_seq(&self) -> Seq<ChunkEntry> {
        self.entries@
    }

    /// A store without entries.
    pub fn new() -> (s: ChunkStore)
        ensures
            s@ == Map::<u64, ChunkEntry>::empty(),
            s.entry_seq().len() == 0,
    {
        let s = ChunkStore { entries: Vec::new() };
        assert(s@ =~= Map::<u64, ChunkEntry>::empty());
        s
    }

    /// Index of the entry of `entity`, if there is one.
    fn position(&self, entity: u64) -> (r: Option<usize>)
        ensures
            match r {
                Some(i) => i < self.entries@.len() && self.entries@[i as int].entity == entity,
                None => !entity_listed(self.entries@, entity),
            },
    {
        let mut i: usize = 0;
        while i < self.entries.len()
            invariant
                i <= self.entries@.len(),
                forall|j: int| 0 <= j < i ==> self.entries@[j].entity != entity,
            decreases self.entries@.len() - i,
        {
            if self.entries[i].entity == entity {
                return Some(i);
            }
            i = i + 1;
        }
        None
    }

    /// The entry of `entity`.
    pub fn get(&self, entity: u64) -> (r: Option<&ChunkEntry>)
        ensures
            match r {
                Some(e) => self@.dom().contains(entity) && self@[entity] == *e,
                None => !self@.dom().contains(entity),
            },
    {
        proof {
            use_type_invariant(self);
        }
        match self.position(entity) {
            Some(i) => {
                proof {
                    lemma_entry_map_index(self.entries@, i as int);
                }
                Some(&self.entries[i])
            },
            None => None,
        }
    }

    /// Stores `entry` under its entity, in place of any entry that entity had.
    pub fn insert(&mut self, entry: ChunkEntry)
        ensures
            final(self)@ == old(self)@.insert(entry.entity, entry),
    {
        proof {
            use_type_invariant(&*self);
        }
        let ghost s0 = self.entries@;
        match self.position(entry.entity) {
            Some(i) => {
                let mut entries = Vec::new();
                std::mem::swap(&mut entries, &mut self.entries);
                entries[i] = entry;
                proof {
                    let s1 = entries@;
                    assert(s1 == s0.update(i as int, entry));
                    assert forall|e: u64| entity_listed(s1, e) == entity_listed(s0, e) by {
                        if entity_listed(s0, e) {
                            let j = choose|j: int| 0 <= j < s0.len() && #[trigger] s0[j].entity == e;
                            assert(s1[j].entity == e);
                        }
                        if entity_listed(s1, e) {
                            let j = choose|j: int| 0 <= j < s1.len() && #[trigger] s1[j].entity == e;
                            assert(s0[j].entity == e);
                        }
                    }
                    assert forall|e: u64| #[trigger] entity_listed(s1, e) implies entry_map(s1)[e]
                        == old(self)@.insert(entry.entity, entry)[e] by {
                        let j = choose|j: int| 0 <= j < s1.len() && #[trigger] s1[j].entity == e;
                        lemma_entry_map_index(s1, j);
                        if j != i {
                            lemma_entry_map_index(s0, j);
                        }
                    }
                    assert(entry_map(s1) =~= old(self)@.insert(entry.entity, entry));
                }
                self.entries = entries;
            },
            None => {
                let mut entries = Vec::new();
                std::mem::swap(&mut entries, &mut self.entries);
                entries.push(entry);
                proof {
                    let s1 = entries@;
                    assert(s1 == s0.push(entry));
                    assert forall|e: u64| #[trigger] entity_listed(s1, e) == (entity_listed(s0, e) || e == entry.entity) by {
                        if entity_listed(s0, e) {
                            let j = choose|j: int| 0 <= j < s0.len() && #[trigger] s0[j].entity == e;
                            assert(s1[j].entity == e);
                        }
                        if e == entry.entity {
                            assert(s1[s0.len() as int].entity == e);
                        }
                        if entity_listed(s1, e) {
                            let j = choose|j: int| 0 <= j < s1.len() && #[trigger] s1[j].entity == e;
                            if j < s0.len() {
                                assert(s0[j].entity == e);
                            }
                        }
                    }
                    assert(entities_distinct(s1)) by {
                        assert forall|a: int, b: int|
                            0 <= a < s1.len() && 0 <= b < s1.len() && a != b implies #[trigger] s1[a].entity
                            != #[trigger] s1[b].entity by {
                            if a == s0.len() as int {
                                assert(s0[b].entity == s1[b].entity);
                            } else if b == s0.len() as int {
                                assert(s0[a].entity == s1[a].entity);
                            }
                        }
                    }
                    assert forall|e: u64| #[trigger] entity_listed(s1, e) implies entry_map(s1)[e]
                        == old(self)@.insert(entry.entity, entry)[e] by {
                        let j = choose|j: int| 0 <= j < s1.len() && #[trigger] s1[j].entity == e;
                        lemma_entry_map_index(s1, j);
                        if j < s0.len() {
                            lemma_entry_map_index(s0, j);
                        }
                    }
                    assert(entry_map(s1) =~= old(self)@.insert(entry.entity, entry));
                }
                self.entries = entries;
            },
        }
    }

    /// Removes the entry of `entity`; returns whether there was one.
    pub fn remove(&mut self, entity: u64) -> (removed: bool)
        ensures
            removed == old(self)@.dom().contains(entity),
            final(self)@ == old(self)@.remove(entity),
    {
        proof {
            use_type_invariant(&*self);
        }
        let ghost s0 = self.entries@;
        match self.position(entity) {
            Some(i) => {
                let mut entries = Vec::new();
                std::mem::swap(&mut entries, &mut self.entries);
                entries.remove(i);
                proof {
                    let s1 = entries@;
                    assert(s1 == s0.remove(i as int));
                    assert forall|k: int| 0 <= k < s1.len() implies #[trigger] s1[k] == s0[if k < i { k } else { k + 1 }] by {}
                    assert(entities_distinct(s1)) by {
                        assert forall|a: int, b: int|
                            0 <= a < s1.len() && 0 <= b < s1.len() && a != b implies #[trigger] s1[a].entity
                            != #[trigger] s1[b].entity by {
                            let a0 = if a < i { a } else { a + 1 };
                            let b0 = if b < i { b } else { b + 1 };
                            assert(s1[a] == s0[a0]);
                            assert(s1[b] == s0[b0]);
                        }
                    }
                    assert forall|e: u64| #[trigger] entity_listed(s1, e) == (entity_listed(s0, e) && e != entity) by {
                        if entity_listed(s0, e) && e != entity {
                            let j = choose|j: int| 0 <= j < s0.len() && #[trigger] s0[j].entity == e;
                            assert(j != i);
                            let j1 = if j < i { j } else { j - 1 };
                            assert(s1[j1] == s0[j]);
                        }
                        if entity_listed(s1, e) {
                            let j = choose|j: int| 0 <= j < s1.len() && #[trigger] s1[j].entity == e;
                            let j0 = if j < i { j } else { j + 1 };
                            assert(s1[j] == s0[j0]);
                            assert(j0 != i);
                        }
                    }
                    assert forall|e: u64| #[trigger] entity_listed(s1, e) implies entry_map(s1)[e]
                        == old(self)@.remove(entity)[e] by {
                        let j = choose|j: int| 0 <= j < s1.len() && #[trigger] s1[j].entity == e;
                        let j0 = if j < i { j } else { j + 1 };
                        assert(s1[j] == s0[j0]);
                        lemma_entry_map_index(s1, j);
                        lemma_entry_map_index(s0, j0);
                    }
                    assert(entry_map(s1) =~= old(self)@.remove(entity));
                    lemma_entry_map_index(s0, i as int);
                }
                self.entries = entries;
                true
            },
            None => {
                proof {
                    assert(entry_map(s0) =~= entry_map(s0).remove(entity));
                }
                false
            },
        }
    }
}


/// `after` is `before` with the block at `local` set to `block_id` and both
/// rebuild markers set.
pub open spec fn voxel_written(before: ChunkEntry, after: ChunkEntry, local: LocalChunkPos, block_id: BlockId) -> bool {
    &&& after.entity == before.entity
    &&& after.chunk.coord == before.chunk.coord
    &&& after.dirty_mesh
    &&& after.dirty_collider
    &&& forall|x: int, y: int, z: int|
        #![trigger after.chunk.voxel(x, y, z)]
        0 <= x < 16 && 0 <= y < 16 && 0 <= z < 16 ==> after.chunk.voxel(x, y, z) == if x == local.x
            && y == local.y && z == local.z {
            block_id
        } else {
            before.chunk.voxel(x, y, z)
        }
}

impl ChunkStore {
    /// Writes a block into the chunk of `entity` and marks its mesh and
    /// collider for rebuilding; returns whether the entity has a chunk.
    pub fn write_voxel(&mut self, entity: u64, local_pos: LocalChunkPos, block_id: BlockId) -> (written: bool)
        requires
            in_chunk(local_pos),
        ensures
            written == old(self)@.dom().contains(entity),
            !written ==> final(self)@ == old(self)@,
            written ==> final(self)@ == old(self)@.insert(entity, final(self)@[entity]),
            written ==> voxel_written(old(self)@[entity], final(self)@[entity], local_pos, block_id),
    {
        let found = match self.get(entity) {
            Some(e) => Some(*e),
            None => None,
        };
        match found {
            None => false,
            Some(e) => {
                let mut updated = e;
                updated.chunk.set_voxel(local_pos, block_id);
                updated.dirty_mesh = true;
                updated.dirty_collider = true;
                self.insert(updated);
                true
            },
        }
    }
}

/// Chunk positions and the entities that hold their chunks.
pub struct ChunkMap {
    pub chunks: EntityMap,
}

impl ChunkMap {
    /// The entity recorded for each chunk position.
    pub open spec fn view(&self) -> Map<PosKey, u64> {
        entity_map_contents(self.chunks)
    }

    /// A map without chunks.
    pub fn new() -> (m: ChunkMap)
        ensures
            m@.dom() == Set::<PosKey>::empty(),
    {
        ChunkMap { chunks: entity_map_new() }
    }

    /// The entity recorded for a chunk position.
    pub fn get(&self, chunk_pos: ChunkPos) -> (r: Option<u64>)
        ensures
            r == self@.get(chunk_pos.key()),
    {
        entity_map_get(&self.chunks, chunk_pos.to_key())
    }

    /// Records the entity of a chunk position, replacing any earlier one.
    pub fn insert(&mut self, chunk_pos: ChunkPos, entity: u64)
        ensures
            final(self)@ == old(self)@.insert(chunk_pos.key(), entity),
    {
        entity_map_insert(&mut self.chunks, chunk_pos.to_key(), entity);
    }
}

impl Default for ChunkMap {
    fn default() -> (m: ChunkMap)
        ensures
            m@.dom() == Set::<PosKey>::empty(),
    {
        ChunkMap::new()
    }
}

/// The blocks of the world: which entity holds the chunk at each chunk
/// position, and the chunk that each entity holds.
pub struct VoxelWorld {
    pub chunk_map: ChunkMap,
    pub chunks: ChunkStore,
}

impl VoxelWorld {
    /// An empty world.
    pub fn new() -> (w: VoxelWorld)
        ensures
            w.chunk_map@.dom() == Set::<PosKey>::empty(),
            w.chunks@ == Map::<u64, ChunkEntry>::empty(),
    {
        VoxelWorld { chunk_map: ChunkMap::new(), chunks: ChunkStore::new() }
    }

    /// The entity recorded for the chunk that holds `block_pos`.
    pub open spec fn chunk_entity(&self, block_pos: BlockPos) -> Option<u64> {
        self.chunk_map@.get(spec_block_to_chunk(block_pos).key())
    }

    /// What `get_block` returns: the block at `block_pos`, if its chunk is
    /// recorded and its entity holds a chunk.
    pub open spec fn spec_get_block(&self, block_pos: BlockPos) -> Option<BlockId> {
        match self.chunk_entity(block_pos) {
            None => None,
            Some(e) => if self.chunks@.dom().contains(e) {
                let l = spec_block_to_chunk_local(block_pos);
                Some(self.chunks@[e].chunk.voxel(l.x as int, l.y as int, l.z as int))
            } else {
                None
            },
        }
    }

    /// The block at a world position.
    pub fn get_block(&self, block_pos: BlockPos) -> (r: Option<BlockId>)
        ensures
            r == self.spec_get_block(block_pos),
    {
        let chunk_pos = block_to_chunk(block_pos);
        let chunk_local_pos = block_to_chunk_local(block_pos);
        let chunk_entity = self.chunk_map.get(chunk_pos)?;
        let entry = self.chunks.get(chunk_entity)?;
        Some(entry.chunk.get_voxel(chunk_local_pos))
    }

    /// Writes the block at a world position and marks its chunk's mesh and
    /// collider for rebuilding. Returns whether the position's chunk is
    /// present; when it is not, nothing changes. A later read at the same
    /// position gives the written block; a read elsewhere gives what it gave
    /// before, unless it reaches the same block of the same entity's chunk.
    pub fn set_block(&mut self, block_pos: BlockPos, block_id: BlockId) -> (written: bool)
        ensures
            written == old(self).spec_get_block(block_pos) is Some,
            final(self).chunk_map@ == old(self).chunk_map@,
            !written ==> final(self).chunks@ == old(self).chunks@,
            written ==> ({
                let e = old(self).chunk_entity(block_pos)->0;
                &&& final(self).chunks@ == old(self).chunks@.insert(e, final(self).chunks@[e])
                &&& voxel_written(old(self).chunks@[e], final(self).chunks@[e],
                    spec_block_to_chunk_local(block_pos), block_id)
            }),
            written ==> final(self).spec_get_block(block_pos) == Some(block_id),
            forall|q: BlockPos| #[trigger] final(self).spec_get_block(q) == if written
                && old(self).chunk_entity(q) == old(self).chunk_entity(block_pos)
                && spec_block_to_chunk_local(q) == spec_block_to_chunk_local(block_pos) {
                Some(block_id)
            } else {
                old(self).spec_get_block(q)
            },
    {
        let chunk_pos = block_to_chunk(block_pos);
        let chunk_local_pos = block_to_chunk_local(block_pos);
        let chunk_entity = match self.chunk_map.get(chunk_pos) {
            Some(e) => e,
            None => {
                return false;
            },
        };
        let written = self.chunks.write_voxel(chunk_entity, chunk_local_pos, block_id);
        proof {
            assert forall|q: BlockPos| #[trigger] self.spec_get_block(q) == if written
                && old(self).chunk_entity(q) == old(self).chunk_entity(block_pos)
                && spec_block_to_chunk_local(q) == spec_block_to_chunk_local(block_pos) {
                Some(block_id)
            } else {
                old(self).spec_get_block(q)
            } by {
                let lq = spec_block_to_chunk_local(q);
                lemma_block_decomposition(q);
                if written {
                    let lp = spec_block_to_chunk_local(block_pos);
                    assert(self.chunks@[chunk_entity].chunk.voxel(lq.x as int, lq.y as int, lq.z as int)
                        == if lq.x == lp.x && lq.y == lp.y && lq.z == lp.z { block_id } else {
                        old(self).chunks@[chunk_entity].chunk.voxel(lq.x as int, lq.y as int, lq.z as int)
                    });
                }
            }
        }
        written
    }
}

/// Records a new chunk entity: the entity holds a chunk with `voxel_data`,
/// marked for mesh and collider rebuilding, and the chunk map points
/// `chunk_pos` at it. Returns the entity.
pub fn spawn_chunk(chunk_pos: ChunkPos, voxel_data: VoxelData, entity: u64, world: &mut VoxelWorld) -> (e: u64)
    ensures
        e == entity,
        final(world).chunk_map@ == old(world).chunk_map@.insert(chunk_pos.key(), entity),
        final(world).chunks@ == old(world).chunks@.insert(entity, ChunkEntry {
            entity,
            chunk: Chunk { coord: chunk_pos, voxels: voxel_data },
            dirty_mesh: true,
            dirty_collider: true,
        }),
        forall|p: BlockPos| spec_block_to_chunk(p) == chunk_pos ==> #[trigger] final(world).spec_get_block(p)
            == Some(voxel_of(voxel_data, spec_block_to_chunk_local(p).x as int,
                spec_block_to_chunk_local(p).y as int, spec_block_to_chunk_local(p).z as int)),
{
    world.chunks.insert(ChunkEntry {
        entity,
        chunk: Chunk { coord: chunk_pos, voxels: voxel_data },
        dirty_mesh: true,
        dirty_collider: true,
    });
    world.chunk_map.insert(chunk_pos, entity);
    entity
}

} // verus!
