//! The collision shape of a chunk: the cells of its solid blocks.
use vstd::prelude::*;
use crate::blockdefs::{BlockId, BlockRegistry};
use crate::voxels::{
    Chunk, ChunkEntry, ChunkStore, GridPos, entry_map, entities_distinct, lemma_entry_map_index,
    lemma_entry_map_same_entities,
};
use crate::voxels::meshing::{CHUNK_VOLUME, cell_of};

verus! {

/// Whether the block at `cell` collides: its id has a definition marked
/// solid. A block whose id has no definition does not collide.
pub open spec fn collides(chunk: Chunk, registry: BlockRegistry, cell: GridPos) -> bool {
    match registry.spec_get_def(chunk.voxel(cell.x as int, cell.y as int, cell.z as int)) {
        Some(def) => def.solid,
        None => false,
    }
}

/// The colliding cells among the first `n` blocks of the chunk walk (x
/// slowest, z fastest).
pub open spec fn solid_cells_before(chunk: Chunk, registry: BlockRegistry, n: int) -> Seq<(i32, i32, i32)>
    decreases n,
{
    if n <= 0 {
        Seq::empty()
    } else {
        let before = solid_cells_before(chunk, registry, n - 1);
        let cell = cell_of(n - 1);
        if collides(chunk, registry, cell) {
            before.push((cell.x, cell.y, cell.z))
        } else {
            before
        }
    }
}

/// Every colliding cell of the chunk, in walk order.
pub open spec fn solid_cells(chunk: Chunk, registry: BlockRegistry) -> Seq<(i32, i32, i32)> {
    solid_cells_before(chunk, registry, CHUNK_VOLUME as int)
}

/// The cells of a chunk's colliding blocks, in walk order.
pub fn solid_voxels(chunk: &Chunk, registry: &BlockRegistry) -> (cells: Vec<(i32, i32, i32)>)
    ensures
        cells@ == solid_cells(*chunk, *registry),
{
    let mut cells: Vec<(i32, i32, i32)> = Vec::new();
    let mut i: usize = 0;
    while i < CHUNK_VOLUME
        invariant
            i <= CHUNK_VOLUME,
            cells@ == solid_cells_before(*chunk, *registry, i as int),
        decreases CHUNK_VOLUME - i,
    {
        let x = i / 256;
        let y = (i / 16) % 16;
        let z = i % 16;
        let block_id: BlockId = chunk.voxels[x][y][z];
        match registry.get_def(block_id) {
            None => {},
            Some(def) => {
                if def.solid {
                    cells.push((x as i32, y as i32, z as i32));
                }
            },
        }
        i = i + 1;
    }
    cells
}

/// Clears every collider marker, and lists each entity that carried one
/// with the colliding cells of its chunk, in the store's order. An empty
/// list of cells means the entity is to lose its collider.
pub fn generate_chunk_collider(registry: &BlockRegistry, chunks: &mut ChunkStore) -> (rebuilt: Vec<(u64, Vec<(i32, i32, i32)>)>)
    ensures
        final(chunks)@.dom() == old(chunks)@.dom(),
        forall|e: u64| #[trigger] final(chunks)@.dom().contains(e) ==>
            final(chunks)@[e] == (ChunkEntry { dirty_collider: false, ..old(chunks)@[e] }),
        forall|k: int| #![trigger rebuilt@[k]] 0 <= k < rebuilt@.len() ==> {
            let e = rebuilt@[k].0;
            &&& old(chunks)@.dom().contains(e)
            &&& old(chunks)@[e].dirty_collider
            &&& rebuilt@[k].1@ == solid_cells(old(chunks)@[e].chunk, *registry)
        },
        forall|a: int, b: int| 0 <= a < rebuilt@.len() && 0 <= b < rebuilt@.len() && a != b ==>
            #[trigger] rebuilt@[a].0 != #[trigger] rebuilt@[b].0,
        forall|e: u64| old(chunks)@.dom().contains(e) && #[trigger] old(chunks)@[e].dirty_collider ==>
            exists|k: int| 0 <= k < rebuilt@.len() && #[trigger] rebuilt@[k].0 == e,
{
    proof {
        use_type_invariant(&*chunks);
    }
    let mut entries = Vec::new();
    std::mem::swap(&mut entries, &mut chunks.entries);
    let ghost s0 = entries@;
    let mut rebuilt: Vec<(u64, Vec<(i32, i32, i32)>)> = Vec::new();
    let ghost mut idx: Seq<int> = Seq::empty();
    let mut i: usize = 0;
    while i < entries.len()
        invariant
            entities_distinct(s0),
            entry_map(s0) == old(chunks)@,
            i <= entries@.len(),
            entries@.len() == s0.len(),
            forall|j: int| 0 <= j < i ==> #[trigger] entries@[j] == (ChunkEntry { dirty_collider: false, ..s0[j] }),
            forall|j: int| i <= j < s0.len() ==> #[trigger] entries@[j] == s0[j],
            idx.len() == rebuilt@.len(),
            forall|k: int| #![trigger idx[k]] 0 <= k < idx.len() ==> {
                &&& 0 <= idx[k] < i
                &&& s0[idx[k]].dirty_collider
                &&& rebuilt@[k].0 == s0[idx[k]].entity
                &&& rebuilt@[k].1@ == solid_cells(s0[idx[k]].chunk, *registry)
            },
            forall|a: int, b: int| 0 <= a < b < idx.len() ==> #[trigger] idx[a] < #[trigger] idx[b],
            forall|j: int| 0 <= j < i && #[trigger] s0[j].dirty_collider ==> exists|k: int|
                0 <= k < idx.len() && #[trigger] idx[k] == j,
        decreases s0.len() - i,
    {
        let entry = entries[i];
        let ghost idx0 = idx;
        if entry.dirty_collider {
            let cells = solid_voxels(&entry.chunk, registry);
            rebuilt.push((entry.entity, cells));
            proof {
                idx = idx.push(i as int);
            }
            let mut cleared = entry;
            cleared.dirty_collider = false;
            entries[i] = cleared;
        }
        proof {
            assert forall|j: int| 0 <= j < i + 1 && #[trigger] s0[j].dirty_collider implies exists|k: int|
                0 <= k < idx.len() && #[trigger] idx[k] == j by {
                if j == i {
                    assert(idx[idx.len() - 1] == j);
                } else {
                    let k = choose|k: int| 0 <= k < idx0.len() && #[trigger] idx0[k] == j;
                    assert(idx[k] == j);
                }
            }
        }
        i = i + 1;
    }
    proof {
        let s1 = entries@;
        assert(entities_distinct(s1)) by {
            assert forall|a: int, b: int|
                0 <= a < s1.len() && 0 <= b < s1.len() && a != b implies #[trigger] s1[a].entity
                != #[trigger] s1[b].entity by {
                assert(s1[a].entity == s0[a].entity);
                assert(s1[b].entity == s0[b].entity);
            }
        }
        lemma_entry_map_same_entities(s0, s1);
        assert forall|e: u64| #[trigger] entry_map(s1).dom().contains(e) implies entry_map(s1)[e]
            == (ChunkEntry { dirty_collider: false, ..entry_map(s0)[e] }) by {
            let j = choose|j: int| 0 <= j < s1.len() && #[trigger] s1[j].entity == e;
            lemma_entry_map_index(s1, j);
            lemma_entry_map_index(s0, j);
        }
        assert forall|k: int| #![trigger rebuilt@[k]] 0 <= k < rebuilt@.len() implies {
            let e = rebuilt@[k].0;
            &&& entry_map(s0).dom().contains(e)
            &&& entry_map(s0)[e].dirty_collider
            &&& rebuilt@[k].1@ == solid_cells(entry_map(s0)[e].chunk, *registry)
        } by {
            assert(0 <= idx[k] < s0.len());
            lemma_entry_map_index(s0, idx[k]);
        }
        assert forall|a: int, b: int| 0 <= a < rebuilt@.len() && 0 <= b < rebuilt@.len() && a != b implies
            #[trigger] rebuilt@[a].0 != #[trigger] rebuilt@[b].0 by {
            assert(idx[a] != idx[b]) by {
                if a < b { assert(idx[a] < idx[b]); } else { assert(idx[b] < idx[a]); }
            }
            assert(0 <= idx[a] < s0.len());
            assert(0 <= idx[b] < s0.len());
        }
        assert forall|e: u64| entry_map(s0).dom().contains(e) && #[trigger] entry_map(s0)[e].dirty_collider implies
            exists|k: int| 0 <= k < rebuilt@.len() && #[trigger] rebuilt@[k].0 == e by {
            let j = choose|j: int| 0 <= j < s0.len() && #[trigger] s0[j].entity == e;
            lemma_entry_map_index(s0, j);
            assert(s0[j].dirty_collider);
            let k = choose|k: int| 0 <= k < idx.len() && #[trigger] idx[k] == j;
            assert(rebuilt@[k].0 == e);
        }
    }
    chunks.entries = entries;
    rebuilt
}

/// Whether the definition of the block at `(x, y, z)` exists and is marked
/// solid.
pub open spec fn defined_solid(chunk: Chunk, registry: BlockRegistry, x: int, y: int, z: int) -> bool {
    match registry.spec_get_def(chunk.voxel(x, y, z)) {
        Some(def) => def.solid,
        None => false,
    }
}

proof fn lemma_solid_cells_before_exact(chunk: Chunk, registry: BlockRegistry, n: int)
    requires
        0 <= n <= CHUNK_VOLUME,
    ensures
        forall|k: int| 0 <= k < solid_cells_before(chunk, registry, n).len() ==> {
            let c = #[trigger] solid_cells_before(chunk, registry, n)[k];
            &&& 0 <= c.0 < 16 && 0 <= c.1 < 16 && 0 <= c.2 < 16
            &&& 256 * c.0 + 16 * c.1 + c.2 < n
            &&& defined_solid(chunk, registry, c.0 as int, c.1 as int, c.2 as int)
        },
        forall|i: int| 0 <= i < n && #[trigger] defined_solid(chunk, registry, cell_of(i).x as int, cell_of(i).y as int, cell_of(i).z as int)
            ==> solid_cells_before(chunk, registry, n).contains((cell_of(i).x, cell_of(i).y, cell_of(i).z)),
    decreases n,
{
    if n > 0 {
        lemma_solid_cells_before_exact(chunk, registry, n - 1);
        let before = solid_cells_before(chunk, registry, n - 1);
        let now = solid_cells_before(chunk, registry, n);
        let cell = cell_of(n - 1);
        crate::voxels::meshing::lemma_cell_of(n - 1);
        assert forall|k: int| 0 <= k < now.len() implies {
            let c = #[trigger] now[k];
            &&& 0 <= c.0 < 16 && 0 <= c.1 < 16 && 0 <= c.2 < 16
            &&& 256 * c.0 + 16 * c.1 + c.2 < n
            &&& defined_solid(chunk, registry, c.0 as int, c.1 as int, c.2 as int)
        } by {
            if k < before.len() {
                assert(now[k] == before[k]);
            }
        }
        assert forall|i: int| 0 <= i < n && #[trigger] defined_solid(chunk, registry, cell_of(i).x as int, cell_of(i).y as int, cell_of(i).z as int)
            implies now.contains((cell_of(i).x, cell_of(i).y, cell_of(i).z)) by {
            let t = (cell_of(i).x, cell_of(i).y, cell_of(i).z);
            if i < n - 1 {
                assert(before.contains(t));
                let k = choose|k: int| 0 <= k < before.len() && before[k] == t;
                assert(now[k] == t);
            } else {
                assert(now[now.len() - 1] == t);
            }
        }
    }
}

/// The collision cells of a chunk are exactly the cells inside it whose
/// block has a definition marked solid; a definition's `empty` and
/// `transparent` flags play no part, and an undefined id never collides.
pub proof fn lemma_solid_cells_exact(chunk: Chunk, registry: BlockRegistry)
    ensures
        forall|k: int| 0 <= k < solid_cells(chunk, registry).len() ==> {
            let c = #[trigger] solid_cells(chunk, registry)[k];
            &&& 0 <= c.0 < 16 && 0 <= c.1 < 16 && 0 <= c.2 < 16
            &&& match registry.spec_get_def(chunk.voxel(c.0 as int, c.1 as int, c.2 as int)) {
                Some(def) => def.solid,
                None => false,
            }
        },
        forall|x: i32, y: i32, z: i32|
            0 <= x < 16 && 0 <= y < 16 && 0 <= z < 16 && (match registry.spec_get_def(chunk.voxel(x as int, y as int, z as int)) {
                Some(def) => def.solid,
                None => false,
            }) ==> #[trigger] solid_cells(chunk, registry).contains((x, y, z)),
{
    lemma_solid_cells_before_exact(chunk, registry, CHUNK_VOLUME as int);
    assert forall|x: i32, y: i32, z: i32|
        0 <= x < 16 && 0 <= y < 16 && 0 <= z < 16 && (match registry.spec_get_def(chunk.voxel(x as int, y as int, z as int)) {
            Some(def) => def.solid,
            None => false,
        }) implies #[trigger] solid_cells(chunk, registry).contains((x, y, z)) by {
        let i = 256 * x + 16 * y + z;
        assert(cell_of(i) == GridPos { x, y, z });
        assert(defined_solid(chunk, registry, cell_of(i).x as int, cell_of(i).y as int, cell_of(i).z as int));
    }
}

/// Two registries that agree, id by id, on which ids have a definition and
/// on the definitions' `solid` flags give every chunk the same collision
/// cells, in the same order, whatever their other flags.
pub proof fn lemma_solid_cells_follow_solid_flag(chunk: Chunk, a: BlockRegistry, b: BlockRegistry, n: int)
    requires
        forall|id: BlockId| #[trigger] a.spec_get_def(id) is Some == b.spec_get_def(id) is Some,
        forall|id: BlockId| a.spec_get_def(id) is Some ==> #[trigger] a.spec_get_def(id)->0.solid == b.spec_get_def(id)->0.solid,
    ensures
        solid_cells_before(chunk, a, n) == solid_cells_before(chunk, b, n),
    decreases n,
{
    if n > 0 {
        lemma_solid_cells_follow_solid_flag(chunk, a, b, n - 1);
        let c = cell_of(n - 1);
        let id = chunk.voxel(c.x as int, c.y as int, c.z as int);
        assert(a.spec_get_def(id) is Some == b.spec_get_def(id) is Some);
        if a.spec_get_def(id) is Some {
            assert(a.spec_get_def(id)->0.solid == b.spec_get_def(id)->0.solid);
        }
        assert(collides(chunk, a, c) == collides(chunk, b, c));
    }
}

} // verus!
