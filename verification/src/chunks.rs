//! Loading and unloading chunks around chunk loaders.
use vstd::prelude::*;
use rand::RngExt;
use rand::rngs::ThreadRng;
use crate::blockdefs::BlockId;
use crate::entity_map::{
    EntityMap, PosKey, entity_map_contents, entity_map_new, entity_map_insert, entity_map_remove,
    entity_map_contains_key, entity_map_entries,
};
use crate::voxels::{CHUNK_SIZE, Chunk, ChunkEntry, ChunkPos, ChunkStore, GridPos, VoxelData, voxel_of};

verus! {

#[verifier::external_type_specification]
#[verifier::external_body]
pub struct ExThreadRng(ThreadRng);

/// `rand::rng`: a handle to the thread-local random number generator. It
/// panics only if the operating system's random source fails while seeding,
/// which no precondition can rule out; nothing is promised of its state.
#[verifier::external_body]
fn thread_rng() -> ThreadRng {
    rand::rng()
}

/// `RngExt::random_ratio`: true with probability `numerator / denominator`.
/// It panics on a ratio above one or a zero denominator, which `requires`
/// leaves out; the library draws only where both outcomes are possible, so
/// `requires` also leaves out the ratios 0 and 1. The outcome is left free:
/// it rests on chance.
#[verifier::external_body]
fn random_ratio(rng: &mut ThreadRng, numerator: u32, denominator: u32) -> bool
    requires
        0 < numerator < denominator,
{
    rng.random_ratio(numerator, denominator)
}

/// The block of the test terrain at local `(x, y, z)`, given the coin drawn
/// for it: blocks where `x & y & z` is 0 are id 2 or 3 by the coin, the
/// others id 1.
pub open spec fn spec_debug_voxel(x: usize, y: usize, z: usize, coin: bool) -> BlockId {
    if x & y & z == 0 {
        if coin { 2 } else { 3 }
    } else {
        1
    }
}

/// The block of the test terrain at local `(x, y, z)`, given the coin drawn
/// for it.
pub fn debug_voxel(x: usize, y: usize, z: usize, coin: bool) -> (id: BlockId)
    ensures
        id == spec_debug_voxel(x, y, z, coin),
{
    if (x & y & z) == 0 {
        if coin { 2 } else { 3 }
    } else {
        1
    }
}

/// What holds of every test-terrain block, whatever the coins gave.
pub open spec fn debug_terrain(v: VoxelData) -> bool {
    forall|x: usize, y: usize, z: usize|
        #![trigger voxel_of(v, x as int, y as int, z as int)]
        x < 16 && y < 16 && z < 16 ==> {
            let id = voxel_of(v, x as int, y as int, z as int);
            if x & y & z == 0 { id == 2 || id == 3 } else { id == 1 }
        }
}

/// One coin per block of a chunk, indexed `[x][y][z]`.
pub type Coins = [[[bool; CHUNK_SIZE]; CHUNK_SIZE]; CHUNK_SIZE];

/// `v` is the test terrain that the coins give.
pub open spec fn terrain_of_coins(coins: Coins, v: VoxelData) -> bool {
    forall|x: usize, y: usize, z: usize|
        #![trigger voxel_of(v, x as int, y as int, z as int)]
        x < 16 && y < 16 && z < 16 ==> voxel_of(v, x as int, y as int, z as int) == spec_debug_voxel(
            x,
            y,
            z,
            coins@[x as int]@[y as int]@[z as int],
        )
}

/// The test terrain that given coins make: each block is `debug_voxel` of
/// its position and its coin.
pub fn debug_voxels_from_coins(coins: &Coins) -> (v: VoxelData)
    ensures
        terrain_of_coins(*coins, v),
        debug_terrain(v),
{
    let mut data: VoxelData = [[[0u16; CHUNK_SIZE]; CHUNK_SIZE]; CHUNK_SIZE];
    let mut x: usize = 0;
    while x < CHUNK_SIZE
        invariant
            x <= 16,
            forall|a: usize, b: usize, c: usize|
                #![trigger voxel_of(data, a as int, b as int, c as int)]
                a < x && b < 16 && c < 16 ==> voxel_of(data, a as int, b as int, c as int)
                    == spec_debug_voxel(a, b, c, coins@[a as int]@[b as int]@[c as int]),
        decreases 16 - x,
    {
        let mut y: usize = 0;
        while y < CHUNK_SIZE
            invariant
                x < 16,
                y <= 16,
                forall|a: usize, b: usize, c: usize|
                    #![trigger voxel_of(data, a as int, b as int, c as int)]
                    (a < x || (a == x && b < y)) && b < 16 && c < 16 ==> voxel_of(data, a as int, b as int, c as int)
                        == spec_debug_voxel(a, b, c, coins@[a as int]@[b as int]@[c as int]),
            decreases 16 - y,
        {
            let mut z: usize = 0;
            while z < CHUNK_SIZE
                invariant
                    x < 16,
                    y < 16,
                    z <= 16,
                    forall|a: usize, b: usize, c: usize|
                        #![trigger voxel_of(data, a as int, b as int, c as int)]
                        (a < x || (a == x && b < y) || (a == x && b == y && c < z)) && b < 16 && c < 16
                            ==> voxel_of(data, a as int, b as int, c as int)
                            == spec_debug_voxel(a, b, c, coins@[a as int]@[b as int]@[c as int]),
                decreases 16 - z,
            {
                let ghost before = data;
                data[x][y][z] = debug_voxel(x, y, z, coins[x][y][z]);
                proof {
                    assert forall|a: usize, b: usize, c: usize|
                        (a < x || (a == x && b < y) || (a == x && b == y && c < z + 1)) && b < 16 && c < 16 implies
                            #[trigger] voxel_of(data, a as int, b as int, c as int)
                            == spec_debug_voxel(a, b, c, coins@[a as int]@[b as int]@[c as int]) by {
                        if !(a == x && b == y && c == z) {
                            assert(voxel_of(data, a as int, b as int, c as int) == voxel_of(before, a as int, b as int, c as int));
                        }
                    }
                }
                z = z + 1;
            }
            y = y + 1;
        }
        x = x + 1;
    }
    data
}

/// Test terrain for a new chunk: a fair coin (`random_ratio(1, 2)`, whose
/// threshold is that of `random_bool(0.5)`) is drawn for each block where
/// `x & y & z` is 0, in walk order (x slowest, z fastest); the blocks follow
/// `debug_voxels_from_coins`.
pub fn generate_debug_voxels() -> (v: VoxelData)
    ensures
        debug_terrain(v),
{
    let mut rng = thread_rng();
    let mut coins: Coins = [[[false; CHUNK_SIZE]; CHUNK_SIZE]; CHUNK_SIZE];
    let mut x: usize = 0;
    while x < CHUNK_SIZE
        invariant
            x <= 16,
        decreases 16 - x,
    {
        let mut y: usize = 0;
        while y < CHUNK_SIZE
            invariant
                x < 16,
                y <= 16,
            decreases 16 - y,
        {
            let mut z: usize = 0;
            while z < CHUNK_SIZE
                invariant
                    x < 16,
                    y < 16,
                    z <= 16,
                decreases 16 - z,
            {
                if (x & y & z) == 0 {
                    coins[x][y][z] = random_ratio(&mut rng, 1, 2);
                }
                z = z + 1;
            }
            y = y + 1;
        }
        x = x + 1;
    }
    debug_voxels_from_coins(&coins)
}

/// Records a new chunk entity holding freshly generated test terrain at
/// `chunk_pos`, marked for a mesh rebuild. Returns the entity.
pub fn spawn_chunk(chunk_pos: ChunkPos, entity: u64, store: &mut ChunkStore) -> (e: u64)
    ensures
        e == entity,
        final(store)@ == old(store)@.insert(entity, final(store)@[entity]),
        final(store)@[entity].entity == entity,
        final(store)@[entity].chunk.coord == chunk_pos,
        final(store)@[entity].dirty_mesh,
        !final(store)@[entity].dirty_collider,
        debug_terrain(final(store)@[entity].chunk.voxels),
{
    let voxels = generate_debug_voxels();
    let entry = ChunkEntry {
        entity,
        chunk: Chunk { coord: chunk_pos, voxels },
        dirty_mesh: true,
        dirty_collider: false,
    };
    store.insert(entry);
    entity
}


/// Something that keeps the chunks within `range` chunks of it loaded.
#[derive(Clone, Copy, Debug)]
pub struct ChunkLoader {
    pub range: i32,
    pub last_chunk_pos: Option<ChunkPos>,
}

impl ChunkLoader {
    /// A loader with the given range that has not been placed yet.
    pub fn of_range(range: i32) -> (l: ChunkLoader)
        ensures
            l.range == range,
            l.last_chunk_pos is None,
    {
        ChunkLoader { range, last_chunk_pos: None }
    }
}

/// The loaded chunks, by chunk position, with the entities that hold them.
pub struct LoadedChunks {
    pub chunks: EntityMap,
}

impl LoadedChunks {
    /// The entity of each loaded chunk position.
    pub open spec fn view(&self) -> Map<PosKey, u64> {
        entity_map_contents(self.chunks)
    }

    /// No chunk loaded.
    pub fn new() -> (l: LoadedChunks)
        ensures
            l@.dom() == Set::<PosKey>::empty(),
    {
        LoadedChunks { chunks: entity_map_new() }
    }
}

impl Default for LoadedChunks {
    fn default() -> (l: LoadedChunks)
        ensures
            l@.dom() == Set::<PosKey>::empty(),
    {
        LoadedChunks::new()
    }
}

/// Whether chunk `p` lies within `range` chunks of `center` on every axis.
pub open spec fn in_reach(center: ChunkPos, range: i32, p: PosKey) -> bool {
    &&& center.x - range <= p.0 <= center.x + range
    &&& center.y - range <= p.1 <= center.y + range
    &&& center.z - range <= p.2 <= center.z + range
}

/// Whether one of the first `n` loaders reaches chunk `p`; loader `j` stands
/// at `centers[j]`.
pub open spec fn reached_before(centers: Seq<ChunkPos>, loaders: Seq<ChunkLoader>, n: int, p: PosKey) -> bool {
    exists|j: int| 0 <= j < n && #[trigger] in_reach(centers[j], loaders[j].range, p)
}

/// Whether some loader reaches chunk `p`: the chunks that are to be loaded.
pub open spec fn desired(centers: Seq<ChunkPos>, loaders: Seq<ChunkLoader>, p: PosKey) -> bool {
    reached_before(centers, loaders, centers.len() as int, p)
}

/// A loader's cube of chunks has coordinates that fit in `i32`, and its
/// range can be negated.
pub open spec fn loader_fits(center: ChunkPos, range: i32) -> bool {
    &&& range > i32::MIN
    &&& range >= 0 ==> {
        &&& i32::MIN <= center.x - range && center.x + range <= i32::MAX
        &&& i32::MIN <= center.y - range && center.y + range <= i32::MAX
        &&& i32::MIN <= center.z - range && center.z + range <= i32::MAX
    }
}

/// What one update does: the chunks to spawn, and the loaded chunks (with
/// their entities) to despawn.
pub struct ChunkPlan {
    pub spawn: Vec<ChunkPos>,
    pub despawn: Vec<(ChunkPos, u64)>,
}

/// Whether some element of `s` is the position `p`.
pub open spec fn pos_listed(s: Seq<ChunkPos>, p: PosKey) -> bool {
    exists|k: int| 0 <= k < s.len() && #[trigger] s[k].key() == p
}

/// Whether some element of `s` has the position `p`.
pub open spec fn pair_listed(s: Seq<(ChunkPos, u64)>, p: PosKey) -> bool {
    exists|k: int| 0 <= k < s.len() && #[trigger] s[k].0.key() == p
}

impl ChunkPlan {
    /// The plan is the update of `loaded` for loaders at `centers`: it spawns,
    /// once each, exactly the reached chunks that are not loaded, and
    /// despawns, once each, exactly the loaded chunks that no loader reaches,
    /// naming the entity recorded for each.
    pub open spec fn fits(self, loaded: Map<PosKey, u64>, centers: Seq<ChunkPos>, loaders: Seq<ChunkLoader>) -> bool {
        &&& forall|a: int, b: int| 0 <= a < self.spawn@.len() && 0 <= b < self.spawn@.len() && a != b
            ==> #[trigger] self.spawn@[a] != #[trigger] self.spawn@[b]
        &&& forall|p: PosKey| #[trigger] pos_listed(self.spawn@, p)
            == (desired(centers, loaders, p) && !loaded.dom().contains(p))
        &&& forall|a: int, b: int| 0 <= a < self.despawn@.len() && 0 <= b < self.despawn@.len() && a != b
            ==> #[trigger] self.despawn@[a].0 != #[trigger] self.despawn@[b].0
        &&& forall|k: int| 0 <= k < self.despawn@.len() ==>
            loaded.get(#[trigger] self.despawn@[k].0.key()) == Some(self.despawn@[k].1)
        &&& forall|p: PosKey| #[trigger] pair_listed(self.despawn@, p)
            == (loaded.dom().contains(p) && !desired(centers, loaders, p))
    }
}

/// Whether `p` is before the cursor `(dx, dy, dz)` of a walk over the cube
/// around `c` (x offset slowest, z offset fastest).
pub open spec fn cursor_before(c: ChunkPos, p: PosKey, dx: int, dy: int, dz: int) -> bool {
    ||| p.0 - c.x < dx
    ||| p.0 - c.x == dx && p.1 - c.y < dy
    ||| p.0 - c.x == dx && p.1 - c.y == dy && p.2 - c.z < dz
}

/// The chunks that the spawn walk has listed once it stands at loader `i`,
/// cube offset `(dx, dy, dz)`.
pub open spec fn walked(
    loaded: Map<PosKey, u64>,
    centers: Seq<ChunkPos>,
    loaders: Seq<ChunkLoader>,
    i: int,
    dx: int,
    dy: int,
    dz: int,
    p: PosKey,
) -> bool {
    &&& !loaded.dom().contains(p)
    &&& (reached_before(centers, loaders, i, p) || (in_reach(centers[i], loaders[i].range, p)
        && cursor_before(centers[i], p, dx, dy, dz)))
}

proof fn lemma_reached_step(centers: Seq<ChunkPos>, loaders: Seq<ChunkLoader>, i: int, p: PosKey)
    requires
        0 <= i,
    ensures
        reached_before(centers, loaders, i + 1, p) == (reached_before(centers, loaders, i, p) || in_reach(
            centers[i],
            loaders[i].range,
            p,
        )),
{
    if in_reach(centers[i], loaders[i].range, p) {
        assert(0 <= i < i + 1 && in_reach(centers[i], loaders[i].range, p));
    }
    if reached_before(centers, loaders, i, p) {
        let j = choose|j: int| 0 <= j < i && #[trigger] in_reach(centers[j], loaders[j].range, p);
        assert(0 <= j < i + 1 && in_reach(centers[j], loaders[j].range, p));
    }
}

/// Whether one of the first `n` loaders reaches `p`.
fn reached(current_chunks: &Vec<ChunkPos>, loaders: &Vec<ChunkLoader>, n: usize, p: GridPos) -> (r: bool)
    requires
        n <= current_chunks@.len(),
        current_chunks@.len() == loaders@.len(),
    ensures
        r == reached_before(current_chunks@, loaders@, n as int, p.key()),
{
    let mut j: usize = 0;
    while j < n
        invariant
            j <= n,
            n <= current_chunks@.len(),
            current_chunks@.len() == loaders@.len(),
            !reached_before(current_chunks@, loaders@, j as int, p.key()),
        decreases n - j,
    {
        let c = current_chunks[j];
        let r = loaders[j].range as i64;
        proof {
            lemma_reached_step(current_chunks@, loaders@, j as int, p.key());
        }
        if c.x as i64 - r <= p.x as i64 && p.x as i64 <= c.x as i64 + r && c.y as i64 - r <= p.y as i64
            && p.y as i64 <= c.y as i64 + r && c.z as i64 - r <= p.z as i64 && p.z as i64 <= c.z as i64 + r {
            return true;
        }
        j = j + 1;
    }
    false
}

impl LoadedChunks {
    /// The update that the loaders at `current_chunks` (loader `i` in chunk
    /// `current_chunks[i]`) call for: which chunks to spawn and which to
    /// despawn (see `ChunkPlan::fits`). Each loader records its chunk.
    pub fn plan_update(&self, loaders: &mut Vec<ChunkLoader>, current_chunks: &Vec<ChunkPos>) -> (plan: ChunkPlan)
        requires
            old(loaders)@.len() == current_chunks@.len(),
            forall|i: int| 0 <= i < current_chunks@.len() ==> loader_fits(#[trigger] current_chunks@[i], old(loaders)@[i].range),
        ensures
            final(loaders)@.len() == old(loaders)@.len(),
            forall|i: int| 0 <= i < old(loaders)@.len() ==> #[trigger] final(loaders)@[i] == (ChunkLoader {
                last_chunk_pos: Some(current_chunks@[i]),
                ..old(loaders)@[i]
            }),
            plan.fits(self@, current_chunks@, old(loaders)@),
    {
        let n = loaders.len();
        let ghost m = self@;
        let ghost cs = current_chunks@;
        let ghost ls = loaders@;
        let mut spawn: Vec<ChunkPos> = Vec::new();
        let mut i: usize = 0;
        while i < n
            invariant
                n == ls.len(),
                n == cs.len(),
                cs == current_chunks@,
                ls == loaders@,
                m == self@,
                forall|k: int| 0 <= k < n ==> loader_fits(#[trigger] cs[k], ls[k].range),
                i <= n,
                forall|a: int, b: int| 0 <= a < spawn@.len() && 0 <= b < spawn@.len() && a != b
                    ==> #[trigger] spawn@[a] != #[trigger] spawn@[b],
                forall|p: PosKey| #[trigger] pos_listed(spawn@, p)
                    == (!m.dom().contains(p) && reached_before(cs, ls, i as int, p)),
            decreases n - i,
        {
            let c = current_chunks[i];
            let r = loaders[i].range;
            proof {
                assert(loader_fits(cs[i as int], ls[i as int].range));
                assert forall|p: PosKey| #[trigger] walked(m, cs, ls, i as int, -r as int, -r as int, -r as int, p)
                    == (!m.dom().contains(p) && reached_before(cs, ls, i as int, p)) by {}
            }
            if r >= 0 {
                let r64 = r as i64;
                let mut dx: i64 = -r64;
                while dx <= r64
                    invariant
                        n == ls.len(), n == cs.len(), cs == current_chunks@, ls == loaders@, m == self@,
                        i < n,
                        c == cs[i as int],
                        r == ls[i as int].range,
                        r >= 0,
                        r64 == r,
                        loader_fits(c, r),
                        -r64 <= dx <= r64 + 1,
                        forall|a: int, b: int| 0 <= a < spawn@.len() && 0 <= b < spawn@.len() && a != b
                            ==> #[trigger] spawn@[a] != #[trigger] spawn@[b],
                        forall|p: PosKey| #[trigger] pos_listed(spawn@, p)
                            == walked(m, cs, ls, i as int, dx as int, -r as int, -r as int, p),
                    decreases r64 + 1 - dx,
                {
                    let mut dy: i64 = -r64;
                    while dy <= r64
                        invariant
                            n == ls.len(), n == cs.len(), cs == current_chunks@, ls == loaders@, m == self@,
                            i < n,
                            c == cs[i as int],
                            r == ls[i as int].range,
                            r >= 0,
                            r64 == r,
                            loader_fits(c, r),
                            -r64 <= dx <= r64,
                            -r64 <= dy <= r64 + 1,
                            forall|a: int, b: int| 0 <= a < spawn@.len() && 0 <= b < spawn@.len() && a != b
                                ==> #[trigger] spawn@[a] != #[trigger] spawn@[b],
                            forall|p: PosKey| #[trigger] pos_listed(spawn@, p)
                                == walked(m, cs, ls, i as int, dx as int, dy as int, -r as int, p),
                        decreases r64 + 1 - dy,
                    {
                        let mut dz: i64 = -r64;
                        while dz <= r64
                            invariant
                                n == ls.len(), n == cs.len(), cs == current_chunks@, ls == loaders@, m == self@,
                                i < n,
                                c == cs[i as int],
                                r == ls[i as int].range,
                                r >= 0,
                                r64 == r,
                                loader_fits(c, r),
                                -r64 <= dx <= r64,
                                -r64 <= dy <= r64,
                                -r64 <= dz <= r64 + 1,
                                forall|a: int, b: int| 0 <= a < spawn@.len() && 0 <= b < spawn@.len() && a != b
                                    ==> #[trigger] spawn@[a] != #[trigger] spawn@[b],
                                forall|p: PosKey| #[trigger] pos_listed(spawn@, p)
                                    == walked(m, cs, ls, i as int, dx as int, dy as int, dz as int, p),
                            decreases r64 + 1 - dz,
                        {
                            let pos = GridPos {
                                x: (c.x as i64 + dx) as i32,
                                y: (c.y as i64 + dy) as i32,
                                z: (c.z as i64 + dz) as i32,
                            };
                            let ghost pk = pos.key();
                            let ghost before = spawn@;
                            let fresh = !entity_map_contains_key(&self.chunks, pos.to_key())
                                && !reached(current_chunks, loaders, i, pos);
                            if fresh {
                                spawn.push(pos);
                            }
                            proof {
                                assert(in_reach(c, r, pk));
                                assert forall|p: PosKey| #[trigger] pos_listed(spawn@, p)
                                    == walked(m, cs, ls, i as int, dx as int, dy as int, dz + 1, p) by {
                                    assert(pos_listed(before, p) == walked(m, cs, ls, i as int, dx as int, dy as int, dz as int, p));
                                    if fresh {
                                        if pos_listed(before, p) {
                                            let k = choose|k: int| 0 <= k < before.len() && #[trigger] before[k].key() == p;
                                            assert(spawn@[k] == before[k]);
                                        }
                                        if p == pk {
                                            assert(spawn@[before.len() as int] == pos);
                                        }
                                        if pos_listed(spawn@, p) {
                                            let k = choose|k: int| 0 <= k < spawn@.len() && #[trigger] spawn@[k].key() == p;
                                            if k < before.len() {
                                                assert(before[k] == spawn@[k]);
                                            }
                                        }
                                    }
                                }
                                if fresh {
                                    assert(!pos_listed(before, pk));
                                    assert forall|a: int, b: int| 0 <= a < spawn@.len() && 0 <= b < spawn@.len() && a != b
                                        implies #[trigger] spawn@[a] != #[trigger] spawn@[b] by {
                                        if a == before.len() {
                                            assert(before[b] == spawn@[b]);
                                            assert(before[b].key() != pk);
                                        } else if b == before.len() {
                                            assert(before[a] == spawn@[a]);
                                            assert(before[a].key() != pk);
                                        }
                                    }
                                }
                            }
                            dz = dz + 1;
                        }
                        proof {
                            assert forall|p: PosKey| #[trigger] walked(m, cs, ls, i as int, dx as int, dy as int, r64 + 1, p)
                                == walked(m, cs, ls, i as int, dx as int, dy + 1, -r as int, p) by {}
                        }
                        dy = dy + 1;
                    }
                    proof {
                        assert forall|p: PosKey| #[trigger] walked(m, cs, ls, i as int, dx as int, r64 + 1, -r as int, p)
                            == walked(m, cs, ls, i as int, dx + 1, -r as int, -r as int, p) by {}
                    }
                    dx = dx + 1;
                }
            }
            proof {
                assert forall|p: PosKey| #[trigger] pos_listed(spawn@, p)
                    == (!m.dom().contains(p) && reached_before(cs, ls, i + 1, p)) by {
                    lemma_reached_step(cs, ls, i as int, p);
                    if r >= 0 {
                        assert(walked(m, cs, ls, i as int, r + 1, -r as int, -r as int, p)
                            == (!m.dom().contains(p) && reached_before(cs, ls, i + 1, p)));
                    }
                }
            }
            i = i + 1;
        }
        let entries = entity_map_entries(&self.chunks);
        let mut despawn: Vec<(ChunkPos, u64)> = Vec::new();
        let mut k: usize = 0;
        while k < entries.len()
            invariant
                n == ls.len(), n == cs.len(), cs == current_chunks@, ls == loaders@, m == self@,
                k <= entries@.len(),
                forall|a: int| #![trigger entries@[a]] 0 <= a < entries@.len() ==> m.get(entries@[a].0) == Some(entries@[a].1),
                forall|a: int, b: int| #![trigger entries@[a], entries@[b]]
                    0 <= a < entries@.len() && 0 <= b < entries@.len() && a != b ==> entries@[a].0 != entries@[b].0,
                forall|a: int| 0 <= a < despawn@.len() ==>
                    m.get(#[trigger] despawn@[a].0.key()) == Some(despawn@[a].1),
                forall|a: int, b: int| 0 <= a < despawn@.len() && 0 <= b < despawn@.len() && a != b
                    ==> #[trigger] despawn@[a].0 != #[trigger] despawn@[b].0,
                forall|p: PosKey| #[trigger] pair_listed(despawn@, p) == ((exists|a: int|
                    0 <= a < k && #[trigger] entries@[a].0 == p) && !desired(cs, ls, p)),
            decreases entries@.len() - k,
        {
            let (key, entity) = entries[k];
            let pos = GridPos::from_key(key);
            let ghost before = despawn@;
            let gone = !reached(current_chunks, loaders, n, pos);
            if gone {
                despawn.push((pos, entity));
            }
            proof {
                assert(entries@[k as int].0 == key);
                assert forall|p: PosKey| #[trigger] pair_listed(despawn@, p) == ((exists|a: int|
                    0 <= a < k + 1 && #[trigger] entries@[a].0 == p) && !desired(cs, ls, p)) by {
                    assert(pair_listed(before, p) == ((exists|a: int|
                        0 <= a < k && #[trigger] entries@[a].0 == p) && !desired(cs, ls, p)));
                    if exists|a: int| 0 <= a < k && #[trigger] entries@[a].0 == p {
                        let a = choose|a: int| 0 <= a < k && #[trigger] entries@[a].0 == p;
                        assert(0 <= a < k + 1 && entries@[a].0 == p);
                    }
                    if exists|a: int| 0 <= a < k + 1 && #[trigger] entries@[a].0 == p {
                        let a = choose|a: int| 0 <= a < k + 1 && #[trigger] entries@[a].0 == p;
                        if a < k {
                            assert(0 <= a < k && entries@[a].0 == p);
                        }
                    }
                    if pair_listed(before, p) {
                        let j = choose|j: int| 0 <= j < before.len() && #[trigger] before[j].0.key() == p;
                        assert(despawn@[j] == before[j]);
                    }
                    if gone && p == key {
                        assert(despawn@[before.len() as int].0.key() == p);
                    }
                    if pair_listed(despawn@, p) {
                        let j = choose|j: int| 0 <= j < despawn@.len() && #[trigger] despawn@[j].0.key() == p;
                        if j < before.len() {
                            assert(before[j] == despawn@[j]);
                        }
                    }
                }
                if gone {
                    assert forall|a: int, b: int| 0 <= a < despawn@.len() && 0 <= b < despawn@.len() && a != b
                        implies #[trigger] despawn@[a].0 != #[trigger] despawn@[b].0 by {
                        if a == before.len() {
                            assert(before[b] == despawn@[b]);
                            assert(pair_listed(before, before[b].0.key()));
                        } else if b == before.len() {
                            assert(before[a] == despawn@[a]);
                            assert(pair_listed(before, before[a].0.key()));
                        }
                    }
                }
            }
            k = k + 1;
        }
        let mut j: usize = 0;
        while j < n
            invariant
                n == ls.len(), n == cs.len(), cs == current_chunks@,
                j <= n,
                loaders@.len() == n,
                forall|a: int| 0 <= a < j ==> #[trigger] loaders@[a] == (ChunkLoader {
                    last_chunk_pos: Some(cs[a]),
                    ..ls[a]
                }),
                forall|a: int| j <= a < n ==> #[trigger] loaders@[a] == ls[a],
            decreases n - j,
        {
            let mut l = loaders[j];
            l.last_chunk_pos = Some(current_chunks[j]);
            loaders[j] = l;
            j = j + 1;
        }
        let plan = ChunkPlan { spawn, despawn };
        proof {
            assert forall|p: PosKey| #[trigger] pair_listed(plan.despawn@, p)
                == (m.dom().contains(p) && !desired(cs, ls, p)) by {
                if m.dom().contains(p) {
                    let a = choose|a: int| 0 <= a < entries@.len() && entries@[a].0 == p;
                    assert(0 <= a < entries@.len() && entries@[a].0 == p);
                }
                if exists|a: int| 0 <= a < entries@.len() && #[trigger] entries@[a].0 == p {
                    let a = choose|a: int| 0 <= a < entries@.len() && #[trigger] entries@[a].0 == p;
                    assert(m.get(entries@[a].0) == Some(entries@[a].1));
                }
            }
        }
        plan
    }
}


/// Whether one of the first `n` chunks to spawn is at `p`.
pub open spec fn spawn_listed_before(s: Seq<ChunkPos>, n: int, p: PosKey) -> bool {
    exists|k: int| 0 <= k < n && #[trigger] s[k].key() == p
}

/// Whether one of the first `n` chunks to despawn is at `p`.
pub open spec fn despawn_listed_before(s: Seq<(ChunkPos, u64)>, n: int, p: PosKey) -> bool {
    exists|k: int| 0 <= k < n && #[trigger] s[k].0.key() == p
}

/// Whether `e` is one of the first `n` entities of `s`.
pub open spec fn entity_in(s: Seq<u64>, n: int, e: u64) -> bool {
    exists|k: int| 0 <= k < n && #[trigger] s[k] == e
}

/// Whether `e` is the entity of one of the first `n` chunks to despawn.
pub open spec fn despawned_entity(s: Seq<(ChunkPos, u64)>, n: int, e: u64) -> bool {
    exists|k: int| 0 <= k < n && #[trigger] s[k].1 == e
}

/// The loaded positions after an update: the loaded ones that are not
/// despawned, and the spawned ones.
pub open spec fn loaded_after(before: Map<PosKey, u64>, plan: ChunkPlan, p: PosKey) -> bool {
    (before.dom().contains(p) && !pair_listed(plan.despawn@, p)) || pos_listed(plan.spawn@, p)
}

impl LoadedChunks {
    /// Carries out a plan: chunk `plan.spawn[k]` is spawned as entity
    /// `entities[k]` (with fresh test terrain in `store`) and recorded as
    /// loaded; each despawned chunk is forgotten and its entity's chunk is
    /// dropped from `store`. The entities must be new: distinct, and none of
    /// them among those despawned.
    pub fn apply_update(&mut self, plan: &ChunkPlan, entities: &Vec<u64>, store: &mut ChunkStore)
        requires
            entities@.len() == plan.spawn@.len(),
            forall|a: int, b: int| 0 <= a < plan.spawn@.len() && 0 <= b < plan.spawn@.len() && a != b
                ==> #[trigger] plan.spawn@[a] != #[trigger] plan.spawn@[b],
            forall|a: int, b: int| 0 <= a < entities@.len() && 0 <= b < entities@.len() && a != b
                ==> #[trigger] entities@[a] != #[trigger] entities@[b],
            forall|a: int, b: int| 0 <= a < entities@.len() && 0 <= b < plan.despawn@.len()
                ==> #[trigger] entities@[a] != #[trigger] plan.despawn@[b].1,
            forall|a: int, b: int| 0 <= a < plan.spawn@.len() && 0 <= b < plan.despawn@.len()
                ==> #[trigger] plan.spawn@[a].key() != #[trigger] plan.despawn@[b].0.key(),
        ensures
            forall|p: PosKey| #[trigger] final(self)@.dom().contains(p) == loaded_after(old(self)@, *plan, p),
            forall|k: int| 0 <= k < plan.spawn@.len() ==> final(self)@[#[trigger] plan.spawn@[k].key()] == entities@[k],
            forall|p: PosKey| old(self)@.dom().contains(p) && !pair_listed(plan.despawn@, p) && !pos_listed(plan.spawn@, p)
                ==> #[trigger] final(self)@[p] == old(self)@[p],
            forall|k: int| 0 <= k < entities@.len() ==> {
                let e = #[trigger] entities@[k];
                &&& final(store)@.dom().contains(e)
                &&& final(store)@[e].entity == e
                &&& final(store)@[e].chunk.coord == plan.spawn@[k]
                &&& final(store)@[e].dirty_mesh
                &&& !final(store)@[e].dirty_collider
                &&& debug_terrain(final(store)@[e].chunk.voxels)
            },
            forall|k: int| 0 <= k < plan.despawn@.len() ==> !final(store)@.dom().contains(#[trigger] plan.despawn@[k].1),
            forall|e: u64| !entity_in(entities@, entities@.len() as int, e) && !despawned_entity(plan.despawn@, plan.despawn@.len() as int, e)
                ==> (#[trigger] final(store)@.dom().contains(e) == old(store)@.dom().contains(e)
                    && (old(store)@.dom().contains(e) ==> final(store)@[e] == old(store)@[e])),
    {
        let ghost m0 = self@;
        let ghost st0 = store@;
        let mut k: usize = 0;
        while k < plan.spawn.len()
            invariant
                entities@.len() == plan.spawn@.len(),
                k <= plan.spawn@.len(),
                forall|a: int, b: int| 0 <= a < plan.spawn@.len() && 0 <= b < plan.spawn@.len() && a != b
                    ==> #[trigger] plan.spawn@[a] != #[trigger] plan.spawn@[b],
                forall|a: int, b: int| 0 <= a < entities@.len() && 0 <= b < entities@.len() && a != b
                    ==> #[trigger] entities@[a] != #[trigger] entities@[b],
                forall|p: PosKey| #[trigger] self@.dom().contains(p) == (m0.dom().contains(p) || spawn_listed_before(plan.spawn@, k as int, p)),
                forall|j: int| 0 <= j < k ==> self@[#[trigger] plan.spawn@[j].key()] == entities@[j],
                forall|p: PosKey| m0.dom().contains(p) && !spawn_listed_before(plan.spawn@, k as int, p) ==> #[trigger] self@[p] == m0[p],
                forall|j: int| 0 <= j < k ==> {
                    let e = #[trigger] entities@[j];
                    &&& store@.dom().contains(e)
                    &&& store@[e].entity == e
                    &&& store@[e].chunk.coord == plan.spawn@[j]
                    &&& store@[e].dirty_mesh
                    &&& !store@[e].dirty_collider
                    &&& debug_terrain(store@[e].chunk.voxels)
                },
                forall|e: u64| !entity_in(entities@, k as int, e) ==> (#[trigger] store@.dom().contains(e) == st0.dom().contains(e)
                    && (st0.dom().contains(e) ==> store@[e] == st0[e])),
            decreases plan.spawn@.len() - k,
        {
            let pos = plan.spawn[k];
            let e = entities[k];
            let ghost m1 = self@;
            let ghost st1 = store@;
            spawn_chunk(pos, e, store);
            entity_map_insert(&mut self.chunks, pos.to_key(), e);
            proof {
                assert forall|p: PosKey| #[trigger] self@.dom().contains(p) == (m0.dom().contains(p) || spawn_listed_before(plan.spawn@, k + 1, p)) by {
                    if spawn_listed_before(plan.spawn@, k as int, p) {
                        let j = choose|j: int| 0 <= j < k && #[trigger] plan.spawn@[j].key() == p;
                        assert(0 <= j < k + 1 && plan.spawn@[j].key() == p);
                    }
                    if p == pos.key() {
                        assert(0 <= k < k + 1 && plan.spawn@[k as int].key() == p);
                    }
                    if spawn_listed_before(plan.spawn@, k + 1, p) && p != pos.key() {
                        let j = choose|j: int| 0 <= j < k + 1 && #[trigger] plan.spawn@[j].key() == p;
                        assert(0 <= j < k && plan.spawn@[j].key() == p);
                    }
                }
                assert forall|j: int| 0 <= j < k + 1 implies self@[#[trigger] plan.spawn@[j].key()] == entities@[j] by {
                    if j < k {
                        assert(plan.spawn@[j] != plan.spawn@[k as int]);
                    }
                }
                assert forall|p: PosKey| m0.dom().contains(p) && !spawn_listed_before(plan.spawn@, k + 1, p) implies #[trigger] self@[p] == m0[p] by {
                    assert(p != pos.key()) by {
                        if p == pos.key() {
                            assert(0 <= k < k + 1 && plan.spawn@[k as int].key() == p);
                        }
                    }
                    if spawn_listed_before(plan.spawn@, k as int, p) {
                        let j = choose|j: int| 0 <= j < k && #[trigger] plan.spawn@[j].key() == p;
                        assert(0 <= j < k + 1 && plan.spawn@[j].key() == p);
                    }
                }
                assert forall|j: int| 0 <= j < k + 1 implies {
                    let e = #[trigger] entities@[j];
                    &&& store@.dom().contains(e)
                    &&& store@[e].entity == e
                    &&& store@[e].chunk.coord == plan.spawn@[j]
                    &&& store@[e].dirty_mesh
                    &&& !store@[e].dirty_collider
                    &&& debug_terrain(store@[e].chunk.voxels)
                } by {
                    if j < k {
                        assert(entities@[j] != entities@[k as int]);
                    }
                }
                assert forall|e2: u64| !entity_in(entities@, k + 1, e2) implies (#[trigger] store@.dom().contains(e2) == st0.dom().contains(e2)
                    && (st0.dom().contains(e2) ==> store@[e2] == st0[e2])) by {
                    assert(e2 != e) by {
                        if e2 == e {
                            assert(0 <= k < k + 1 && entities@[k as int] == e2);
                        }
                    }
                    if entity_in(entities@, k as int, e2) {
                        let j = choose|j: int| 0 <= j < k && #[trigger] entities@[j] == e2;
                        assert(0 <= j < k + 1 && entities@[j] == e2);
                    }
                }
            }
            k = k + 1;
        }
        let ghost m2 = self@;
        let ghost st2 = store@;
        let mut d: usize = 0;
        while d < plan.despawn.len()
            invariant
                entities@.len() == plan.spawn@.len(),
                k == plan.spawn@.len(),
                d <= plan.despawn@.len(),
                forall|a: int, b: int| 0 <= a < entities@.len() && 0 <= b < plan.despawn@.len()
                    ==> #[trigger] entities@[a] != #[trigger] plan.despawn@[b].1,
                forall|a: int, b: int| 0 <= a < plan.spawn@.len() && 0 <= b < plan.despawn@.len()
                    ==> #[trigger] plan.spawn@[a].key() != #[trigger] plan.despawn@[b].0.key(),
                forall|p: PosKey| #[trigger] m2.dom().contains(p) == (m0.dom().contains(p) || spawn_listed_before(plan.spawn@, k as int, p)),
                forall|j: int| 0 <= j < k ==> m2[#[trigger] plan.spawn@[j].key()] == entities@[j],
                forall|p: PosKey| m0.dom().contains(p) && !spawn_listed_before(plan.spawn@, k as int, p) ==> #[trigger] m2[p] == m0[p],
                forall|p: PosKey| #[trigger] self@.dom().contains(p) == (m2.dom().contains(p) && !despawn_listed_before(plan.despawn@, d as int, p)),
                forall|p: PosKey| #[trigger] self@.dom().contains(p) ==> self@[p] == m2[p],
                forall|j: int| 0 <= j < k ==> {
                    let e = #[trigger] entities@[j];
                    &&& st2.dom().contains(e)
                    &&& st2[e].entity == e
                    &&& st2[e].chunk.coord == plan.spawn@[j]
                    &&& st2[e].dirty_mesh
                    &&& !st2[e].dirty_collider
                    &&& debug_terrain(st2[e].chunk.voxels)
                },
                forall|e: u64| !entity_in(entities@, k as int, e) ==> (#[trigger] st2.dom().contains(e) == st0.dom().contains(e)
                    && (st0.dom().contains(e) ==> st2[e] == st0[e])),
                forall|e: u64| #[trigger] store@.dom().contains(e) == (st2.dom().contains(e) && !despawned_entity(plan.despawn@, d as int, e)),
                forall|e: u64| #[trigger] store@.dom().contains(e) ==> store@[e] == st2[e],
            decreases plan.despawn@.len() - d,
        {
            let (pos, e) = plan.despawn[d];
            let ghost m3 = self@;
            let ghost st3 = store@;
            entity_map_remove(&mut self.chunks, pos.to_key());
            store.remove(e);
            proof {
                assert(self@ == m3.remove(pos.key()));
                assert forall|p: PosKey| #[trigger] self@.dom().contains(p) implies self@[p] == m2[p] by {
                    assert(m3.dom().contains(p));
                }
                assert forall|e2: u64| #[trigger] store@.dom().contains(e2) implies store@[e2] == st2[e2] by {
                    assert(st3.dom().contains(e2));
                }
                assert forall|p: PosKey| #[trigger] self@.dom().contains(p) == (m2.dom().contains(p) && !despawn_listed_before(plan.despawn@, d + 1, p)) by {
                    assert(m3.dom().contains(p) == (m2.dom().contains(p) && !despawn_listed_before(plan.despawn@, d as int, p)));
                    if despawn_listed_before(plan.despawn@, d as int, p) {
                        let j = choose|j: int| 0 <= j < d && #[trigger] plan.despawn@[j].0.key() == p;
                        assert(0 <= j < d + 1 && plan.despawn@[j].0.key() == p);
                    }
                    if p == pos.key() {
                        assert(0 <= d < d + 1 && plan.despawn@[d as int].0.key() == p);
                    }
                    if despawn_listed_before(plan.despawn@, d + 1, p) && p != pos.key() {
                        let j = choose|j: int| 0 <= j < d + 1 && #[trigger] plan.despawn@[j].0.key() == p;
                        assert(0 <= j < d && plan.despawn@[j].0.key() == p);
                    }
                }
                assert forall|e2: u64| #[trigger] store@.dom().contains(e2) == (st2.dom().contains(e2) && !despawned_entity(plan.despawn@, d + 1, e2)) by {
                    assert(st3.dom().contains(e2) == (st2.dom().contains(e2) && !despawned_entity(plan.despawn@, d as int, e2)));
                    if despawned_entity(plan.despawn@, d as int, e2) {
                        let j = choose|j: int| 0 <= j < d && #[trigger] plan.despawn@[j].1 == e2;
                        assert(0 <= j < d + 1 && plan.despawn@[j].1 == e2);
                    }
                    if e2 == e {
                        assert(0 <= d < d + 1 && plan.despawn@[d as int].1 == e2);
                    }
                    if despawned_entity(plan.despawn@, d + 1, e2) && e2 != e {
                        let j = choose|j: int| 0 <= j < d + 1 && #[trigger] plan.despawn@[j].1 == e2;
                        assert(0 <= j < d && plan.despawn@[j].1 == e2);
                    }
                }
            }
            d = d + 1;
        }
        proof {
            assert forall|p: PosKey| #[trigger] self@.dom().contains(p) == loaded_after(m0, *plan, p) by {
                if pos_listed(plan.spawn@, p) {
                    let j = choose|j: int| 0 <= j < plan.spawn@.len() && #[trigger] plan.spawn@[j].key() == p;
                    assert(spawn_listed_before(plan.spawn@, k as int, p));
                    if despawn_listed_before(plan.despawn@, d as int, p) {
                        let b = choose|b: int| 0 <= b < d && #[trigger] plan.despawn@[b].0.key() == p;
                        assert(plan.spawn@[j].key() != plan.despawn@[b].0.key());
                    }
                }
                if spawn_listed_before(plan.spawn@, k as int, p) {
                    let j = choose|j: int| 0 <= j < k && #[trigger] plan.spawn@[j].key() == p;
                    assert(pos_listed(plan.spawn@, p));
                }
                if pair_listed(plan.despawn@, p) {
                    let b = choose|b: int| 0 <= b < plan.despawn@.len() && #[trigger] plan.despawn@[b].0.key() == p;
                    assert(despawn_listed_before(plan.despawn@, d as int, p));
                }
                if despawn_listed_before(plan.despawn@, d as int, p) {
                    let b = choose|b: int| 0 <= b < d && #[trigger] plan.despawn@[b].0.key() == p;
                    assert(pair_listed(plan.despawn@, p));
                }
            }
            assert forall|j: int| 0 <= j < plan.spawn@.len() implies self@[#[trigger] plan.spawn@[j].key()] == entities@[j] by {
                let p = plan.spawn@[j].key();
                assert(spawn_listed_before(plan.spawn@, k as int, p));
                assert(m2.dom().contains(p));
                assert(m2[p] == entities@[j]);
                if despawn_listed_before(plan.despawn@, d as int, p) {
                    let b = choose|b: int| 0 <= b < d && #[trigger] plan.despawn@[b].0.key() == p;
                    assert(plan.spawn@[j].key() != plan.despawn@[b].0.key());
                }
                assert(self@.dom().contains(p));
            }
            assert forall|p: PosKey| m0.dom().contains(p) && !pair_listed(plan.despawn@, p) && !pos_listed(plan.spawn@, p)
                implies #[trigger] self@[p] == m0[p] by {
                assert(m2.dom().contains(p));
                if spawn_listed_before(plan.spawn@, k as int, p) {
                    let j = choose|j: int| 0 <= j < k && #[trigger] plan.spawn@[j].key() == p;
                    assert(pos_listed(plan.spawn@, p));
                }
                if despawn_listed_before(plan.despawn@, d as int, p) {
                    let b = choose|b: int| 0 <= b < d && #[trigger] plan.despawn@[b].0.key() == p;
                    assert(pair_listed(plan.despawn@, p));
                }
                assert(self@.dom().contains(p));
            }
            assert forall|j: int| 0 <= j < entities@.len() implies {
                let e = #[trigger] entities@[j];
                &&& store@.dom().contains(e)
                &&& store@[e].entity == e
                &&& store@[e].chunk.coord == plan.spawn@[j]
                &&& store@[e].dirty_mesh
                &&& !store@[e].dirty_collider
                &&& debug_terrain(store@[e].chunk.voxels)
            } by {
                let e = entities@[j];
                if despawned_entity(plan.despawn@, d as int, e) {
                    let b = choose|b: int| 0 <= b < d && #[trigger] plan.despawn@[b].1 == e;
                    assert(entities@[j] != plan.despawn@[b].1);
                }
                assert(st2.dom().contains(e));
                assert(store@.dom().contains(e));
                assert(store@[e] == st2[e]);
            }
            assert forall|b: int| 0 <= b < plan.despawn@.len() implies !store@.dom().contains(#[trigger] plan.despawn@[b].1) by {
                assert(despawned_entity(plan.despawn@, d as int, plan.despawn@[b].1));
            }
            assert forall|e: u64| !entity_in(entities@, entities@.len() as int, e) && !despawned_entity(plan.despawn@, plan.despawn@.len() as int, e)
                implies (#[trigger] store@.dom().contains(e) == st0.dom().contains(e)
                    && (st0.dom().contains(e) ==> store@[e] == st0[e])) by {
            }
        }
    }
}

/// After an update carried out as planned, the loaded chunks are exactly
/// the chunks that some loader reaches.
pub proof fn lemma_update_loads_reached(
    before: Map<PosKey, u64>,
    centers: Seq<ChunkPos>,
    loaders: Seq<ChunkLoader>,
    plan: ChunkPlan,
    after: Map<PosKey, u64>,
)
    requires
        plan.fits(before, centers, loaders),
        forall|p: PosKey| #[trigger] after.dom().contains(p) == loaded_after(before, plan, p),
    ensures
        forall|p: PosKey| #[trigger] after.dom().contains(p) == desired(centers, loaders, p),
{
    assert forall|p: PosKey| #[trigger] after.dom().contains(p) == desired(centers, loaders, p) by {
        assert(pos_listed(plan.spawn@, p) == (desired(centers, loaders, p) && !before.dom().contains(p)));
        assert(pair_listed(plan.despawn@, p) == (before.dom().contains(p) && !desired(centers, loaders, p)));
    }
}

/// A plan that `plan_update` produces can be carried out: its spawned and
/// despawned chunks are distinct positions, and no position is both.
pub proof fn lemma_plan_disjoint(
    before: Map<PosKey, u64>,
    centers: Seq<ChunkPos>,
    loaders: Seq<ChunkLoader>,
    plan: ChunkPlan,
)
    requires
        plan.fits(before, centers, loaders),
    ensures
        forall|a: int, b: int| 0 <= a < plan.spawn@.len() && 0 <= b < plan.despawn@.len()
            ==> #[trigger] plan.spawn@[a].key() != #[trigger] plan.despawn@[b].0.key(),
{
    assert forall|a: int, b: int| 0 <= a < plan.spawn@.len() && 0 <= b < plan.despawn@.len()
        implies #[trigger] plan.spawn@[a].key() != #[trigger] plan.despawn@[b].0.key() by {
        assert(pos_listed(plan.spawn@, plan.spawn@[a].key()));
        assert(pair_listed(plan.despawn@, plan.despawn@[b].0.key()));
    }
}


/// Once the loaded chunks are exactly the reached ones, an update has
/// nothing to spawn and nothing to despawn.
pub proof fn lemma_settled_plan_is_empty(
    loaded: Map<PosKey, u64>,
    centers: Seq<ChunkPos>,
    loaders: Seq<ChunkLoader>,
    plan: ChunkPlan,
)
    requires
        plan.fits(loaded, centers, loaders),
        forall|p: PosKey| #[trigger] loaded.dom().contains(p) == desired(centers, loaders, p),
    ensures
        plan.spawn@.len() == 0,
        plan.despawn@.len() == 0,
{
    if plan.spawn@.len() > 0 {
        let p = plan.spawn@[0].key();
        assert(pos_listed(plan.spawn@, p));
        assert(loaded.dom().contains(p) == desired(centers, loaders, p));
    }
    if plan.despawn@.len() > 0 {
        let p = plan.despawn@[0].0.key();
        assert(pair_listed(plan.despawn@, p));
        assert(loaded.dom().contains(p) == desired(centers, loaders, p));
    }
}


/// Two loader lists with the same ranges, position by position, reach the
/// same chunks from the same centers.
proof fn lemma_same_ranges_same_reach(centers: Seq<ChunkPos>, a: Seq<ChunkLoader>, b: Seq<ChunkLoader>, p: PosKey)
    requires
        a.len() == b.len(),
        forall|i: int| 0 <= i < a.len() ==> #[trigger] a[i].range == b[i].range,
        centers.len() <= a.len(),
    ensures
        desired(centers, a, p) == desired(centers, b, p),
{
    if desired(centers, a, p) {
        let j = choose|j: int| 0 <= j < centers.len() && #[trigger] in_reach(centers[j], a[j].range, p);
        assert(in_reach(centers[j], b[j].range, p));
    }
    if desired(centers, b, p) {
        let j = choose|j: int| 0 <= j < centers.len() && #[trigger] in_reach(centers[j], b[j].range, p);
        assert(in_reach(centers[j], a[j].range, p));
    }
}

/// Updating twice with the loaders where they were: the second plan, made
/// from the state the first one left and with loaders of the same ranges
/// (they only recorded their chunk), spawns nothing and despawns nothing,
/// and carrying it out (`after_second`, as `apply_update` leaves it) keeps
/// every loaded chunk with its entity.
pub proof fn lemma_update_twice_settles(
    loaded: Map<PosKey, u64>,
    centers: Seq<ChunkPos>,
    loaders: Seq<ChunkLoader>,
    plan: ChunkPlan,
    after: Map<PosKey, u64>,
    loaders_after: Seq<ChunkLoader>,
    second: ChunkPlan,
    after_second: Map<PosKey, u64>,
)
    requires
        centers.len() == loaders.len(),
        plan.fits(loaded, centers, loaders),
        forall|p: PosKey| #[trigger] after.dom().contains(p) == loaded_after(loaded, plan, p),
        loaders_after.len() == loaders.len(),
        forall|i: int| 0 <= i < loaders.len() ==> #[trigger] loaders_after[i].range == loaders[i].range,
        second.fits(after, centers, loaders_after),
        forall|p: PosKey| #[trigger] after_second.dom().contains(p) == loaded_after(after, second, p),
        forall|p: PosKey| after.dom().contains(p) && !pair_listed(second.despawn@, p) && !pos_listed(second.spawn@, p)
            ==> #[trigger] after_second[p] == after[p],
    ensures
        second.spawn@.len() == 0,
        second.despawn@.len() == 0,
        after_second == after,
{
    lemma_update_loads_reached(loaded, centers, loaders, plan, after);
    assert forall|p: PosKey| #[trigger] after.dom().contains(p) == desired(centers, loaders_after, p) by {
        lemma_same_ranges_same_reach(centers, loaders, loaders_after, p);
    }
    lemma_settled_plan_is_empty(after, centers, loaders_after, second);
    lemma_empty_plan_keeps(after, second, after_second);
}


/// Carrying out a plan that spawns and despawns nothing leaves the loaded
/// chunks, and their entities, as they were (from `apply_update`'s
/// postcondition).
pub proof fn lemma_empty_plan_keeps(before: Map<PosKey, u64>, plan: ChunkPlan, after: Map<PosKey, u64>)
    requires
        plan.spawn@.len() == 0,
        plan.despawn@.len() == 0,
        forall|p: PosKey| #[trigger] after.dom().contains(p) == loaded_after(before, plan, p),
        forall|p: PosKey| before.dom().contains(p) && !pair_listed(plan.despawn@, p) && !pos_listed(plan.spawn@, p)
            ==> #[trigger] after[p] == before[p],
    ensures
        after == before,
{
    assert forall|p: PosKey| #[trigger] after.dom().contains(p) == before.dom().contains(p) by {
        if pos_listed(plan.spawn@, p) {
            let k = choose|k: int| 0 <= k < plan.spawn@.len() && #[trigger] plan.spawn@[k].key() == p;
        }
        if pair_listed(plan.despawn@, p) {
            let k = choose|k: int| 0 <= k < plan.despawn@.len() && #[trigger] plan.despawn@[k].0.key() == p;
        }
    }
    assert forall|p: PosKey| #[trigger] after.dom().contains(p) implies after[p] == before[p] by {
        assert(!pos_listed(plan.spawn@, p));
        assert(!pair_listed(plan.despawn@, p));
    }
    assert(after =~= before);
}


/// The chunks that the loaders want are the union of their cubes: chunk `p`
/// is wanted exactly when, for some loader `i` standing in chunk `c` with
/// range `r`, `p` is within `r` of `c` on each of the three axes (the same
/// range on x, y and z; a negative range reaches nothing).
pub proof fn lemma_desired_is_union_of_cubes(centers: Seq<ChunkPos>, loaders: Seq<ChunkLoader>, p: PosKey)
    ensures
        desired(centers, loaders, p) == exists|i: int|
            #![trigger centers[i]]
            0 <= i < centers.len() && -loaders[i].range <= p.0 - centers[i].x <= loaders[i].range
                && -loaders[i].range <= p.1 - centers[i].y <= loaders[i].range && -loaders[i].range <= p.2
                - centers[i].z <= loaders[i].range,
{
    if desired(centers, loaders, p) {
        let i = choose|i: int| 0 <= i < centers.len() && #[trigger] in_reach(centers[i], loaders[i].range, p);
        assert(0 <= i < centers.len() && -loaders[i].range <= p.0 - centers[i].x <= loaders[i].range
            && -loaders[i].range <= p.1 - centers[i].y <= loaders[i].range && -loaders[i].range <= p.2
            - centers[i].z <= loaders[i].range);
    }
    if exists|i: int|
        #![trigger centers[i]]
        0 <= i < centers.len() && -loaders[i].range <= p.0 - centers[i].x <= loaders[i].range
            && -loaders[i].range <= p.1 - centers[i].y <= loaders[i].range && -loaders[i].range <= p.2
            - centers[i].z <= loaders[i].range {
        let i = choose|i: int|
            #![trigger centers[i]]
            0 <= i < centers.len() && -loaders[i].range <= p.0 - centers[i].x <= loaders[i].range
                && -loaders[i].range <= p.1 - centers[i].y <= loaders[i].range && -loaders[i].range <= p.2
                - centers[i].z <= loaders[i].range;
        assert(in_reach(centers[i], loaders[i].range, p));
    }
}

/// From nothing loaded, one loader of range `r` standing in chunk `c` spawns
/// exactly the chunks `p` with `|p.x - c.x| <= r`, `|p.y - c.y| <= r` and
/// `|p.z - c.z| <= r`, each once, and despawns nothing.
pub proof fn lemma_single_loader_spawns_cube(c: ChunkPos, loader: ChunkLoader, plan: ChunkPlan)
    requires
        plan.fits(Map::<PosKey, u64>::empty(), seq![c], seq![loader]),
    ensures
        forall|p: PosKey| #[trigger] pos_listed(plan.spawn@, p) == (-loader.range <= p.0 - c.x <= loader.range
            && -loader.range <= p.1 - c.y <= loader.range && -loader.range <= p.2 - c.z <= loader.range),
        forall|a: int, b: int| 0 <= a < plan.spawn@.len() && 0 <= b < plan.spawn@.len() && a != b
            ==> #[trigger] plan.spawn@[a] != #[trigger] plan.spawn@[b],
        plan.despawn@.len() == 0,
{
    let cs = seq![c];
    let ls = seq![loader];
    assert forall|p: PosKey| #[trigger] pos_listed(plan.spawn@, p) == (-loader.range <= p.0 - c.x <= loader.range
        && -loader.range <= p.1 - c.y <= loader.range && -loader.range <= p.2 - c.z <= loader.range) by {
        lemma_desired_is_union_of_cubes(cs, ls, p);
        assert(cs[0] == c);
        assert(ls[0] == loader);
    }
    if plan.despawn@.len() > 0 {
        assert(pair_listed(plan.despawn@, plan.despawn@[0].0.key()));
    }
}

} // verus!
