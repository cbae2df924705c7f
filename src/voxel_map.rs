use vstd::prelude::*;
use crate::chunk_generator::{count_generates, lemma_count_generates_bounds, ChunkCommand, ChunkCommandQueue};
use crate::clipmap::{arr_of, active_chunks_of, index_extent_ok, index_point_ok, key_from_raw, SpatialIndex};
use crate::config::VoxelMapConfig;
use crate::chunk_meshes::{ChunkMeshes, MeshRecord};
use crate::level_of_detail::{lemma_center_in_range, lod0_center, lod0_center_of, LodState};
use crate::geom::{lemma_pow2_monotone, lemma_pow2_positive, pow2, pow2_i32, LodChunkKey, Point3i};
use crate::mesh_generator::{MeshCommand, MeshCommandQueue};
use crate::store::{coarse_key_of, downsampled_ok, VoxelStore};
use crate::terrain::{chunk_voxels_ok, generate_chunk_stack, heights_ok, lemma_seq_min_max, seq_max, seq_min, stack_high, stack_low};
use crate::voxel::{terrain_ok, TerrainConfig, Voxel};

verus! {

/// Terrain heights stay within this bound, so that every chunk key fits the index.
pub const HEIGHT_LIMIT: i32 = 0x8_0000;

/// Column keys (in chunks) stay within this bound.
pub const COLUMN_LIMIT: i32 = 0x4000;

/// The heights of the columns of one chunk footprint, indexed `z * e + x`.
pub open spec fn column_ok(key: Point3i, heights: Seq<i32>, e: int) -> bool {
    &&& heights.len() == e * e
    &&& -COLUMN_LIMIT <= key.x <= COLUMN_LIMIT
    &&& -COLUMN_LIMIT <= key.z <= COLUMN_LIMIT
    &&& forall|i: int| 0 <= i < heights.len() ==> -HEIGHT_LIMIT <= #[trigger] heights[i] <= HEIGHT_LIMIT
}

pub open spec fn lod0_key(p: Point3i) -> LodChunkKey {
    LodChunkKey { lod: 0, minimum: p }
}

/// `k` is one of the level-0 chunks of the stack generated above column `key`.
pub open spec fn stack_key(key: Point3i, heights: Seq<i32>, log2: nat, k: LodChunkKey) -> bool {
    let e = pow2(log2);
    &&& k.lod == 0
    &&& k.minimum.x == key.x * e
    &&& k.minimum.z == key.z * e
    &&& (k.minimum.y as int) % e == 0
    &&& stack_low(seq_min(heights), log2) <= (k.minimum.y as int) / e <= stack_high(seq_max(heights), log2)
}

/// The store after writing the stack of column `key`: the stack's chunks are
/// generated from the heights, every other chunk stays.
pub open spec fn stack_written(
    before: Map<LodChunkKey, Seq<Voxel>>,
    after: Map<LodChunkKey, Seq<Voxel>>,
    key: Point3i,
    heights: Seq<i32>,
    log2: nat,
    c: TerrainConfig,
) -> bool {
    &&& forall|k: LodChunkKey| #[trigger] after.contains_key(k) <==> before.contains_key(k) || stack_key(key, heights, log2, k)
    &&& forall|k: LodChunkKey| #[trigger] after.contains_key(k) && stack_key(key, heights, log2, k)
        ==> chunk_voxels_ok(after[k], heights, pow2(log2), k.minimum.y as int, c)
    &&& forall|k: LodChunkKey| #[trigger] before.contains_key(k) && !stack_key(key, heights, log2, k) ==> after[k] == before[k]
}

proof fn lemma_stack_y(y: int, first: int, t: int, e: int)
    requires
        e >= 1,
        y == (first + t) * e,
    ensures
        y % e == 0,
        y / e == first + t,
{
    vstd::arithmetic::div_mod::lemma_mod_multiples_basic(first + t, e);
    vstd::arithmetic::div_mod::lemma_div_multiples_vanish(first + t, e);
    assert(e * (first + t) == (first + t) * e) by (nonlinear_arith);
}

proof fn lemma_stack_y_back(y: int, e: int)
    requires
        e >= 1,
        y % e == 0,
    ensures
        y == (y / e) * e,
{
    vstd::arithmetic::div_mod::lemma_fundamental_div_mod(y, e);
    assert(e * (y / e) == (y / e) * e) by (nonlinear_arith);
}

/// Generates the stack of column `key` from its heights and writes it into
/// level 0.
pub fn write_stack(store: &mut VoxelStore, key: Point3i, heights: &Vec<i32>, c: TerrainConfig)
    requires
        old(store).wf(),
        column_ok(key, heights@, old(store).edge()),
        terrain_ok(c),
    ensures
        final(store).wf(),
        final(store).chunk_log2() == old(store).chunk_log2(),
        final(store).num_lods() == old(store).num_lods(),
        stack_written(old(store).view(), final(store).view(), key, heights@, old(store).chunk_log2() as nat, c),
{
    proof {
        store.lemma_wf();
    }
    let ghost v0 = store.view();
    let ghost log2 = store.chunk_log2() as nat;
    let ghost e = store.edge();
    let log2_exec = store.chunk_log2_exec();
    proof {
        assert(heights_ok(heights@));
        assert(heights@.len() >= 1) by (nonlinear_arith)
            requires heights@.len() == e * e, e >= 2;
        lemma_seq_min_max(heights@);
    }
    let mut stack = generate_chunk_stack(key, log2_exec, heights, c);
    let ghost s0 = stack@;
    let ghost first = stack_low(seq_min(heights@), log2);
    let ghost last = stack_high(seq_max(heights@), log2);
    let ghost keyof = |t: int| lod0_key(s0[t].0);
    let n = stack.len();
    proof {
        assert forall|t: int| 0 <= t < n implies {
            &&& (#[trigger] s0[t]).0.y as int == (first + t) * e
            &&& (s0[t].0.y as int) % e == 0
            &&& (s0[t].0.y as int) / e == first + t
            &&& -0x10_0000 <= s0[t].0.y <= 0x10_0000
        } by {
            lemma_stack_y((first + t) * e, first, t, e);
            crate::geom::lemma_pow2_positive(log2);
            assert(first * e > seq_min(heights@) - 1 - e && last * e <= seq_max(heights@) - 1) by {
                crate::terrain::lemma_floor_bounds(seq_min(heights@) - 1, e);
                crate::terrain::lemma_floor_bounds(seq_max(heights@) - 1, e);
            }
            assert(first * e <= (first + t) * e <= last * e) by (nonlinear_arith)
                requires 0 <= t <= last - first, e >= 1;
        }
    }
    while stack.len() > 0
        invariant
            store.wf(),
            store.chunk_log2() == log2,
            store.num_lods() == old(store).num_lods(),
            e == store.edge(),
            2 <= e <= 64,
            n == s0.len(),
            n == last - first + 1,
            stack@.len() <= n,
            stack@ == s0.take(stack@.len() as int),
            forall|t: int| 0 <= t < n ==> {
                &&& (#[trigger] s0[t]).0 == Point3i { x: (key.x * e) as i32, y: ((first + t) * e) as i32, z: (key.z * e) as i32 }
                &&& chunk_voxels_ok(s0[t].1@, heights@, e, (first + t) * e, c)
                &&& (s0[t].0.y as int) % e == 0
                &&& (s0[t].0.y as int) / e == first + t
                &&& -0x10_0000 <= s0[t].0.y <= 0x10_0000
            },
            column_ok(key, heights@, e),
            forall|k: LodChunkKey| #[trigger] store.view().contains_key(k) <==> v0.contains_key(k)
                || exists|t: int| stack@.len() <= t < n && k == lod0_key((#[trigger] s0[t]).0),
            forall|t: int| stack@.len() <= t < n ==> {
                let k = lod0_key((#[trigger] s0[t]).0);
                store.view().contains_key(k) && store.view()[k] == s0[t].1@
            },
            forall|k: LodChunkKey| #[trigger] v0.contains_key(k) && (forall|t: int| stack@.len() <= t < n ==> k != lod0_key((#[trigger] s0[t]).0))
                ==> store.view()[k] == v0[k],
        decreases stack@.len(),
    {
        let ghost len0 = stack@.len();
        let (min, data) = stack.pop().unwrap();
        let ghost t0 = len0 - 1;
        assert(stack@ =~= s0.take(t0));
        proof {
            assert(s0[t0] == (min, data));
            assert(-0x10_0000 <= min.x <= 0x10_0000 && (min.x as int) % e == 0) by {
                assert(-0x10_0000 <= key.x * e <= 0x10_0000) by (nonlinear_arith)
                    requires -COLUMN_LIMIT <= key.x <= COLUMN_LIMIT, 2 <= e <= 64;
                assert(min.x == key.x * e);
                vstd::arithmetic::div_mod::lemma_mod_multiples_basic(key.x as int, e);
            }
            assert(-0x10_0000 <= min.z <= 0x10_0000 && (min.z as int) % e == 0) by {
                assert(-0x10_0000 <= key.z * e <= 0x10_0000) by (nonlinear_arith)
                    requires -COLUMN_LIMIT <= key.z <= COLUMN_LIMIT, 2 <= e <= 64;
                assert(min.z == key.z * e);
                vstd::arithmetic::div_mod::lemma_mod_multiples_basic(key.z as int, e);
            }
        }
        proof {
            store.lemma_wf();
            assert(s0[t0].0.y == min.y);
            assert((min.y as int) % e == 0 && -0x10_0000 <= min.y <= 0x10_0000);
        }
        let ghost before = store.view();
        store.write_chunk(LodChunkKey { lod: 0, minimum: min }, data);
        proof {
            let kk = lod0_key(min);
            assert forall|t: int| t0 <= t < n implies {
                let k = lod0_key((#[trigger] s0[t]).0);
                store.view().contains_key(k) && store.view()[k] == s0[t].1@
            } by {
                if t > t0 {
                    assert(s0[t].0.y != s0[t0].0.y);
                }
            }
            assert forall|k: LodChunkKey| #[trigger] store.view().contains_key(k) <==> v0.contains_key(k)
                || exists|t: int| t0 <= t < n && k == lod0_key((#[trigger] s0[t]).0) by {
                if k == kk {
                    assert(k == lod0_key(s0[t0].0));
                }
            }
            assert forall|k: LodChunkKey| #[trigger] v0.contains_key(k) && (forall|t: int| t0 <= t < n ==> k != lod0_key((#[trigger] s0[t]).0))
                implies store.view()[k] == v0[k] by {
                assert(k != lod0_key(s0[t0].0));
            }
        }
    }
    proof {
        let v = store.view();
        assert forall|k: LodChunkKey| stack_key(key, heights@, log2, k) implies
            exists|t: int| 0 <= t < n && k == lod0_key((#[trigger] s0[t]).0) by {
            let t = (k.minimum.y as int) / e - first;
            lemma_stack_y_back(k.minimum.y as int, e);
            assert(k.minimum == s0[t].0);
        }
        assert(-0x10_0000 <= key.x * e <= 0x10_0000 && -0x10_0000 <= key.z * e <= 0x10_0000) by (nonlinear_arith)
            requires -COLUMN_LIMIT <= key.x <= COLUMN_LIMIT, -COLUMN_LIMIT <= key.z <= COLUMN_LIMIT, 2 <= e <= 64;
        assert forall|t: int| 0 <= t < n implies stack_key(key, heights@, log2, lod0_key((#[trigger] s0[t]).0)) by {
        }
        assert forall|k: LodChunkKey| #[trigger] v.contains_key(k) <==> v0.contains_key(k) || stack_key(key, heights@, log2, k) by {
            if stack_key(key, heights@, log2, k) {
                let t = choose|t: int| 0 <= t < n && k == lod0_key((#[trigger] s0[t]).0);
            }
        }
        assert forall|k: LodChunkKey| #[trigger] v.contains_key(k) && stack_key(key, heights@, log2, k)
            implies chunk_voxels_ok(v[k], heights@, e, k.minimum.y as int, c) by {
            let t = choose|t: int| 0 <= t < n && k == lod0_key((#[trigger] s0[t]).0);
        }
        assert forall|k: LodChunkKey| #[trigger] v0.contains_key(k) && !stack_key(key, heights@, log2, k) implies v[k] == v0[k] by {
            assert forall|t: int| 0 <= t < n implies k != lod0_key((#[trigger] s0[t]).0) by {
                assert(stack_key(key, heights@, log2, lod0_key(s0[t].0)));
            }
        }
    }
}


/// Level 0 of the store at the height-0 chunk of chunk column `p`.
pub open spec fn ground_key(p: Point3i, log2: nat) -> LodChunkKey {
    LodChunkKey { lod: 0, minimum: Point3i { x: (p.x * pow2(log2)) as i32, y: 0, z: (p.z * pow2(log2)) as i32 } }
}

/// `p` (in chunks, at height 0) lies in the world's footprint moved to center `c`.
pub open spec fn in_footprint(config: &VoxelMapConfig, c: Point3i, p: Point3i) -> bool {
    let ext = config.world_chunks_extent;
    &&& p.y == 0
    &&& ext.minimum.x + c.x <= p.x < ext.minimum.x + ext.shape.x + c.x
    &&& ext.minimum.z + c.z <= p.z < ext.minimum.z + ext.shape.z + c.z
}

/// `cmd` asks to generate a footprint column around `c` whose ground chunk is missing.
pub open spec fn detected(cmd: ChunkCommand, config: &VoxelMapConfig, c: Point3i, view: Map<LodChunkKey, Seq<Voxel>>, log2: nat) -> bool {
    match cmd {
        ChunkCommand::Generate(p) => in_footprint(config, c, p) && !view.contains_key(ground_key(p, log2)),
        _ => false,
    }
}

/// A generation command for a column that comes before `(zs, xs)` in scan order.
pub open spec fn scanned_before(cmd: ChunkCommand, zs: int, xs: int) -> bool {
    match cmd {
        ChunkCommand::Generate(p) => p.z < zs || (p.z == zs && p.x < xs),
        _ => false,
    }
}

proof fn lemma_center_small(p: Point3i, chunk_log2: int)
    requires
        1 <= chunk_log2 <= 6,
        -0x7000 <= p.x <= 0x7000,
        -0x7000 <= p.z <= 0x7000,
    ensures
        -0x4000 <= lod0_center_of(p, chunk_log2).x <= 0x4000,
        -0x4000 <= lod0_center_of(p, chunk_log2).z <= 0x4000,
{
    lemma_pow2_monotone(1, chunk_log2 as nat);
    reveal_with_fuel(pow2, 2);
    let d = pow2(chunk_log2 as nat);
    assert(-0x4000 <= (p.x as int) / d <= 0x4000) by (nonlinear_arith)
        requires -0x7000 <= p.x <= 0x7000, d >= 2;
    assert(-0x4000 <= (p.z as int) / d <= 0x4000) by (nonlinear_arith)
        requires -0x7000 <= p.z <= 0x7000, d >= 2;
}

proof fn lemma_world_extent_ok(config: &VoxelMapConfig)
    requires
        config.wf(),
    ensures
        index_extent_ok(config.world_voxel_extent),
{
    lemma_pow2_monotone(config.chunk_log2 as nat, 6);
    lemma_pow2_monotone(1, config.chunk_log2 as nat);
    reveal_with_fuel(pow2, 7);
}

proof fn lemma_count_gens_bound(s: Seq<ChunkCommand>, i: int)
    requires
        0 <= i <= s.len(),
    ensures
        0 <= count_generates(s.take(i)) <= count_generates(s),
        count_generates(s.take(i)) <= i,
    decreases s.len() - i,
{
    lemma_count_generates_bounds(s.take(i));
    if i < s.len() {
        lemma_count_gens_bound(s, i + 1);
        assert(s.take(i + 1).drop_last() =~= s.take(i));
        assert(count_generates(s.take(i)) <= count_generates(s.take(i + 1)));
    } else {
        assert(s.take(i) =~= s);
    }
}

/// The commands of a batch are well-formed: one column of heights per
/// generation command, in order, and edits of whole chunks within bounds.
pub open spec fn batch_ok(batch: Seq<ChunkCommand>, heights: Seq<Vec<i32>>, e: int) -> bool {
    &&& heights.len() == count_generates(batch)
    &&& forall|i: int| 0 <= i < batch.len() ==> match #[trigger] batch[i] {
        ChunkCommand::Generate(key) => column_ok(key, heights[count_generates(batch.take(i))]@, e),
        ChunkCommand::Edit(key, data) => {
            &&& data@.len() == e * e * e
            &&& -COLUMN_LIMIT <= key.x <= COLUMN_LIMIT
            &&& -COLUMN_LIMIT <= key.y <= COLUMN_LIMIT
            &&& -COLUMN_LIMIT <= key.z <= COLUMN_LIMIT
        },
        ChunkCommand::Remove(_) => true,
    }
}

/// The level-0 chunk `k` is written by one of the first `n` commands of the batch.
pub open spec fn batch_writes(batch: Seq<ChunkCommand>, heights: Seq<Vec<i32>>, log2: nat, n: int, k: LodChunkKey) -> bool {
    exists|i: int| 0 <= i < n && #[trigger] command_writes(batch[i], heights, count_generates(batch.take(i)), log2, k)
}

pub open spec fn command_writes(c: ChunkCommand, heights: Seq<Vec<i32>>, g: int, log2: nat, k: LodChunkKey) -> bool {
    match c {
        ChunkCommand::Generate(key) => stack_key(key, heights[g]@, log2, k),
        ChunkCommand::Edit(key, _) => k == LodChunkKey { lod: 0, minimum: Point3i {
            x: (key.x * pow2(log2)) as i32, y: (key.y * pow2(log2)) as i32, z: (key.z * pow2(log2)) as i32 } },
        ChunkCommand::Remove(_) => false,
    }
}

/// `v` is what command `c` writes at key `k`: the generated voxels of its stack,
/// or the edit's data.
pub open spec fn written_by(v: Seq<Voxel>, c: ChunkCommand, heights: Seq<Vec<i32>>, g: int, log2: nat, terrain: TerrainConfig, k: LodChunkKey) -> bool {
    match c {
        ChunkCommand::Generate(_) => chunk_voxels_ok(v, heights[g]@, pow2(log2), k.minimum.y as int, terrain),
        ChunkCommand::Edit(_, data) => v == data@,
        ChunkCommand::Remove(_) => false,
    }
}

/// Command `t` is the last of the first `n` commands of the batch to write `k`.
pub open spec fn last_write(batch: Seq<ChunkCommand>, heights: Seq<Vec<i32>>, log2: nat, n: int, k: LodChunkKey, t: int) -> bool {
    &&& 0 <= t < n
    &&& command_writes(batch[t], heights, count_generates(batch.take(t)), log2, k)
    &&& forall|j: int| t < j < n ==> !#[trigger] command_writes(batch[j], heights, count_generates(batch.take(j)), log2, k)
}

proof fn lemma_batch_writes_step(batch: Seq<ChunkCommand>, heights: Seq<Vec<i32>>, log2: nat, i: int, k: LodChunkKey)
    requires
        0 <= i < batch.len(),
    ensures
        batch_writes(batch, heights, log2, i + 1, k) == (batch_writes(batch, heights, log2, i, k)
            || command_writes(batch[i], heights, count_generates(batch.take(i)), log2, k)),
{
    if command_writes(batch[i], heights, count_generates(batch.take(i)), log2, k) {
        assert(batch_writes(batch, heights, log2, i + 1, k));
    }
    if batch_writes(batch, heights, log2, i + 1, k) && !command_writes(batch[i], heights, count_generates(batch.take(i)), log2, k) {
        let j = choose|j: int| 0 <= j < i + 1 && #[trigger] command_writes(batch[j], heights, count_generates(batch.take(j)), log2, k);
        assert(j < i);
    }
}

/// Enqueues a creation command for every key, in order.
fn enqueue_creates(mesh_commands: &mut MeshCommandQueue, keys: Vec<LodChunkKey>)
    ensures
        ({
            let n = keys@.len();
            &&& final(mesh_commands)@.len() == old(mesh_commands)@.len() + n
            &&& final(mesh_commands)@.skip(n as int) == old(mesh_commands)@
            &&& forall|j: int| 0 <= j < n ==> #[trigger] final(mesh_commands)@[j] == MeshCommand::Create(keys@[j])
        }),
{
    let ghost q0 = mesh_commands@;
    let n = keys.len();
    let mut keys = keys;
    let ghost k0 = keys@;
    let mut i: usize = 0;
    while i < n
        invariant
            n == k0.len(),
            0 <= i <= n,
            keys@ == k0.take(n - i),
            mesh_commands@.len() == q0.len() + i,
            mesh_commands@.skip(i as int) == q0,
            forall|j: int| 0 <= j < i ==> #[trigger] mesh_commands@[j] == MeshCommand::Create(k0[n - i + j]),
        decreases n - i,
    {
        let k = keys.pop().unwrap();
        let ghost before = mesh_commands@;
        mesh_commands.enqueue(MeshCommand::Create(k));
        assert(mesh_commands@.skip(i + 1) =~= before.skip(i as int));
        assert(keys@ =~= k0.take(n - i - 1));
        i = i + 1;
    }
}

/// Copies voxel data.
fn copy_voxels(v: &Vec<Voxel>) -> (r: Vec<Voxel>)
    ensures
        r@ == v@,
{
    let mut r: Vec<Voxel> = Vec::with_capacity(v.len());
    let mut i: usize = 0;
    while i < v.len()
        invariant
            0 <= i <= v@.len(),
            r@ == v@.take(i as int),
        decreases v@.len() - i,
    {
        r.push(v[i]);
        assert(r@ =~= v@.take(i + 1));
        i = i + 1;
    }
    assert(v@.take(v@.len() as int) =~= v@);
    r
}

/// The voxel world: chunk data at every level of detail, and the octree index
/// over its level-0 chunks.
pub struct VoxelMap {
    pub store: VoxelStore,
    pub index: SpatialIndex,
}

/// The index holds exactly the level-0 chunks of the store.
pub open spec fn index_matches(index: &SpatialIndex, view: Map<LodChunkKey, Seq<Voxel>>) -> bool {
    forall|p: Point3i| #[trigger] index.chunks().contains(arr_of(p)) <==> view.contains_key(lod0_key(p))
}

/// The coarser levels are point-sampled from the finer ones, and only where
/// finer chunks exist.
pub open spec fn pyramid_ok(view: Map<LodChunkKey, Seq<Voxel>>, log2: nat, num_lods: int) -> bool {
    &&& forall|f: LodChunkKey| #[trigger] view.contains_key(f) && f.lod + 1 < num_lods ==> {
        let c = coarse_key_of(f, log2);
        view.contains_key(c) && downsampled_ok(view, c, pow2(log2), view[c])
    }
    &&& forall|k: LodChunkKey| #[trigger] view.contains_key(k) && k.lod >= 1 ==> exists|f: LodChunkKey|
        view.contains_key(f) && f.lod + 1 == k.lod && coarse_key_of(f, log2) == k
}

/// Level 0 holds exactly the stacks of the columns, each chunk generated from
/// the heights of a column whose stack holds it.
pub open spec fn generated_from(
    view: Map<LodChunkKey, Seq<Voxel>>,
    columns: Seq<(Point3i, Vec<i32>)>,
    log2: nat,
    terrain: TerrainConfig,
) -> bool {
    &&& forall|k: LodChunkKey| k.lod == 0 ==> (#[trigger] view.contains_key(k) <==> exists|j: int|
        0 <= j < columns.len() && stack_key((#[trigger] columns[j]).0, columns[j].1@, log2, k))
    &&& forall|k: LodChunkKey| #[trigger] view.contains_key(k) && k.lod == 0 ==> exists|j: int|
        0 <= j < columns.len() && stack_key((#[trigger] columns[j]).0, columns[j].1@, log2, k)
        && chunk_voxels_ok(view[k], columns[j].1@, pow2(log2), k.minimum.y as int, terrain)
}

pub open spec fn columns_ok(columns: Seq<(Point3i, Vec<i32>)>, e: int) -> bool {
    forall|j: int| 0 <= j < columns.len() ==> column_ok((#[trigger] columns[j]).0, columns[j].1@, e)
}

impl VoxelMap {
    pub open spec fn wf(&self, config: &VoxelMapConfig) -> bool {
        &&& config.wf()
        &&& self.store.wf()
        &&& self.index.wf()
        &&& self.store.chunk_log2() == config.chunk_log2
        &&& self.store.num_lods() == config.num_lods
        &&& self.index.chunk_log2() == config.chunk_log2
        &&& self.index.superchunk_log2() == config.chunk_log2 + config.num_lods - 1
        &&& index_matches(&self.index, self.store.view())
    }

    /// Downsamples level 0 into the coarser levels and indexes it anew.
    fn rebuild(store: &mut VoxelStore, config: &VoxelMapConfig) -> (index: SpatialIndex)
        requires
            config.wf(),
            old(store).wf(),
            old(store).chunk_log2() == config.chunk_log2,
            old(store).num_lods() == config.num_lods,
        ensures
            (VoxelMap { store: *final(store), index }).wf(config),
            forall|k: LodChunkKey| k.lod == 0 ==> (#[trigger] final(store).view().contains_key(k)) == old(store).view().contains_key(k)
                && (old(store).view().contains_key(k) ==> final(store).view()[k] == old(store).view()[k]),
            forall|f: LodChunkKey| #[trigger] final(store).view().contains_key(f) && f.lod + 1 < config.num_lods ==> {
                let c = coarse_key_of(f, config.chunk_log2 as nat);
                final(store).view().contains_key(c) && downsampled_ok(final(store).view(), c, pow2(config.chunk_log2 as nat), final(store).view()[c])
            },
            forall|k: LodChunkKey| #[trigger] final(store).view().contains_key(k) && k.lod >= 1 ==> old(store).view().contains_key(k)
                || exists|f: LodChunkKey| final(store).view().contains_key(f) && f.lod + 1 == k.lod
                    && coarse_key_of(f, config.chunk_log2 as nat) == k,
    {
        store.downsample();
        let mins = store.lod0_chunk_mins();
        let index = SpatialIndex::index_chunks(config, &mins);
        proof {
            assert forall|p: Point3i| #[trigger] index.chunks().contains(arr_of(p)) <==> store.view().contains_key(lod0_key(p)) by {
                let arrs = mins@.map_values(|q: Point3i| arr_of(q));
                if index.chunks().contains(arr_of(p)) {
                    let i = choose|i: int| 0 <= i < arrs.len() && arrs[i] == arr_of(p);
                    assert(arr_of(mins@[i]) == arr_of(p));
                    assert(arr_of(mins@[i])@[0] == mins@[i].x);
                    assert(arr_of(p)@[0] == p.x);
                    assert(arr_of(mins@[i])@[1] == mins@[i].y);
                    assert(arr_of(p)@[1] == p.y);
                    assert(arr_of(mins@[i])@[2] == mins@[i].z);
                    assert(arr_of(p)@[2] == p.z);
                    assert(mins@[i] == p);
                    assert(mins@.contains(p));
                }
                if store.view().contains_key(lod0_key(p)) {
                    assert(mins@.contains(p));
                    let i = choose|i: int| 0 <= i < mins@.len() && mins@[i] == p;
                    assert(arrs[i] == arr_of(p));
                    assert(arrs.contains(arr_of(p)));
                }
            }
        }
        index
    }

    /// Generates the world from the heights of its columns: each column's stack
    /// of level-0 chunks, then the coarser levels, then the index.
    pub fn generate_map(config: &VoxelMapConfig, terrain: TerrainConfig, columns: &Vec<(Point3i, Vec<i32>)>) -> (r: VoxelMap)
        requires
            config.wf(),
            terrain_ok(terrain),
            columns_ok(columns@, pow2(config.chunk_log2 as nat)),
        ensures
            r.wf(config),
            pyramid_ok(r.store.view(), config.chunk_log2 as nat, config.num_lods as int),
            generated_from(r.store.view(), columns@, config.chunk_log2 as nat, terrain),
    {
        let mut store = VoxelStore::new(config);
        let ghost log2 = config.chunk_log2 as nat;
        let ghost e = pow2(log2);
        let mut j: usize = 0;
        while j < columns.len()
            invariant
                config.wf(),
                terrain_ok(terrain),
                store.wf(),
                store.chunk_log2() == config.chunk_log2,
                store.num_lods() == config.num_lods,
                log2 == config.chunk_log2 as nat,
                e == pow2(log2),
                store.edge() == e,
                columns_ok(columns@, e),
                0 <= j <= columns@.len(),
                forall|k: LodChunkKey| #[trigger] store.view().contains_key(k) ==> k.lod == 0 && exists|t: int|
                    0 <= t < j && stack_key((#[trigger] columns@[t]).0, columns@[t].1@, log2, k)
                    && chunk_voxels_ok(store.view()[k], columns@[t].1@, e, k.minimum.y as int, terrain),
                forall|t: int, k: LodChunkKey| 0 <= t < j && stack_key((#[trigger] columns@[t]).0, columns@[t].1@, log2, k)
                    ==> #[trigger] store.view().contains_key(k),
            decreases columns@.len() - j,
        {
            let ghost before = store.view();
            write_stack(&mut store, columns[j].0, &columns[j].1, terrain);
            proof {
                assert forall|k: LodChunkKey| #[trigger] store.view().contains_key(k) implies k.lod == 0 && exists|t: int|
                    0 <= t < j + 1 && stack_key((#[trigger] columns@[t]).0, columns@[t].1@, log2, k)
                    && chunk_voxels_ok(store.view()[k], columns@[t].1@, e, k.minimum.y as int, terrain) by {
                    if !stack_key(columns@[j as int].0, columns@[j as int].1@, log2, k) {
                        assert(before.contains_key(k));
                    }
                }
            }
            j = j + 1;
        }
        let ghost pre = store.view();
        let index = VoxelMap::rebuild(&mut store, config);
        let r = VoxelMap { store, index };
        proof {
            assert forall|k: LodChunkKey| #[trigger] r.store.view().contains_key(k) && k.lod >= 1 implies exists|f: LodChunkKey|
                r.store.view().contains_key(f) && f.lod + 1 == k.lod && coarse_key_of(f, log2) == k by {
                if pre.contains_key(k) {
                    assert(k.lod == 0);
                }
            }
        }
        r
    }

    /// Generates the world (see `generate_map`) and queues the creation of the
    /// meshes of every chunk that the clipmap shows around `lod0_center`.
    pub fn new(
        config: &VoxelMapConfig,
        terrain: TerrainConfig,
        columns: &Vec<(Point3i, Vec<i32>)>,
        lod0_center: Point3i,
        mesh_commands: &mut MeshCommandQueue,
    ) -> (r: VoxelMap)
        requires
            config.wf(),
            terrain_ok(terrain),
            columns_ok(columns@, pow2(config.chunk_log2 as nat)),
            index_point_ok(arr_of(lod0_center)),
        ensures
            r.wf(config),
            pyramid_ok(r.store.view(), config.chunk_log2 as nat, config.num_lods as int),
            generated_from(r.store.view(), columns@, config.chunk_log2 as nat, terrain),
            ({
                let active = active_chunks_of(r.index.chunks(), r.index.chunk_log2(), r.index.superchunk_log2(),
                    arr_of(config.world_voxel_extent.minimum), arr_of(config.world_voxel_extent.shape),
                    config.clip_box_radius as u16, arr_of(lod0_center));
                let n = active.len();
                &&& final(mesh_commands)@.len() == old(mesh_commands)@.len() + n
                &&& final(mesh_commands)@.skip(n as int) == old(mesh_commands)@
                &&& forall|j: int| 0 <= j < n ==> #[trigger] final(mesh_commands)@[j] == MeshCommand::Create(key_from_raw(active[j]))
            }),
    {
        let map = VoxelMap::generate_map(config, terrain, columns);
        proof {
            lemma_world_extent_ok(config);
        }
        let keys = map.index.active_clipmap_lod_chunks(&config.world_voxel_extent, config.clip_box_radius, lod0_center);
        enqueue_creates(mesh_commands, keys);
        map
    }

    /// Writes a frame's chunk commands into level 0, in order, then rebuilds
    /// the coarser levels and the index. A generation command takes its column
    /// heights from `heights`, in the order of the generation commands; an edit
    /// writes its chunk (keyed in chunks) whole; a removal is accepted and has
    /// no effect, as chunks are never unloaded.
    pub fn apply_chunk_batch(&mut self, config: &VoxelMapConfig, terrain: TerrainConfig, batch: &Vec<ChunkCommand>, heights: &Vec<Vec<i32>>)
        requires
            old(self).wf(config),
            terrain_ok(terrain),
            batch_ok(batch@, heights@, pow2(config.chunk_log2 as nat)),
        ensures
            final(self).wf(config),
            forall|k: LodChunkKey| k.lod == 0 ==> (#[trigger] final(self).store.view().contains_key(k) <==>
                old(self).store.view().contains_key(k) || batch_writes(batch@, heights@, config.chunk_log2 as nat, batch@.len() as int, k)),
            forall|k: LodChunkKey| #[trigger] old(self).store.view().contains_key(k) && k.lod == 0
                && !batch_writes(batch@, heights@, config.chunk_log2 as nat, batch@.len() as int, k)
                ==> final(self).store.view()[k] == old(self).store.view()[k],
            forall|k: LodChunkKey| k.lod == 0 && #[trigger] batch_writes(batch@, heights@, config.chunk_log2 as nat, batch@.len() as int, k)
                ==> exists|t: int| last_write(batch@, heights@, config.chunk_log2 as nat, batch@.len() as int, k, t)
                    && written_by(final(self).store.view()[k], batch@[t], heights@, count_generates(batch@.take(t)),
                        config.chunk_log2 as nat, terrain, k),
            forall|f: LodChunkKey| #[trigger] final(self).store.view().contains_key(f) && f.lod + 1 < config.num_lods ==> {
                let c = coarse_key_of(f, config.chunk_log2 as nat);
                final(self).store.view().contains_key(c)
                    && downsampled_ok(final(self).store.view(), c, pow2(config.chunk_log2 as nat), final(self).store.view()[c])
            },
    {
        let ghost log2 = config.chunk_log2 as nat;
        let ghost e = pow2(log2);
        let ghost v0 = self.store.view();
        let e32 = pow2_i32(config.chunk_log2 as u32);
        proof {
            self.store.lemma_wf();
        }
        let mut g: usize = 0;
        let mut i: usize = 0;
        while i < batch.len()
            invariant
                config.wf(),
                terrain_ok(terrain),
                self.store.wf(),
                self.store.chunk_log2() == config.chunk_log2,
                self.store.num_lods() == config.num_lods,
                log2 == config.chunk_log2 as nat,
                e == pow2(log2),
                e32 == e,
                self.store.edge() == e,
                batch_ok(batch@, heights@, e),
                0 <= i <= batch@.len(),
                g == count_generates(batch@.take(i as int)),
                forall|k: LodChunkKey| k.lod == 0 ==> (#[trigger] self.store.view().contains_key(k) <==>
                    v0.contains_key(k) || batch_writes(batch@, heights@, log2, i as int, k)),
                forall|k: LodChunkKey| k.lod != 0 ==> (#[trigger] self.store.view().contains_key(k) <==> v0.contains_key(k)),
                forall|k: LodChunkKey| #[trigger] v0.contains_key(k) && k.lod == 0 && !batch_writes(batch@, heights@, log2, i as int, k)
                    ==> self.store.view()[k] == v0[k],
                forall|k: LodChunkKey| k.lod == 0 && #[trigger] batch_writes(batch@, heights@, log2, i as int, k)
                    ==> exists|t: int| last_write(batch@, heights@, log2, i as int, k, t)
                        && written_by(self.store.view()[k], batch@[t], heights@, count_generates(batch@.take(t)), log2, terrain, k),
            decreases batch@.len() - i,
        {
            proof {
                self.store.lemma_wf();
                assert(batch@.take(i + 1).drop_last() =~= batch@.take(i as int));
                lemma_count_gens_bound(batch@, i as int);
            }
            let ghost before = self.store.view();
            match &batch[i] {
                ChunkCommand::Generate(key) => {
                    proof {
                        lemma_count_gens_bound(batch@, i + 1);
                        assert(count_generates(batch@.take(i + 1)) == g + 1);
                    }
                    write_stack(&mut self.store, *key, &heights[g], terrain);
                    g = g + 1;
                },
                ChunkCommand::Edit(key, data) => {
                    proof {
                        assert(-0x10_0000 <= key.x * e <= 0x10_0000 && -0x10_0000 <= key.y * e <= 0x10_0000
                            && -0x10_0000 <= key.z * e <= 0x10_0000) by (nonlinear_arith)
                            requires -COLUMN_LIMIT <= key.x <= COLUMN_LIMIT, -COLUMN_LIMIT <= key.y <= COLUMN_LIMIT,
                                -COLUMN_LIMIT <= key.z <= COLUMN_LIMIT, 2 <= e <= 64;
                        vstd::arithmetic::div_mod::lemma_mod_multiples_basic(key.x as int, e);
                        vstd::arithmetic::div_mod::lemma_mod_multiples_basic(key.y as int, e);
                        vstd::arithmetic::div_mod::lemma_mod_multiples_basic(key.z as int, e);
                    }
                    let min = Point3i { x: key.x * e32, y: key.y * e32, z: key.z * e32 };
                    let copy = copy_voxels(data);
                    self.store.write_chunk(LodChunkKey { lod: 0, minimum: min }, copy);
                },
                ChunkCommand::Remove(_) => {},
            }
            proof {
                assert forall|k: LodChunkKey| k.lod == 0 implies (#[trigger] self.store.view().contains_key(k) <==>
                    v0.contains_key(k) || batch_writes(batch@, heights@, log2, i + 1, k)) by {
                    lemma_batch_writes_step(batch@, heights@, log2, i as int, k);
                }
                assert forall|k: LodChunkKey| #[trigger] v0.contains_key(k) && k.lod == 0 && !batch_writes(batch@, heights@, log2, i + 1, k)
                    implies self.store.view()[k] == v0[k] by {
                    lemma_batch_writes_step(batch@, heights@, log2, i as int, k);
                    assert(before.contains_key(k));
                }
                assert forall|k: LodChunkKey| k.lod == 0 && #[trigger] batch_writes(batch@, heights@, log2, i + 1, k)
                    implies exists|t: int| last_write(batch@, heights@, log2, i + 1, k, t)
                        && written_by(self.store.view()[k], batch@[t], heights@, count_generates(batch@.take(t)), log2, terrain, k) by {
                    lemma_batch_writes_step(batch@, heights@, log2, i as int, k);
                    let g = count_generates(batch@.take(i as int));
                    if command_writes(batch@[i as int], heights@, g, log2, k) {
                        assert(last_write(batch@, heights@, log2, i + 1, k, i as int));
                        match batch@[i as int] {
                            ChunkCommand::Generate(key) => {
                                assert(stack_key(key, heights@[g]@, log2, k));
                                assert(self.store.view().contains_key(k));
                            },
                            ChunkCommand::Edit(key, data) => {},
                            ChunkCommand::Remove(_) => {},
                        }
                        assert(written_by(self.store.view()[k], batch@[i as int], heights@, g, log2, terrain, k));
                    } else {
                        let t = choose|t: int| last_write(batch@, heights@, log2, i as int, k, t)
                            && written_by(before[k], batch@[t], heights@, count_generates(batch@.take(t)), log2, terrain, k);
                        assert(before.contains_key(k));
                        assert(self.store.view()[k] == before[k]);
                        assert(last_write(batch@, heights@, log2, i + 1, k, t));
                    }
                }
            }
            i = i + 1;
        }
        let ghost pre = self.store.view();
        let index = VoxelMap::rebuild(&mut self.store, config);
        self.index = index;
        proof {
            assert forall|k: LodChunkKey| #[trigger] v0.contains_key(k) && k.lod == 0
                && !batch_writes(batch@, heights@, log2, batch@.len() as int, k) implies self.store.view()[k] == v0[k] by {
                assert(self.store.view().contains_key(k) == pre.contains_key(k));
            }
            assert forall|k: LodChunkKey| k.lod == 0 && #[trigger] batch_writes(batch@, heights@, log2, batch@.len() as int, k)
                implies exists|t: int| last_write(batch@, heights@, log2, batch@.len() as int, k, t)
                    && written_by(self.store.view()[k], batch@[t], heights@, count_generates(batch@.take(t)), log2, terrain, k) by {
                assert(self.store.view().contains_key(k) == pre.contains_key(k));
            }
        }
    }

    /// The chunk keys (in chunks) of the world's footprint around the viewer at
    /// voxel `viewer_voxel` whose level-0 chunk at height 0 is missing: each
    /// is queued for generation.
    pub fn chunk_detection_system(&self, config: &VoxelMapConfig, viewer_voxel: Point3i, chunk_commands: &mut ChunkCommandQueue)
        requires
            config.wf(),
            self.store.wf(),
            -0x7000 <= viewer_voxel.x <= 0x7000,
            -0x7000 <= viewer_voxel.z <= 0x7000,
        ensures
            ({
                let c = lod0_center_of(viewer_voxel, config.chunk_log2 as int);
                let log2 = config.chunk_log2 as nat;
                let n = final(chunk_commands)@.len() - old(chunk_commands)@.len();
                let q = final(chunk_commands)@;
                &&& n >= 0
                &&& q.skip(n) == old(chunk_commands)@
                &&& forall|j: int| 0 <= j < n ==> detected(#[trigger] q[j], config, c, self.store.view(), log2)
                &&& forall|j1: int, j2: int| 0 <= j1 < j2 < n ==> #[trigger] q[j1] != #[trigger] q[j2]
                &&& forall|p: Point3i| in_footprint(config, c, p) && !self.store.view().contains_key(ground_key(p, log2))
                    ==> exists|j: int| 0 <= j < n && q[j] == ChunkCommand::Generate(p)
            }),
    {
        let c = lod0_center(viewer_voxel, config.chunk_log2);
        proof {
            lemma_center_small(viewer_voxel, config.chunk_log2 as int);
        }
        let e = pow2_i32(config.chunk_log2 as u32);
        proof {
            lemma_pow2_monotone(config.chunk_log2 as nat, 6);
            lemma_pow2_monotone(1, config.chunk_log2 as nat);
            reveal_with_fuel(pow2, 7);
        }
        let ghost log2 = config.chunk_log2 as nat;
        let ghost view = self.store.view();
        let ext = config.world_chunks_extent;
        let ghost q0 = chunk_commands@;
        let mut z: i32 = ext.minimum.z;
        while z < ext.minimum.z + ext.shape.z
            invariant
                config.wf(),
                self.store.wf(),
                view == self.store.view(),
                log2 == config.chunk_log2 as nat,
                ext == config.world_chunks_extent,
                ext.minimum.z <= z <= ext.minimum.z + ext.shape.z,
                -0x4000 <= c.x <= 0x4000,
                -0x4000 <= c.z <= 0x4000,
                e == pow2(config.chunk_log2 as nat),
                2 <= e <= 64,
                c == lod0_center_of(viewer_voxel, config.chunk_log2 as int),
                chunk_commands@.len() >= q0.len(),
                chunk_commands@.skip(chunk_commands@.len() - q0.len()) == q0,
                forall|j: int| 0 <= j < chunk_commands@.len() - q0.len() ==> detected(#[trigger] chunk_commands@[j], config, c, view, log2)
                    && scanned_before(chunk_commands@[j], z + c.z, i32::MIN as int),
                forall|j1: int, j2: int| 0 <= j1 < j2 < chunk_commands@.len() - q0.len()
                    ==> #[trigger] chunk_commands@[j1] != #[trigger] chunk_commands@[j2],
                forall|p: Point3i| in_footprint(config, c, p) && p.z < z + c.z && !view.contains_key(ground_key(p, log2))
                    ==> exists|j: int| 0 <= j < chunk_commands@.len() - q0.len() && chunk_commands@[j] == ChunkCommand::Generate(p),
            decreases ext.minimum.z + ext.shape.z - z,
        {
            let mut x: i32 = ext.minimum.x;
            while x < ext.minimum.x + ext.shape.x
                invariant
                    config.wf(),
                    self.store.wf(),
                    view == self.store.view(),
                    log2 == config.chunk_log2 as nat,
                    ext == config.world_chunks_extent,
                    ext.minimum.z <= z < ext.minimum.z + ext.shape.z,
                    ext.minimum.x <= x <= ext.minimum.x + ext.shape.x,
                    -0x4000 <= c.x <= 0x4000,
                    -0x4000 <= c.z <= 0x4000,
                    e == pow2(config.chunk_log2 as nat),
                    2 <= e <= 64,
                    c == lod0_center_of(viewer_voxel, config.chunk_log2 as int),
                    chunk_commands@.len() >= q0.len(),
                    chunk_commands@.skip(chunk_commands@.len() - q0.len()) == q0,
                    forall|j: int| 0 <= j < chunk_commands@.len() - q0.len() ==> detected(#[trigger] chunk_commands@[j], config, c, view, log2)
                        && scanned_before(chunk_commands@[j], z + c.z, x + c.x),
                    forall|j1: int, j2: int| 0 <= j1 < j2 < chunk_commands@.len() - q0.len()
                        ==> #[trigger] chunk_commands@[j1] != #[trigger] chunk_commands@[j2],
                    forall|p: Point3i| in_footprint(config, c, p) && (p.z < z + c.z || (p.z == z + c.z && p.x < x + c.x))
                        && !view.contains_key(ground_key(p, log2))
                        ==> exists|j: int| 0 <= j < chunk_commands@.len() - q0.len() && chunk_commands@[j] == ChunkCommand::Generate(p),
                decreases ext.minimum.x + ext.shape.x - x,
            {
                proof {
                    assert(-0x5000 <= x + c.x <= 0x5000 && -0x5000 <= z + c.z <= 0x5000);
                    assert(-0x14_0000 <= (x + c.x) * e <= 0x14_0000 && -0x14_0000 <= (z + c.z) * e <= 0x14_0000) by (nonlinear_arith)
                        requires -0x5000 <= x + c.x <= 0x5000, -0x5000 <= z + c.z <= 0x5000, 2 <= e <= 64;
                }
                let p = Point3i { x: x + c.x, y: 0, z: z + c.z };
                let key = LodChunkKey { lod: 0, minimum: Point3i { x: p.x * e, y: 0, z: p.z * e } };
                let ghost q1 = chunk_commands@;
                let ghost n1 = q1.len() - q0.len();
                if self.store.get_chunk(&key).is_none() {
                    chunk_commands.enqueue(ChunkCommand::Generate(p));
                    proof {
                        let q = chunk_commands@;
                        assert(q.skip(q.len() - q0.len()) =~= q1.skip(q1.len() - q0.len()));
                        assert(q[0] == ChunkCommand::Generate(p));
                        assert forall|j: int| 0 <= j < q.len() - q0.len() implies detected(#[trigger] q[j], config, c, view, log2)
                            && scanned_before(q[j], z + c.z, x + 1 + c.x) by {
                            if j > 0 {
                                assert(q[j] == q1[j - 1]);
                            }
                        }
                        assert forall|j1: int, j2: int| 0 <= j1 < j2 < q.len() - q0.len()
                            implies #[trigger] q[j1] != #[trigger] q[j2] by {
                            assert(q[j2] == q1[j2 - 1]);
                            if j1 > 0 {
                                assert(q[j1] == q1[j1 - 1]);
                            } else {
                                assert(scanned_before(q1[j2 - 1], z + c.z, x + c.x));
                            }
                        }
                        assert forall|pp: Point3i| in_footprint(config, c, pp) && (pp.z < z + c.z || (pp.z == z + c.z && pp.x < x + 1 + c.x))
                            && !view.contains_key(ground_key(pp, log2))
                            implies exists|j: int| 0 <= j < q.len() - q0.len() && q[j] == ChunkCommand::Generate(pp) by {
                            if pp != p {
                                let t = choose|t: int| 0 <= t < n1 && q1[t] == ChunkCommand::Generate(pp);
                                assert(q[t + 1] == q1[t]);
                            } else {
                                assert(q[0] == ChunkCommand::Generate(pp));
                            }
                        }
                    }
                } else {
                    proof {
                        assert(view.contains_key(ground_key(p, log2)));
                        assert forall|j: int| 0 <= j < q1.len() - q0.len() implies detected(#[trigger] q1[j], config, c, view, log2)
                            && scanned_before(q1[j], z + c.z, x + 1 + c.x) by {
                        }
                    }
                }
                x = x + 1;
            }
            z = z + 1;
        }
    }
}

/// Starts the world over after its configuration changed: every mesh, live or
/// fading, is handed back for release and pending mesh work is dropped. With a
/// viewer, the world is generated anew from the columns (for the new
/// configuration) with creation commands for the clipmap around the viewer's
/// chunk, which becomes the clipmap's center; without one, nothing is generated.
pub fn voxel_map_config_changed_system(
    config: &VoxelMapConfig,
    terrain: TerrainConfig,
    columns: &Vec<(Point3i, Vec<i32>)>,
    viewer_voxel: Option<Point3i>,
    meshes: &mut ChunkMeshes,
    mesh_commands: &mut MeshCommandQueue,
    lod_state: &mut LodState,
) -> (r: (Option<VoxelMap>, Vec<(LodChunkKey, MeshRecord)>))
    requires
        config.wf(),
        terrain_ok(terrain),
        columns_ok(columns@, pow2(config.chunk_log2 as nat)),
        viewer_voxel matches Some(p) ==> index_point_ok(arr_of(p)),
    ensures
        final(meshes).live() == Map::<LodChunkKey, MeshRecord>::empty(),
        final(meshes).fading() == Seq::<(LodChunkKey, MeshRecord)>::empty(),
        r.1@ == old(meshes).entry_list() + old(meshes).fading(),
        match viewer_voxel {
            None => r.0 is None && final(mesh_commands)@ == Seq::<MeshCommand>::empty() && *final(lod_state) == *old(lod_state),
            Some(p) => match r.0 {
                Some(map) => {
                    let c = lod0_center_of(p, config.chunk_log2 as int);
                    let active = active_chunks_of(map.index.chunks(), map.index.chunk_log2(), map.index.superchunk_log2(),
                        arr_of(config.world_voxel_extent.minimum), arr_of(config.world_voxel_extent.shape),
                        config.clip_box_radius as u16, arr_of(c));
                    &&& map.wf(config)
                    &&& pyramid_ok(map.store.view(), config.chunk_log2 as nat, config.num_lods as int)
                    &&& generated_from(map.store.view(), columns@, config.chunk_log2 as nat, terrain)
                    &&& final(lod_state).old_lod0_center == c
                    &&& final(mesh_commands)@.len() == active.len()
                    &&& forall|j: int| 0 <= j < active.len() ==> #[trigger] final(mesh_commands)@[j] == MeshCommand::Create(key_from_raw(active[j]))
                },
                None => false,
            },
        },
{
    let released = meshes.clear_entities();
    mesh_commands.clear();
    match viewer_voxel {
        None => (None, released),
        Some(p) => {
            proof {
                lemma_center_in_range(p, config.chunk_log2 as int);
            }
            let c = lod0_center(p, config.chunk_log2);
            let map = VoxelMap::new(config, terrain, columns, c, mesh_commands);
            proof {
                assert(mesh_commands@.skip(mesh_commands@.len() as int) =~= Seq::<MeshCommand>::empty());
            }
            *lod_state = LodState::new(c);
            (Some(map), released)
        },
    }
}

} // verus!
