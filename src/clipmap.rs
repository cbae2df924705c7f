use vstd::prelude::*;
use crate::config::VoxelMapConfig;
use crate::geom::{pow2, pow2_i32, lemma_pow2_monotone, Extent3i, LodChunkKey, Point3i};
use building_blocks::prelude::{ExtentN, PointN};
use building_blocks::storage;
use building_blocks::storage::{ChunkKey, ChunkKey3, ChunkUnits, OctreeChunkIndex};

verus! {

/// Split `old_chunk` into the finer `new_chunks`: the viewer came closer.
#[derive(Clone, Debug, PartialEq, Eq)]
pub struct SplitChunk {
    pub old_chunk: LodChunkKey,
    pub new_chunks: Vec<LodChunkKey>,
}

/// Merge the finer `old_chunks` into `new_chunk`: the viewer went away.
#[derive(Clone, Debug, PartialEq, Eq)]
pub struct MergeChunks {
    pub old_chunks: Vec<LodChunkKey>,
    pub new_chunk: LodChunkKey,
}

/// A change of level of detail for one region, after the clipmap center moved.
#[derive(Clone, Debug, PartialEq, Eq)]
pub enum LodChunkUpdate {
    Split(SplitChunk),
    Merge(MergeChunks),
}


/// The octree chunk index of building_blocks, carried as an opaque value.
#[verifier::external_type_specification]
#[verifier::external_body]
pub struct ExOctreeChunkIndex(OctreeChunkIndex);

/// A chunk key as the index hands it out: level of detail and minimum corner.
pub type RawKey = (u8, [i32; 3]);

/// An update as the index hands it out: split or not, the finer chunks, the
/// coarse chunk.
pub type RawUpdate = (bool, Vec<RawKey>, RawKey);

/// The level-0 chunks (by minimum corner, in voxels) that an index holds.
pub uninterp spec fn indexed_chunks(i: OctreeChunkIndex) -> Set<[i32; 3]>;

/// log2 of the chunk edge and of the superchunk edge that an index was built with.
pub uninterp spec fn index_chunk_log2(i: OctreeChunkIndex) -> int;

pub uninterp spec fn index_superchunk_log2(i: OctreeChunkIndex) -> int;

/// The chunks that the clipmap query of the index reports as active.
pub uninterp spec fn active_chunks_of(
    chunks: Set<[i32; 3]>,
    chunk_log2: int,
    superchunk_log2: int,
    extent_min: [i32; 3],
    extent_shape: [i32; 3],
    clip_box_radius: u16,
    lod0_center: [i32; 3],
) -> Seq<RawKey>;

/// The updates that the clipmap query of the index reports for a move of the center.
pub uninterp spec fn chunk_updates_of(
    chunks: Set<[i32; 3]>,
    chunk_log2: int,
    superchunk_log2: int,
    extent_min: [i32; 3],
    extent_shape: [i32; 3],
    clip_box_radius: u16,
    old_lod0_center: [i32; 3],
    new_lod0_center: [i32; 3],
) -> Seq<(bool, Seq<RawKey>, RawKey)>;

/// Bounds on coordinates handed to the index, which keep its arithmetic in range.
pub open spec fn index_coord_ok(v: i32) -> bool {
    -0x10_0000 <= v <= 0x10_0000
}

pub open spec fn index_point_ok(p: [i32; 3]) -> bool {
    index_coord_ok(p@[0]) && index_coord_ok(p@[1]) && index_coord_ok(p@[2])
}

pub open spec fn index_shape_ok(p: [i32; 3]) -> bool {
    1 <= p@[0] <= 0x10_0000 && 1 <= p@[1] <= 0x10_0000 && 1 <= p@[2] <= 0x10_0000
}

/// Every coordinate of `p` is a multiple of the chunk edge `e`.
pub open spec fn chunk_aligned(p: [i32; 3], e: int) -> bool {
    (p@[0] as int) % e == 0 && (p@[1] as int) % e == 0 && (p@[2] as int) % e == 0
}

pub open spec fn index_logs_ok(chunk_log2: int, superchunk_log2: int) -> bool {
    1 <= chunk_log2 < superchunk_log2 < chunk_log2 + 6 && superchunk_log2 <= 12
}

/// Relies on OctreeChunkIndex::index_lod0_chunks: the index holds exactly the
/// level-0 chunks whose minimum corners it is given (chunk and superchunk edges
/// are the given powers of two, as its asserts demand).
#[verifier::external_body]
fn bb_index_lod0_chunks(chunk_log2: u32, chunk_edge: i32, superchunk_log2: u32, superchunk_edge: i32, mins: &Vec<[i32; 3]>) -> (r: OctreeChunkIndex)
    requires
        index_logs_ok(chunk_log2 as int, superchunk_log2 as int),
        chunk_edge == pow2(chunk_log2 as nat),
        superchunk_edge == pow2(superchunk_log2 as nat),
        forall|i: int| 0 <= i < mins@.len() ==> index_point_ok(#[trigger] mins@[i]),
        forall|i: int| 0 <= i < mins@.len() ==> chunk_aligned(#[trigger] mins@[i], chunk_edge as int),
    ensures
        indexed_chunks(r) == mins@.to_set(),
        index_chunk_log2(r) == chunk_log2,
        index_superchunk_log2(r) == superchunk_log2,
{
    let keys: Vec<ChunkKey3> = mins.iter().map(|m| ChunkKey::new(0, PointN(*m))).collect();
    OctreeChunkIndex::index_lod0_chunks(PointN([superchunk_edge; 3]), PointN([chunk_edge; 3]), keys.iter())
}

/// Relies on OctreeChunkIndex::active_clipmap_lod_chunks: the chunks it reports
/// for the extent (in voxels) and the level-0 center (in chunks).
#[verifier::external_body]
fn bb_active_clipmap_lod_chunks(index: &OctreeChunkIndex, extent_min: [i32; 3], extent_shape: [i32; 3], clip_box_radius: u16, lod0_center: [i32; 3]) -> (r: Vec<RawKey>)
    requires
        index_logs_ok(index_chunk_log2(*index), index_superchunk_log2(*index)),
        clip_box_radius >= 2,
        index_point_ok(extent_min),
        index_shape_ok(extent_shape),
        index_point_ok(lod0_center),
    ensures
        r@ == active_chunks_of(indexed_chunks(*index), index_chunk_log2(*index), index_superchunk_log2(*index),
            extent_min, extent_shape, clip_box_radius, lod0_center),
{
    let mut keys = Vec::new();
    let extent = ExtentN::from_min_and_shape(PointN(extent_min), PointN(extent_shape));
    index.active_clipmap_lod_chunks(&extent, clip_box_radius, ChunkUnits(PointN(lod0_center)), |k| keys.push(k));
    keys.into_iter().map(|k| (k.lod, k.minimum.0)).collect()
}

/// Relies on OctreeChunkIndex::find_clipmap_chunk_updates: the splits and merges it
/// reports for a move of the center; when the center stays, a node's offset is
/// the same before and after, so neither a split nor a merge is reported.
#[verifier::external_body]
fn bb_find_clipmap_chunk_updates(index: &OctreeChunkIndex, extent_min: [i32; 3], extent_shape: [i32; 3], clip_box_radius: u16, old_center: [i32; 3], new_center: [i32; 3]) -> (r: Vec<RawUpdate>)
    requires
        index_logs_ok(index_chunk_log2(*index), index_superchunk_log2(*index)),
        clip_box_radius >= 2,
        index_point_ok(extent_min),
        index_shape_ok(extent_shape),
        index_point_ok(old_center),
        index_point_ok(new_center),
    ensures
        r@.len() == chunk_updates_of(indexed_chunks(*index), index_chunk_log2(*index), index_superchunk_log2(*index),
            extent_min, extent_shape, clip_box_radius, old_center, new_center).len(),
        forall|i: int| 0 <= i < r@.len() ==> {
            let u = chunk_updates_of(indexed_chunks(*index), index_chunk_log2(*index), index_superchunk_log2(*index),
                extent_min, extent_shape, clip_box_radius, old_center, new_center)[i];
            &&& (#[trigger] r@[i]).0 == u.0
            &&& r@[i].1@ == u.1
            &&& r@[i].2 == u.2
        },
        old_center == new_center ==> r@.len() == 0,
{
    let mut ups = Vec::new();
    index.find_clipmap_chunk_updates(&ExtentN::from_min_and_shape(PointN(extent_min), PointN(extent_shape)), clip_box_radius, ChunkUnits(PointN(old_center)),
        ChunkUnits(PointN(new_center)), |u| ups.push(u));
    ups.into_iter().map(|u| match u {
        storage::LodChunkUpdate::Split(s) => (true, s.new_chunks.iter().map(|k| (k.lod, k.minimum.0)).collect(), (s.old_chunk.lod, s.old_chunk.minimum.0)),
        storage::LodChunkUpdate::Merge(m) => (false, m.old_chunks.iter().map(|k| (k.lod, k.minimum.0)).collect(), (m.new_chunk.lod, m.new_chunk.minimum.0)),
    }).collect()
}


pub open spec fn arr_of(p: Point3i) -> [i32; 3] {
    [p.x, p.y, p.z]
}

pub open spec fn key_from_raw(k: RawKey) -> LodChunkKey {
    LodChunkKey { lod: k.0, minimum: Point3i { x: k.1@[0], y: k.1@[1], z: k.1@[2] } }
}

/// `u` is the update that the index reported as `raw`.
pub open spec fn update_from_raw(u: LodChunkUpdate, raw: (bool, Seq<RawKey>, RawKey)) -> bool {
    match u {
        LodChunkUpdate::Split(s) => raw.0 && s.old_chunk == key_from_raw(raw.2)
            && s.new_chunks@ == raw.1.map_values(|k: RawKey| key_from_raw(k)),
        LodChunkUpdate::Merge(m) => !raw.0 && m.new_chunk == key_from_raw(raw.2)
            && m.old_chunks@ == raw.1.map_values(|k: RawKey| key_from_raw(k)),
    }
}

pub open spec fn index_extent_ok(e: Extent3i) -> bool {
    index_point_ok(arr_of(e.minimum)) && index_shape_ok(arr_of(e.shape))
}

fn arr_exec(p: Point3i) -> (r: [i32; 3])
    ensures
        r == arr_of(p),
{
    [p.x, p.y, p.z]
}

fn key_exec(k: RawKey) -> (r: LodChunkKey)
    ensures
        r == key_from_raw(k),
{
    LodChunkKey { lod: k.0, minimum: Point3i { x: k.1[0], y: k.1[1], z: k.1[2] } }
}

fn keys_exec(ks: &Vec<RawKey>) -> (r: Vec<LodChunkKey>)
    ensures
        r@ == ks@.map_values(|k: RawKey| key_from_raw(k)),
{
    let mut r: Vec<LodChunkKey> = Vec::new();
    let mut i: usize = 0;
    while i < ks.len()
        invariant
            0 <= i <= ks@.len(),
            r@ == ks@.take(i as int).map_values(|k: RawKey| key_from_raw(k)),
        decreases ks@.len() - i,
    {
        r.push(key_exec(ks[i]));
        assert(ks@.take(i + 1).map_values(|k: RawKey| key_from_raw(k))
            =~= ks@.take(i as int).map_values(|k: RawKey| key_from_raw(k)).push(key_from_raw(ks@[i as int])));
        i = i + 1;
    }
    assert(ks@.take(ks@.len() as int) =~= ks@);
    r
}

/// An octree index over the level-0 chunks of the world: the source of the
/// clipmap queries.
pub struct SpatialIndex {
    index: OctreeChunkIndex,
}

impl SpatialIndex {
    /// Minimum corners (in voxels) of the level-0 chunks indexed.
    pub closed spec fn chunks(&self) -> Set<[i32; 3]> {
        indexed_chunks(self.index)
    }

    pub closed spec fn chunk_log2(&self) -> int {
        index_chunk_log2(self.index)
    }

    pub closed spec fn superchunk_log2(&self) -> int {
        index_superchunk_log2(self.index)
    }

    pub open spec fn wf(&self) -> bool {
        index_logs_ok(self.chunk_log2(), self.superchunk_log2())
    }

    /// Indexes the level-0 chunks with the given minimum corners, grouped into
    /// superchunks of `2^(chunk_log2 + num_lods - 1)` voxels.
    pub fn index_chunks(config: &VoxelMapConfig, mins: &Vec<Point3i>) -> (r: SpatialIndex)
        requires
            config.wf(),
            forall|i: int| 0 <= i < mins@.len() ==> index_point_ok(arr_of(#[trigger] mins@[i])),
            forall|i: int| 0 <= i < mins@.len() ==> chunk_aligned(arr_of(#[trigger] mins@[i]), pow2(config.chunk_log2 as nat)),
        ensures
            r.wf(),
            r.chunks() == mins@.map_values(|p: Point3i| arr_of(p)).to_set(),
            r.chunk_log2() == config.chunk_log2,
            r.superchunk_log2() == config.chunk_log2 + config.num_lods - 1,
    {
        let mut arrs: Vec<[i32; 3]> = Vec::new();
        let mut i: usize = 0;
        while i < mins.len()
            invariant
                0 <= i <= mins@.len(),
                arrs@ == mins@.take(i as int).map_values(|p: Point3i| arr_of(p)),
            decreases mins@.len() - i,
        {
            arrs.push(arr_exec(mins[i]));
            assert(mins@.take(i + 1).map_values(|p: Point3i| arr_of(p))
                =~= mins@.take(i as int).map_values(|p: Point3i| arr_of(p)).push(arr_of(mins@[i as int])));
            i = i + 1;
        }
        assert(mins@.take(mins@.len() as int) =~= mins@);
        let chunk_log2 = config.chunk_log2 as u32;
        let superchunk_log2 = (config.chunk_log2 + config.num_lods as i32 - 1) as u32;
        proof {
            lemma_pow2_monotone(superchunk_log2 as nat, 16);
        }
        let chunk_edge = pow2_i32(chunk_log2);
        let superchunk_edge = pow2_i32(superchunk_log2);
        let index = bb_index_lod0_chunks(chunk_log2, chunk_edge, superchunk_log2, superchunk_edge, &arrs);
        SpatialIndex { index }
    }

    /// The chunks to render when the level-0 center (in chunks) is `lod0_center`:
    /// finest near the center, coarser away from it, over `extent` (in voxels).
    pub fn active_clipmap_lod_chunks(&self, extent: &Extent3i, clip_box_radius: i32, lod0_center: Point3i) -> (r: Vec<LodChunkKey>)
        requires
            self.wf(),
            2 <= clip_box_radius <= 32,
            index_extent_ok(*extent),
            index_point_ok(arr_of(lod0_center)),
        ensures
            r@ == active_chunks_of(self.chunks(), self.chunk_log2(), self.superchunk_log2(),
                arr_of(extent.minimum), arr_of(extent.shape), clip_box_radius as u16, arr_of(lod0_center))
                .map_values(|k: RawKey| key_from_raw(k)),
    {
        let raw = bb_active_clipmap_lod_chunks(&self.index, arr_exec(extent.minimum), arr_exec(extent.shape),
            clip_box_radius as u16, arr_exec(lod0_center));
        keys_exec(&raw)
    }

    /// The splits and merges that take the chunks active around `old_lod0_center`
    /// to those active around `new_lod0_center`. None when the center stays.
    pub fn find_clipmap_chunk_updates(&self, extent: &Extent3i, clip_box_radius: i32, old_lod0_center: Point3i, new_lod0_center: Point3i) -> (r: Vec<LodChunkUpdate>)
        requires
            self.wf(),
            2 <= clip_box_radius <= 32,
            index_extent_ok(*extent),
            index_point_ok(arr_of(old_lod0_center)),
            index_point_ok(arr_of(new_lod0_center)),
        ensures
            ({
                let ups = chunk_updates_of(self.chunks(), self.chunk_log2(), self.superchunk_log2(),
                    arr_of(extent.minimum), arr_of(extent.shape), clip_box_radius as u16,
                    arr_of(old_lod0_center), arr_of(new_lod0_center));
                &&& r@.len() == ups.len()
                &&& forall|i: int| 0 <= i < r@.len() ==> update_from_raw(#[trigger] r@[i], ups[i])
            }),
            old_lod0_center == new_lod0_center ==> r@.len() == 0,
    {
        let raw = bb_find_clipmap_chunk_updates(&self.index, arr_exec(extent.minimum), arr_exec(extent.shape),
            clip_box_radius as u16, arr_exec(old_lod0_center), arr_exec(new_lod0_center));
        let mut r: Vec<LodChunkUpdate> = Vec::new();
        let mut i: usize = 0;
        while i < raw.len()
            invariant
                0 <= i <= raw@.len(),
                r@.len() == i,
                forall|j: int| 0 <= j < i ==> update_from_raw(#[trigger] r@[j], (raw@[j].0, raw@[j].1@, raw@[j].2)),
            decreases raw@.len() - i,
        {
            let (is_split, ref finer, coarse) = raw[i];
            let finer_keys = keys_exec(finer);
            let u = if is_split {
                LodChunkUpdate::Split(SplitChunk { old_chunk: key_exec(coarse), new_chunks: finer_keys })
            } else {
                LodChunkUpdate::Merge(MergeChunks { old_chunks: finer_keys, new_chunk: key_exec(coarse) })
            };
            r.push(u);
            i = i + 1;
        }
        r
    }
}

} // verus!
