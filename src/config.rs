use vstd::prelude::*;
use crate::geom::{lemma_pow2_monotone, lemma_pow2_positive, pow2, pow2_i32, Extent3i, Point3i};

verus! {

pub const MAX_CLIP_BOX_RADIUS: i32 = 32;
pub const MIN_CLIP_BOX_RADIUS: i32 = 2;
/// Chunks of at most 64 voxels a side: with six levels of detail a superchunk
/// is then at most 2^11 voxels a side, and every chunk coordinate stays within
/// the bounds that the store and the octree index are proved for.
pub const MAX_CHUNK_LOG2: i32 = 6;
pub const MIN_CHUNK_LOG2: i32 = 1;
/// The octree index encodes at most six levels, so at most six levels of detail.
pub const MAX_LODS: u8 = 6;
/// The index needs superchunks strictly larger than chunks: two levels at least.
pub const MIN_LODS: u8 = 2;

pub const CHUNKS_MINIMUM_XZ: i32 = -50;
pub const CHUNKS_MINIMUM_Y: i32 = 0;
pub const CHUNKS_SHAPE: i32 = 100;
pub const CHUNKS_THICKNESS: i32 = 1;

/// Why a configuration was refused.
#[derive(Clone, Copy, Debug, PartialEq, Eq, Structural)]
pub enum ConfigError {
    ChunkLog2OutOfRange,
    LodCountOutOfRange,
    ClipBoxRadiusOutOfRange,
}

/// Shape of the voxel world and of its levels of detail.
#[derive(Clone, Copy, Debug, PartialEq, Eq, Structural)]
pub struct VoxelMapConfig {
    pub chunk_log2: i32,
    pub chunk_shape: Point3i,
    pub num_lods: u8,
    pub superchunk_shape: Point3i,
    pub clip_box_radius: i32,
    pub world_chunks_extent: Extent3i,
    pub world_voxel_extent: Extent3i,
}

pub open spec fn chunk_log2_ok(chunk_log2: int) -> bool {
    MIN_CHUNK_LOG2 <= chunk_log2 <= MAX_CHUNK_LOG2
}

pub open spec fn num_lods_ok(num_lods: int) -> bool {
    MIN_LODS <= num_lods <= MAX_LODS
}

pub open spec fn clip_box_radius_ok(r: int) -> bool {
    MIN_CLIP_BOX_RADIUS <= r <= MAX_CLIP_BOX_RADIUS
}

pub open spec fn cube(edge: int) -> Point3i {
    Point3i { x: edge as i32, y: edge as i32, z: edge as i32 }
}

/// The configuration that the three parameters determine.
pub open spec fn config_of(chunk_log2: int, num_lods: int, clip_box_radius: int) -> VoxelMapConfig {
    let e = pow2(chunk_log2 as nat);
    VoxelMapConfig {
        chunk_log2: chunk_log2 as i32,
        chunk_shape: cube(e),
        num_lods: num_lods as u8,
        superchunk_shape: cube(pow2((chunk_log2 + num_lods - 1) as nat)),
        clip_box_radius: clip_box_radius as i32,
        world_chunks_extent: Extent3i {
            minimum: Point3i { x: CHUNKS_MINIMUM_XZ, y: CHUNKS_MINIMUM_Y, z: CHUNKS_MINIMUM_XZ },
            shape: Point3i { x: CHUNKS_SHAPE, y: CHUNKS_THICKNESS, z: CHUNKS_SHAPE },
        },
        world_voxel_extent: Extent3i {
            minimum: Point3i {
                x: (CHUNKS_MINIMUM_XZ * e) as i32,
                y: (CHUNKS_MINIMUM_Y * e) as i32,
                z: (CHUNKS_MINIMUM_XZ * e) as i32,
            },
            shape: Point3i {
                x: (CHUNKS_SHAPE * e) as i32,
                y: (CHUNKS_THICKNESS * e) as i32,
                z: (CHUNKS_SHAPE * e) as i32,
            },
        },
    }
}

impl VoxelMapConfig {
    /// A configuration that construction accepted.
    pub open spec fn wf(&self) -> bool {
        &&& chunk_log2_ok(self.chunk_log2 as int)
        &&& num_lods_ok(self.num_lods as int)
        &&& clip_box_radius_ok(self.clip_box_radius as int)
        &&& *self == config_of(self.chunk_log2 as int, self.num_lods as int, self.clip_box_radius as int)
    }

    /// Builds and checks a configuration: a chunk edge of `2^chunk_log2` voxels,
    /// `num_lods` levels of detail and a clip box of `clip_box_radius` chunks.
    pub fn new(chunk_log2: i32, num_lods: u8, clip_box_radius: i32) -> (r: Result<VoxelMapConfig, ConfigError>)
        ensures
            !chunk_log2_ok(chunk_log2 as int) ==> r == Err::<VoxelMapConfig, ConfigError>(ConfigError::ChunkLog2OutOfRange),
            chunk_log2_ok(chunk_log2 as int) && !num_lods_ok(num_lods as int)
                ==> r == Err::<VoxelMapConfig, ConfigError>(ConfigError::LodCountOutOfRange),
            chunk_log2_ok(chunk_log2 as int) && num_lods_ok(num_lods as int) && !clip_box_radius_ok(clip_box_radius as int)
                ==> r == Err::<VoxelMapConfig, ConfigError>(ConfigError::ClipBoxRadiusOutOfRange),
            chunk_log2_ok(chunk_log2 as int) && num_lods_ok(num_lods as int) && clip_box_radius_ok(clip_box_radius as int)
                ==> r == Ok::<VoxelMapConfig, ConfigError>(config_of(chunk_log2 as int, num_lods as int, clip_box_radius as int)),
            r matches Ok(c) ==> c.wf(),
    {
        if chunk_log2 < MIN_CHUNK_LOG2 || chunk_log2 > MAX_CHUNK_LOG2 {
            return Err(ConfigError::ChunkLog2OutOfRange);
        }
        if num_lods < MIN_LODS || num_lods > MAX_LODS {
            return Err(ConfigError::LodCountOutOfRange);
        }
        if clip_box_radius < MIN_CLIP_BOX_RADIUS || clip_box_radius > MAX_CLIP_BOX_RADIUS {
            return Err(ConfigError::ClipBoxRadiusOutOfRange);
        }
        Ok(VoxelMapConfig::build(chunk_log2, num_lods, clip_box_radius))
    }

    /// The configuration of three parameters already known to be in range.
    pub(crate) fn build(chunk_log2: i32, num_lods: u8, clip_box_radius: i32) -> (r: VoxelMapConfig)
        requires
            chunk_log2_ok(chunk_log2 as int),
            num_lods_ok(num_lods as int),
            clip_box_radius_ok(clip_box_radius as int),
        ensures
            r == config_of(chunk_log2 as int, num_lods as int, clip_box_radius as int),
            r.wf(),
    {
        let super_log2 = (chunk_log2 + num_lods as i32 - 1) as u32;
        let e = pow2_i32(chunk_log2 as u32);
        let s = pow2_i32(super_log2);
        proof {
            lemma_pow2_monotone(chunk_log2 as nat, 6);
            reveal_with_fuel(pow2, 7);
            lemma_pow2_positive(chunk_log2 as nat);
        }
        VoxelMapConfig {
            chunk_log2,
            chunk_shape: Point3i { x: e, y: e, z: e },
            num_lods,
            superchunk_shape: Point3i { x: s, y: s, z: s },
            clip_box_radius,
            world_chunks_extent: Extent3i {
                minimum: Point3i { x: CHUNKS_MINIMUM_XZ, y: CHUNKS_MINIMUM_Y, z: CHUNKS_MINIMUM_XZ },
                shape: Point3i { x: CHUNKS_SHAPE, y: CHUNKS_THICKNESS, z: CHUNKS_SHAPE },
            },
            world_voxel_extent: Extent3i {
                minimum: Point3i { x: CHUNKS_MINIMUM_XZ * e, y: CHUNKS_MINIMUM_Y * e, z: CHUNKS_MINIMUM_XZ * e },
                shape: Point3i { x: CHUNKS_SHAPE * e, y: CHUNKS_THICKNESS * e, z: CHUNKS_SHAPE * e },
            },
        }
    }


    /// Chunks of 32 voxels, six levels of detail, a clip box of radius 8.
    pub fn default_config() -> (r: VoxelMapConfig)
        ensures
            r == config_of(5, 6, 8),
            r.wf(),
    {
        VoxelMapConfig::build(5, 6, 8)
    }
}

impl Default for VoxelMapConfig {
    fn default() -> (r: VoxelMapConfig)
        ensures
            r == config_of(5, 6, 8),
    {
        VoxelMapConfig::default_config()
    }
}

/// Next clip box radius in the cycle: doubled, back to the smallest past the largest.
pub open spec fn next_radius(r: int) -> int {
    if 2 * r > MAX_CLIP_BOX_RADIUS { MIN_CLIP_BOX_RADIUS as int } else { 2 * r }
}

pub open spec fn next_chunk_log2(c: int) -> int {
    if c + 1 > MAX_CHUNK_LOG2 { MIN_CHUNK_LOG2 as int } else { c + 1 }
}

pub open spec fn next_num_lods(n: int) -> int {
    if n + 1 > MAX_LODS { MIN_LODS as int } else { n + 1 }
}

/// Applies the configuration toggles of one frame: cycle the clip box radius,
/// then the chunk size, then the number of levels of detail.
pub fn voxel_map_config_update(config: &mut VoxelMapConfig, cycle_radius: bool, cycle_chunk_log2: bool, cycle_lods: bool)
    requires
        old(config).wf(),
    ensures
        final(config).wf(),
        ({
            let r1 = if cycle_radius { next_radius(old(config).clip_box_radius as int) } else { old(config).clip_box_radius as int };
            let c1 = if cycle_chunk_log2 { next_chunk_log2(old(config).chunk_log2 as int) } else { old(config).chunk_log2 as int };
            let n1 = if cycle_lods { next_num_lods(old(config).num_lods as int) } else { old(config).num_lods as int };
            *final(config) == config_of(c1, n1, r1)
        }),
{
    let mut r = config.clip_box_radius;
    let mut c = config.chunk_log2;
    let mut n = config.num_lods;
    if cycle_radius {
        r = if r > MAX_CLIP_BOX_RADIUS / 2 { MIN_CLIP_BOX_RADIUS } else { 2 * r };
    }
    if cycle_chunk_log2 {
        c = if c + 1 > MAX_CHUNK_LOG2 { MIN_CHUNK_LOG2 } else { c + 1 };
    }
    if cycle_lods {
        n = if n + 1 > MAX_LODS { MIN_LODS } else { n + 1 };
    }
    *config = VoxelMapConfig::build(c, n, r);
}

} // verus!
