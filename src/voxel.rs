use vstd::prelude::*;
use building_blocks::mesh::{IsOpaque, MergeVoxel};
use building_blocks::prelude::IsEmpty;

verus! {

/// One voxel: a material code. Code 0 is empty space.
#[derive(Clone, Copy, Debug, PartialEq, Eq, Hash, Structural)]
pub struct Voxel(pub u8);

/// Material codes.
pub const EMPTY: u8 = 0;
pub const WATER: u8 = 1;
pub const SAND: u8 = 2;
pub const GRASS: u8 = 3;
pub const DIRT: u8 = 4;
pub const STONE: u8 = 5;
pub const SNOW: u8 = 6;

impl Voxel {

    pub fn is_empty(&self) -> (r: bool)
        ensures
            r == (self.0 == 0),
    {
        self.0 == 0
    }

    /// Every material blocks the view: faces between two solid voxels are hidden.
    pub fn is_opaque(&self) -> (r: bool)
        ensures
            r,
    {
        true
    }

    /// Adjacent faces with equal merge values may be joined into one quad.
    pub fn voxel_merge_value(&self) -> (r: u8)
        ensures
            r == self.0,
    {
        self.0
    }
}

impl IsEmpty for Voxel {
    fn is_empty(&self) -> bool {
        self.0 == 0
    }
}

impl IsOpaque for Voxel {
    fn is_opaque(&self) -> bool {
        true
    }
}

impl MergeVoxel for Voxel {
    type VoxelValue = u8;

    fn voxel_merge_value(&self) -> u8 {
        self.0
    }
}

/// Vertical placement of the terrain: the heights that the material bands are
/// measured against are `y_offset + y_scale * t / 1000` for a band boundary `t`
/// given in thousandths.
#[derive(Clone, Copy, Debug, PartialEq, Eq, Structural)]
pub struct TerrainConfig {
    pub y_offset: i32,
    pub y_scale: i32,
}

/// Upper boundaries of the material bands, in thousandths of `y_scale` above
/// `y_offset`, ascending: water, sand, dirt, grass, stone; snow lies above.
pub const WATER_TOP: i64 = 20;
pub const SAND_TOP: i64 = 40;
pub const DIRT_TOP: i64 = 50;
pub const GRASS_TOP: i64 = 200;
pub const STONE_TOP: i64 = 300;

pub open spec fn terrain_ok(c: TerrainConfig) -> bool {
    -0x100_0000 <= c.y_offset <= 0x100_0000 && 0 <= c.y_scale <= 0x100_0000
}

/// `y` lies below the band boundary `t` (exactly, without rounding).
pub open spec fn below_band(y: int, c: TerrainConfig, t: int) -> bool {
    y * 1000 < c.y_offset * 1000 + c.y_scale * t
}

/// The material of a solid voxel at height `y`.
pub open spec fn material_at(y: int, c: TerrainConfig) -> Voxel {
    if below_band(y, c, WATER_TOP as int) {
        Voxel(1)
    } else if below_band(y, c, SAND_TOP as int) {
        Voxel(2)
    } else if below_band(y, c, DIRT_TOP as int) {
        Voxel(4)
    } else if below_band(y, c, GRASS_TOP as int) {
        Voxel(3)
    } else if below_band(y, c, STONE_TOP as int) {
        Voxel(5)
    } else {
        Voxel(6)
    }
}

fn below_band_exec(y: i32, c: TerrainConfig, t: i64) -> (r: bool)
    requires
        terrain_ok(c),
        0 <= t <= 1000,
    ensures
        r == below_band(y as int, c, t as int),
{
    assert(0 <= c.y_scale * t <= 0x100_0000 * 1000) by (nonlinear_arith)
        requires 0 <= c.y_scale <= 0x100_0000, 0 <= t <= 1000;
    (y as i64) * 1000 < (c.y_offset as i64) * 1000 + (c.y_scale as i64) * t
}

/// Chooses the material of a solid voxel from its height, by ascending bands.
pub fn height_to_material(y: i32, c: TerrainConfig) -> (r: Voxel)
    requires
        terrain_ok(c),
    ensures
        r == material_at(y as int, c),
{
    if below_band_exec(y, c, WATER_TOP) {
        Voxel(WATER)
    } else if below_band_exec(y, c, SAND_TOP) {
        Voxel(SAND)
    } else if below_band_exec(y, c, DIRT_TOP) {
        Voxel(DIRT)
    } else if below_band_exec(y, c, GRASS_TOP) {
        Voxel(GRASS)
    } else if below_band_exec(y, c, STONE_TOP) {
        Voxel(STONE)
    } else {
        Voxel(SNOW)
    }
}

} // verus!
