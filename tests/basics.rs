use minkraft::config::{voxel_map_config_update, ConfigError, VoxelMapConfig};
use minkraft::fade::{mesh_fade_update_system, FadeUniform, FADE_DURATION_MICROS};
use minkraft::geom::{shr_floor, Point3i};
use minkraft::voxel::{height_to_material, TerrainConfig, Voxel, DIRT, GRASS, SAND, SNOW, STONE, WATER};
use minkraft::AppState;

#[test]
fn app_states_differ() {
    assert_ne!(AppState::Loading, AppState::Running);
    assert_eq!(AppState::Preparing, AppState::Preparing);
}

#[test]
fn fade_counts_down_and_clamps_at_zero() {
    let mut f = FadeUniform::fade_out();
    f.update(100_000);
    assert_eq!(f.remaining, FADE_DURATION_MICROS - 100_000);
    f.update(1_000_000);
    assert_eq!(f.remaining, 0);
    assert!(f.is_finished_fade_out());
    f.update(5);
    assert_eq!(f.remaining, 0);
}

#[test]
fn fade_delay_is_consumed_before_remaining() {
    let mut f = FadeUniform { duration: 250, remaining: 250, delay: 100, fade_in: false };
    f.update(60);
    assert_eq!(f.delay, 40);
    assert_eq!(f.remaining, 250);
    f.update(60);
    assert_eq!(f.delay, 0);
    assert_eq!(f.remaining, 230);
}

#[test]
fn fade_remaining_is_clamped_to_duration() {
    let mut f = FadeUniform { duration: 100, remaining: 500, delay: 0, fade_in: true };
    f.update(10);
    assert_eq!(f.remaining, 100);
}

#[test]
fn fade_in_never_counts_as_finished() {
    let mut f = FadeUniform::fade_in();
    f.update(10 * FADE_DURATION_MICROS);
    assert_eq!(f.remaining, 0);
    assert!(!f.is_finished_fade_out());
}

#[test]
fn fade_remaining_never_grows_over_frames() {
    let mut fades = vec![
        FadeUniform { duration: 250, remaining: 250, delay: 70, fade_in: false },
        FadeUniform::fade_in(),
    ];
    let mut last: Vec<u64> = fades.iter().map(|f| f.remaining).collect();
    for _ in 0..20 {
        mesh_fade_update_system(&mut fades, 33);
        for (f, l) in fades.iter().zip(last.iter()) {
            assert!(f.remaining <= *l);
            assert!(f.remaining <= f.duration);
        }
        last = fades.iter().map(|f| f.remaining).collect();
    }
    assert_eq!(fades[0].remaining, 0);
}

#[test]
fn shift_rounds_toward_negative_infinity() {
    assert_eq!(shr_floor(33, 5), 1);
    assert_eq!(shr_floor(32, 5), 1);
    assert_eq!(shr_floor(31, 5), 0);
    assert_eq!(shr_floor(-1, 5), -1);
    assert_eq!(shr_floor(-32, 5), -1);
    assert_eq!(shr_floor(-33, 5), -2);
    assert_eq!(shr_floor(-5, 2), -2);
}

#[test]
fn default_config_matches_its_parameters() {
    let c = VoxelMapConfig::default_config();
    assert_eq!(c.chunk_log2, 5);
    assert_eq!(c.chunk_shape, Point3i { x: 32, y: 32, z: 32 });
    assert_eq!(c.num_lods, 6);
    assert_eq!(c.superchunk_shape, Point3i { x: 1024, y: 1024, z: 1024 });
    assert_eq!(c.clip_box_radius, 8);
    assert_eq!(c.world_chunks_extent.minimum, Point3i { x: -50, y: 0, z: -50 });
    assert_eq!(c.world_chunks_extent.shape, Point3i { x: 100, y: 1, z: 100 });
    assert_eq!(c.world_voxel_extent.minimum, Point3i { x: -1600, y: 0, z: -1600 });
    assert_eq!(c.world_voxel_extent.shape, Point3i { x: 3200, y: 32, z: 3200 });
}

#[test]
fn config_errors_are_reported_at_construction() {
    assert_eq!(VoxelMapConfig::new(0, 6, 8), Err(ConfigError::ChunkLog2OutOfRange));
    assert_eq!(VoxelMapConfig::new(7, 6, 8), Err(ConfigError::ChunkLog2OutOfRange));
    assert_eq!(VoxelMapConfig::new(5, 7, 8), Err(ConfigError::LodCountOutOfRange));
    assert_eq!(VoxelMapConfig::new(5, 1, 8), Err(ConfigError::LodCountOutOfRange));
    assert_eq!(VoxelMapConfig::new(5, 6, 1), Err(ConfigError::ClipBoxRadiusOutOfRange));
    assert_eq!(VoxelMapConfig::new(5, 6, 33), Err(ConfigError::ClipBoxRadiusOutOfRange));
    let c = VoxelMapConfig::new(4, 3, 2).unwrap();
    assert_eq!(c.chunk_shape, Point3i { x: 16, y: 16, z: 16 });
    assert_eq!(c.superchunk_shape, Point3i { x: 64, y: 64, z: 64 });
}

#[test]
fn config_toggles_cycle_each_parameter() {
    let mut c = VoxelMapConfig::default_config();
    voxel_map_config_update(&mut c, true, false, false);
    assert_eq!(c.clip_box_radius, 16);
    voxel_map_config_update(&mut c, true, false, false);
    assert_eq!(c.clip_box_radius, 32);
    voxel_map_config_update(&mut c, true, false, false);
    assert_eq!(c.clip_box_radius, 2);
    voxel_map_config_update(&mut c, false, true, true);
    assert_eq!(c.chunk_log2, 6);
    assert_eq!(c.num_lods, 2);
    assert_eq!(c.chunk_shape, Point3i { x: 64, y: 64, z: 64 });
    voxel_map_config_update(&mut c, false, true, false);
    assert_eq!(c.chunk_log2, 1);
    assert_eq!(c.superchunk_shape, Point3i { x: 4, y: 4, z: 4 });
}

#[test]
fn materials_follow_height_bands() {
    let t = TerrainConfig { y_offset: 128, y_scale: 1024 };
    assert_eq!(height_to_material(0, t), Voxel(WATER));
    assert_eq!(height_to_material(148, t), Voxel(WATER));
    assert_eq!(height_to_material(149, t), Voxel(SAND));
    assert_eq!(height_to_material(168, t), Voxel(SAND));
    assert_eq!(height_to_material(169, t), Voxel(DIRT));
    assert_eq!(height_to_material(179, t), Voxel(DIRT));
    assert_eq!(height_to_material(180, t), Voxel(GRASS));
    assert_eq!(height_to_material(332, t), Voxel(GRASS));
    assert_eq!(height_to_material(333, t), Voxel(STONE));
    assert_eq!(height_to_material(435, t), Voxel(STONE));
    assert_eq!(height_to_material(436, t), Voxel(SNOW));
}

#[test]
fn voxel_predicates() {
    assert!(Voxel(0).is_empty());
    assert!(!Voxel(STONE).is_empty());
    assert!(Voxel(SAND).is_opaque());
    assert_eq!(Voxel(GRASS).voxel_merge_value(), GRASS);
}


#[test]
fn defaults_match_constructors() {
    assert_eq!(VoxelMapConfig::default(), VoxelMapConfig::default_config());
    assert!(minkraft::mesh_generator::MeshCommandQueue::default().is_empty());
    assert!(minkraft::chunk_generator::ChunkCommandQueue::default().is_empty());
    let meshes = minkraft::chunk_meshes::ChunkMeshes::default();
    assert!(!meshes.contains_key(&minkraft::geom::LodChunkKey { lod: 0, minimum: Point3i { x: 0, y: 0, z: 0 } }));
}
