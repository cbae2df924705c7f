use building_blocks::mesh::{greedy_quads, GreedyQuadsBuffer, IsOpaque, MergeVoxel, RIGHT_HANDED_Y_UP_CONFIG};
use building_blocks::prelude::{Array3x1, Extent3i as BbExtent, IsEmpty, PointN};
use minkraft::chunk_generator::{ChunkCommand, ChunkCommandQueue};
use minkraft::clipmap::LodChunkUpdate;
use minkraft::config::VoxelMapConfig;
use minkraft::geom::{Extent3i, LodChunkKey, Point3i};
use minkraft::level_of_detail::{level_of_detail_system, lod0_center, LodState};
use minkraft::mesh::padded_chunk;
use minkraft::mesh_generator::{MeshCommand, MeshCommandQueue};
use minkraft::store::VoxelStore;
use minkraft::terrain::generate_chunk_stack;
use minkraft::voxel::{TerrainConfig, Voxel, STONE, WATER};
use minkraft::voxel_map::VoxelMap;
use std::collections::HashSet;

#[derive(Clone, Copy, PartialEq, Eq)]
struct Cell(u8);

impl IsEmpty for Cell {
    fn is_empty(&self) -> bool {
        self.0 == 0
    }
}

impl IsOpaque for Cell {
    fn is_opaque(&self) -> bool {
        true
    }
}

impl MergeVoxel for Cell {
    type VoxelValue = u8;

    fn voxel_merge_value(&self) -> u8 {
        self.0
    }
}

fn quad_count(padded: &[Voxel], padded_edge: i32) -> usize {
    let extent = BbExtent::from_min_and_shape(PointN([0; 3]), PointN([padded_edge; 3]));
    let cells: Vec<Cell> = padded.iter().map(|v| Cell(v.0)).collect();
    let array = Array3x1::new_one_channel(extent, cells);
    let mut buffer = GreedyQuadsBuffer::new(extent, RIGHT_HANDED_Y_UP_CONFIG.quad_groups());
    greedy_quads(&array, &extent, &mut buffer);
    buffer.num_quads()
}

fn flat_world(config: &VoxelMapConfig, half: i32, height: i32) -> Vec<(Point3i, Vec<i32>)> {
    let e = config.chunk_shape.x;
    let mut columns = Vec::new();
    for z in -half..half {
        for x in -half..half {
            columns.push((Point3i { x, y: 0, z }, vec![height; (e * e) as usize]));
        }
    }
    columns
}

fn terrain() -> TerrainConfig {
    TerrainConfig { y_offset: 0, y_scale: 100 }
}

/// Level-0 voxel box covered by a chunk key.
fn covers(k: &LodChunkKey, e: i32, p: Point3i) -> bool {
    let s = 1 << k.lod;
    let lo = |m: i32| m * s;
    let hi = |m: i32| (m + e) * s;
    lo(k.minimum.x) <= p.x && p.x < hi(k.minimum.x)
        && lo(k.minimum.y) <= p.y && p.y < hi(k.minimum.y)
        && lo(k.minimum.z) <= p.z && p.z < hi(k.minimum.z)
}

fn apply(set: &mut HashSet<LodChunkKey>, u: &LodChunkUpdate) {
    match u {
        LodChunkUpdate::Split(s) => {
            assert!(set.remove(&s.old_chunk));
            for k in &s.new_chunks {
                assert!(set.insert(*k));
            }
        }
        LodChunkUpdate::Merge(m) => {
            for k in &m.old_chunks {
                assert!(set.remove(k));
            }
            assert!(set.insert(m.new_chunk));
        }
    }
}

#[test]
fn greedy_quads_of_a_buried_chunk_is_empty() {
    let padded = vec![Voxel(STONE); 6 * 6 * 6];
    assert_eq!(quad_count(&padded, 6), 0);
}

#[test]
fn greedy_quads_of_a_lone_voxel_is_a_cube() {
    let mut chunk = vec![Voxel(0); 4 * 4 * 4];
    chunk[1 + 4 * (2 + 4 * 1)] = Voxel(STONE);
    let padded = padded_chunk(&chunk, 4);
    assert_eq!(quad_count(&padded, 6), 6);
}

#[test]
fn greedy_quads_of_a_padded_full_chunk_shows_its_six_sides() {
    let chunk = vec![Voxel(WATER); 4 * 4 * 4];
    let padded = padded_chunk(&chunk, 4);
    assert_eq!(quad_count(&padded, 6), 6);
}

#[test]
fn stack_fills_columns_up_to_their_heights() {
    let heights: Vec<i32> = (0..16 * 16).map(|i| 10 + (i % 16)).collect();
    let t = TerrainConfig { y_offset: 20, y_scale: 1000 };
    let stack = generate_chunk_stack(Point3i { x: 2, y: 0, z: -1 }, 4, &heights, t);
    assert_eq!(stack.len(), 2);
    assert_eq!(stack[0].0, Point3i { x: 32, y: 0, z: -16 });
    assert_eq!(stack[1].0, Point3i { x: 32, y: 16, z: -16 });
    let v = &stack[0].1;
    assert_eq!(v[0 + 16 * (9 + 16 * 0)], Voxel(WATER));
    assert_eq!(v[0 + 16 * (10 + 16 * 0)], Voxel(0));
    let top = &stack[1].1;
    assert_eq!(top[15 + 16 * (8 + 16 * 3)], Voxel(WATER));
    assert_eq!(top[15 + 16 * (9 + 16 * 3)], Voxel(0));
}

#[test]
fn stack_below_zero_starts_at_the_lowest_top() {
    let heights = vec![-21; 4];
    let stack = generate_chunk_stack(Point3i { x: 0, y: 0, z: 0 }, 1, &heights, terrain());
    assert_eq!(stack.len(), 1);
    assert_eq!(stack[0].0.y, -22);
    let w = Voxel(WATER);
    let o = Voxel(0);
    assert_eq!(stack[0].1, vec![w, w, o, o, w, w, o, o]);
}

#[test]
fn store_replaces_chunks_and_downsamples_by_point() {
    let config = VoxelMapConfig::new(1, 2, 2).unwrap();
    let mut store = VoxelStore::new(&config);
    let k = LodChunkKey { lod: 0, minimum: Point3i { x: 0, y: 0, z: 0 } };
    assert!(store.get_chunk(&k).is_none());
    store.write_chunk(k, vec![Voxel(1); 8]);
    let mut data: Vec<Voxel> = (0..8).map(|i| Voxel(i as u8)).collect();
    store.write_chunk(k, data.clone());
    assert_eq!(store.get_chunk(&k).unwrap(), &data);
    data[0] = Voxel(9);
    store.write_chunk(LodChunkKey { lod: 0, minimum: Point3i { x: 2, y: 0, z: 0 } }, data);
    store.downsample();
    let coarse = store.get_chunk(&LodChunkKey { lod: 1, minimum: Point3i { x: 0, y: 0, z: 0 } }).unwrap();
    assert_eq!(coarse[0], Voxel(0));
    assert_eq!(coarse[1], Voxel(9));
    assert_eq!(coarse[2], Voxel(0));
    assert_eq!(store.lod0_chunk_mins().len(), 2);
    store.downsample();
    let again = store.get_chunk(&LodChunkKey { lod: 1, minimum: Point3i { x: 0, y: 0, z: 0 } }).unwrap();
    assert_eq!(again[1], Voxel(9));
}

#[test]
fn active_chunks_cover_the_world_once() {
    let config = VoxelMapConfig::new(4, 3, 2).unwrap();
    let mut q = MeshCommandQueue::new();
    let map = VoxelMap::new(&config, terrain(), &flat_world(&config, 8, 5), Point3i { x: 0, y: 0, z: 0 }, &mut q);
    let active = map.index.active_clipmap_lod_chunks(&config.world_voxel_extent, 2, Point3i { x: 0, y: 0, z: 0 });
    assert_eq!(active.len(), q.len());
    assert!(active.iter().any(|k| k.lod == 0));
    assert!(active.iter().any(|k| k.lod > 0));
    for cz in -8..8 {
        for cx in -8..8 {
            let p = Point3i { x: cx * 16 + 3, y: 2, z: cz * 16 + 7 };
            let n = active.iter().filter(|k| covers(k, 16, p)).count();
            assert_eq!(n, 1, "point {:?}", p);
        }
    }
}

#[test]
fn updates_converge_to_the_new_active_set() {
    let config = VoxelMapConfig::new(4, 3, 2).unwrap();
    let mut q = MeshCommandQueue::new();
    let map = VoxelMap::new(&config, terrain(), &flat_world(&config, 8, 5), Point3i { x: 0, y: 0, z: 0 }, &mut q);
    let ext = config.world_voxel_extent;
    let path = [(0, 0), (1, 0), (1, 1), (-2, 1), (-2, -3), (0, 0)];
    let mut set: HashSet<LodChunkKey> =
        map.index.active_clipmap_lod_chunks(&ext, 2, Point3i { x: 0, y: 0, z: 0 }).into_iter().collect();
    for w in path.windows(2) {
        let a = Point3i { x: w[0].0, y: 0, z: w[0].1 };
        let b = Point3i { x: w[1].0, y: 0, z: w[1].1 };
        for u in map.index.find_clipmap_chunk_updates(&ext, 2, a, b) {
            apply(&mut set, &u);
        }
        let expected: HashSet<LodChunkKey> = map.index.active_clipmap_lod_chunks(&ext, 2, b).into_iter().collect();
        assert_eq!(set, expected);
    }
}

#[test]
fn no_updates_when_the_center_stays() {
    let config = VoxelMapConfig::new(4, 3, 2).unwrap();
    let mut q = MeshCommandQueue::new();
    let map = VoxelMap::new(&config, terrain(), &flat_world(&config, 8, 5), Point3i { x: 0, y: 0, z: 0 }, &mut q);
    for c in [(0, 0), (3, -2), (-5, 5)] {
        let p = Point3i { x: c.0, y: 0, z: c.1 };
        assert!(map.index.find_clipmap_chunk_updates(&config.world_voxel_extent, 2, p, p).is_empty());
    }
}

#[test]
fn one_chunk_east_at_radius_eight_updates_only_the_boundary() {
    let config = VoxelMapConfig::new(4, 3, 8).unwrap();
    let mut q = MeshCommandQueue::new();
    let map = VoxelMap::new(&config, terrain(), &flat_world(&config, 16, 5), Point3i { x: 0, y: 0, z: 0 }, &mut q);
    let ext = config.world_voxel_extent;
    let origin = Point3i { x: 0, y: 0, z: 0 };
    let a = Point3i { x: 1, y: 0, z: 0 };
    let b = Point3i { x: 2, y: 0, z: 0 };
    let at_origin: HashSet<LodChunkKey> = map.index.active_clipmap_lod_chunks(&ext, 8, origin).into_iter().collect();
    let at_a: HashSet<LodChunkKey> = map.index.active_clipmap_lod_chunks(&ext, 8, a).into_iter().collect();
    assert_eq!(at_origin, at_a);
    assert!(map.index.find_clipmap_chunk_updates(&ext, 8, origin, a).is_empty());
    let before: HashSet<LodChunkKey> = map.index.active_clipmap_lod_chunks(&ext, 8, a).into_iter().collect();
    let after: HashSet<LodChunkKey> = map.index.active_clipmap_lod_chunks(&ext, 8, b).into_iter().collect();
    let updates = map.index.find_clipmap_chunk_updates(&ext, 8, a, b);
    assert!(!updates.is_empty());
    let mut touched: HashSet<LodChunkKey> = HashSet::new();
    for u in &updates {
        match u {
            LodChunkUpdate::Split(s) => {
                assert!(before.contains(&s.old_chunk) && !after.contains(&s.old_chunk));
                touched.insert(s.old_chunk);
                for k in &s.new_chunks {
                    assert!(after.contains(k) && !before.contains(k));
                    touched.insert(*k);
                }
            }
            LodChunkUpdate::Merge(m) => {
                assert!(after.contains(&m.new_chunk) && !before.contains(&m.new_chunk));
                touched.insert(m.new_chunk);
                for k in &m.old_chunks {
                    assert!(before.contains(k) && !after.contains(k));
                    touched.insert(*k);
                }
            }
        }
    }
    let changed: HashSet<LodChunkKey> = before.symmetric_difference(&after).cloned().collect();
    assert_eq!(touched, changed);
}

#[test]
fn lod_controller_enqueues_only_when_the_center_moves() {
    let config = VoxelMapConfig::new(4, 3, 2).unwrap();
    let mut q = MeshCommandQueue::new();
    let map = VoxelMap::new(&config, terrain(), &flat_world(&config, 8, 5), Point3i { x: 0, y: 0, z: 0 }, &mut q);
    q.clear();
    let ext = config.world_voxel_extent;
    let mut state = LodState::new(Point3i { x: 0, y: 0, z: 0 });
    level_of_detail_system(Some(Point3i { x: 5, y: 300, z: 15 }), &map.index, &ext, &config, &mut state, &mut q);
    assert!(q.is_empty());
    level_of_detail_system(None, &map.index, &ext, &config, &mut state, &mut q);
    assert!(q.is_empty());
    level_of_detail_system(Some(Point3i { x: 40, y: 300, z: -1 }), &map.index, &ext, &config, &mut state, &mut q);
    assert_eq!(state.old_lod0_center, Point3i { x: 2, y: 0, z: -1 });
    let expected = map.index.find_clipmap_chunk_updates(&ext, 2, Point3i { x: 0, y: 0, z: 0 }, Point3i { x: 2, y: 0, z: -1 });
    assert_eq!(q.len(), expected.len());
    assert!(q.len() > 0);
    assert_eq!(lod0_center(Point3i { x: -1, y: 7, z: 16 }, 4), Point3i { x: -1, y: 0, z: 1 });
}

#[test]
fn initial_commands_create_every_active_chunk() {
    let config = VoxelMapConfig::new(4, 3, 2).unwrap();
    let mut q = MeshCommandQueue::new();
    let map = VoxelMap::new(&config, terrain(), &flat_world(&config, 4, 5), Point3i { x: 1, y: 0, z: 1 }, &mut q);
    let active = map.index.active_clipmap_lod_chunks(&config.world_voxel_extent, 2, Point3i { x: 1, y: 0, z: 1 });
    let mut meshes = minkraft::chunk_meshes::ChunkMeshes::new();
    let launched = minkraft::mesh_generator::apply_mesh_commands(&mut q, &mut meshes, 10_000);
    let a: HashSet<LodChunkKey> = active.into_iter().collect();
    let b: HashSet<LodChunkKey> = launched.into_iter().collect();
    assert_eq!(a, b);
    let k0 = LodChunkKey { lod: 0, minimum: Point3i { x: 0, y: 0, z: 0 } };
    assert_eq!(map.store.get_chunk(&k0).unwrap()[0], Voxel(WATER));
    assert!(map.store.get_chunk(&LodChunkKey { lod: 1, minimum: Point3i { x: 0, y: 0, z: 0 } }).is_some());
}

#[test]
fn chunk_batch_writes_generated_and_edited_chunks() {
    let config = VoxelMapConfig::new(2, 2, 2).unwrap();
    let mut q = MeshCommandQueue::new();
    let mut map = VoxelMap::new(&config, terrain(), &flat_world(&config, 1, 2), Point3i { x: 0, y: 0, z: 0 }, &mut q);
    let mut chunks = ChunkCommandQueue::new();
    map.chunk_detection_system(&config, Point3i { x: 0, y: 0, z: 0 }, &mut chunks);
    assert_eq!(chunks.len(), 100 * 100 - 4);
    let mut small = ChunkCommandQueue::new();
    small.enqueue(ChunkCommand::Generate(Point3i { x: 5, y: 0, z: 5 }));
    small.enqueue(ChunkCommand::Edit(Point3i { x: 0, y: 3, z: 0 }, vec![Voxel(STONE); 64]));
    small.enqueue(ChunkCommand::Remove(Point3i { x: 0, y: 0, z: 0 }));
    let batch = small.take_batch(40);
    map.apply_chunk_batch(&config, terrain(), &batch, &vec![vec![3; 16]]);
    let k = LodChunkKey { lod: 0, minimum: Point3i { x: 20, y: 0, z: 20 } };
    assert_eq!(map.store.get_chunk(&k).unwrap()[0], Voxel(WATER));
    let edited = LodChunkKey { lod: 0, minimum: Point3i { x: 0, y: 12, z: 0 } };
    assert_eq!(map.store.get_chunk(&edited).unwrap(), &vec![Voxel(STONE); 64]);
    assert!(map.store.get_chunk(&LodChunkKey { lod: 0, minimum: Point3i { x: 0, y: 0, z: 0 } }).is_some());
    let mut again = ChunkCommandQueue::new();
    map.chunk_detection_system(&config, Point3i { x: 0, y: 0, z: 0 }, &mut again);
    assert_eq!(again.len(), 100 * 100 - 5);
    let unused: Extent3i = config.world_chunks_extent;
    assert_eq!(unused.shape.y, 1);
}

#[test]
fn sphere_array_marks_points_inside_the_radius() {
    let (v, r) = minkraft::data_sets::sphere_bit_array(8, 1u8, 0u8);
    assert_eq!(r, 3);
    assert_eq!(v.len(), 512);
    let at = |x: i32, y: i32, z: i32| v[((x + 4) + 8 * ((y + 4) + 8 * (z + 4))) as usize];
    assert_eq!(at(0, 0, 0), 1);
    assert_eq!(at(2, 2, 0), 1);
    assert_eq!(at(3, 0, 0), 0);
    assert_eq!(at(2, 2, 1), 0);
    assert_eq!(at(-4, -4, -4), 0);
    let (tiny, r) = minkraft::data_sets::sphere_bit_array(2, true, false);
    assert_eq!(r, 0);
    assert!(tiny.iter().all(|b| !b));
}

#[test]
fn config_change_releases_meshes_and_starts_over() {
    let config = VoxelMapConfig::new(4, 3, 2).unwrap();
    let mut q = MeshCommandQueue::new();
    let columns = flat_world(&config, 4, 5);
    let _map = VoxelMap::new(&config, terrain(), &columns, Point3i { x: 0, y: 0, z: 0 }, &mut q);
    let mut meshes = minkraft::chunk_meshes::ChunkMeshes::new();
    let handles = minkraft::chunk_meshes::MeshHandles { entity: 1, mesh: 2, body: Some(3) };
    meshes.insert_mesh(&LodChunkKey { lod: 0, minimum: Point3i { x: 0, y: 0, z: 0 } }, handles);
    let mut state = LodState::new(Point3i { x: 0, y: 0, z: 0 });
    let smaller = VoxelMapConfig::new(4, 2, 2).unwrap();
    let (map, released) = minkraft::voxel_map::voxel_map_config_changed_system(
        &smaller, terrain(), &flat_world(&smaller, 4, 5), Some(Point3i { x: 20, y: 9, z: -3 }), &mut meshes, &mut q, &mut state);
    assert_eq!(released.len(), 1);
    assert_eq!(released[0].1.handles, handles);
    assert_eq!(state.old_lod0_center, Point3i { x: 1, y: 0, z: -1 });
    let map = map.unwrap();
    let active = map.index.active_clipmap_lod_chunks(&smaller.world_voxel_extent, 2, Point3i { x: 1, y: 0, z: -1 });
    assert_eq!(q.len(), active.len());
    let (none, released) = minkraft::voxel_map::voxel_map_config_changed_system(
        &smaller, terrain(), &columns, None, &mut meshes, &mut q, &mut state);
    assert!(none.is_none());
    assert!(released.is_empty());
    assert!(q.is_empty());
}

#[test]
fn library_meshing_of_a_lone_voxel_is_a_cube() {
    let mut chunk = vec![Voxel(0); 4 * 4 * 4];
    chunk[1 + 4 * (2 + 4 * 1)] = Voxel(STONE);
    let quads = minkraft::mesh::create_mesh_for_chunk(&chunk, 4).unwrap();
    assert_eq!(quads.len(), 6);
    let faces: HashSet<u8> = quads.iter().map(|q| q.0).collect();
    assert_eq!(faces.len(), 6);
    for q in &quads {
        assert_eq!(q.1, [2, 3, 2]);
        assert_eq!((q.2, q.3), (1, 1));
        assert_eq!(q.4, (STONE - 1) as u32);
    }
}

#[test]
fn library_meshing_of_an_empty_chunk_is_nothing() {
    let chunk = vec![Voxel(0); 4 * 4 * 4];
    assert!(minkraft::mesh::create_mesh_for_chunk(&chunk, 4).is_none());
}

#[test]
fn library_meshing_of_a_full_chunk_merges_each_side() {
    let chunk = vec![Voxel(WATER); 4 * 4 * 4];
    let quads = minkraft::mesh::create_mesh_for_chunk(&chunk, 4).unwrap();
    assert_eq!(quads.len(), 6);
    assert!(quads.iter().all(|q| q.2 == 4 && q.3 == 4 && q.4 == 0));
}

#[test]
fn mesh_budget_is_never_exceeded_by_a_split() {
    let k = |lod: u8, x: i32| LodChunkKey { lod, minimum: Point3i { x, y: 0, z: 0 } };
    let mut q = MeshCommandQueue::new();
    let mut meshes = minkraft::chunk_meshes::ChunkMeshes::new();
    q.enqueue(MeshCommand::Create(k(0, 100)));
    q.enqueue(MeshCommand::Update(LodChunkUpdate::Split(minkraft::clipmap::SplitChunk {
        old_chunk: k(1, 0),
        new_chunks: vec![k(0, 0), k(0, 16), k(0, 32)],
    })));
    q.enqueue(MeshCommand::Create(k(0, 200)));
    let launched = minkraft::mesh_generator::apply_mesh_commands(&mut q, &mut meshes, 3);
    assert_eq!(launched, vec![k(0, 200)]);
    assert_eq!(q.len(), 2);
    let launched = minkraft::mesh_generator::apply_mesh_commands(&mut q, &mut meshes, 3);
    assert_eq!(launched, vec![k(0, 0), k(0, 16), k(0, 32)]);
    let launched = minkraft::mesh_generator::apply_mesh_commands(&mut q, &mut meshes, 3);
    assert_eq!(launched, vec![k(0, 100)]);
    assert!(q.is_empty());
}

#[test]
fn bounding_extent_of_level_zero() {
    let config = VoxelMapConfig::new(4, 3, 2).unwrap();
    let mut q = MeshCommandQueue::new();
    let map = VoxelMap::new(&config, terrain(), &flat_world(&config, 2, 5), Point3i { x: 0, y: 0, z: 0 }, &mut q);
    let b = map.store.lod0_bounding_extent().unwrap();
    assert_eq!(b, Extent3i { minimum: Point3i { x: -32, y: 0, z: -32 }, shape: Point3i { x: 64, y: 16, z: 64 } });
}
