use minkraft::chunk_generator::{max_chunk_creations_per_frame, ChunkCommand, ChunkCommandQueue};
use minkraft::chunk_meshes::{ChunkMeshes, MeshHandles};
use minkraft::clipmap::{LodChunkUpdate, MergeChunks, SplitChunk};
use minkraft::fade::FADE_DURATION_MICROS;
use minkraft::geom::{LodChunkKey, Point3i};
use minkraft::mesh::{collider_triangles, material_layer, needs_collider, padded_chunk, spawn_mesh_entities, voxel_size};
use minkraft::mesh_generator::{apply_mesh_commands, max_mesh_creations_per_frame, MeshCommand, MeshCommandQueue};
use minkraft::voxel::{Voxel, GRASS, STONE};

fn key(lod: u8, x: i32) -> LodChunkKey {
    LodChunkKey { lod, minimum: Point3i { x, y: 0, z: 0 } }
}

fn handles(n: u64) -> MeshHandles {
    MeshHandles { entity: n, mesh: 100 + n, body: None }
}

#[test]
fn budget_is_forty_tasks_per_thread() {
    assert_eq!(max_chunk_creations_per_frame(4), 160);
    assert_eq!(max_mesh_creations_per_frame(3), 120);
}

#[test]
fn generation_batch_respects_the_budget() {
    let mut q = ChunkCommandQueue::new();
    for i in 0..100 {
        q.enqueue(ChunkCommand::Generate(Point3i { x: i, y: 0, z: 0 }));
    }
    let budget = max_chunk_creations_per_frame(1);
    let batch = q.take_batch(budget);
    assert_eq!(batch.len(), 40);
    assert_eq!(q.len(), 60);
    assert_eq!(batch[0], ChunkCommand::Generate(Point3i { x: 0, y: 0, z: 0 }));
    assert_eq!(batch[39], ChunkCommand::Generate(Point3i { x: 39, y: 0, z: 0 }));
}

#[test]
fn generation_batch_takes_all_when_under_budget() {
    let mut q = ChunkCommandQueue::new();
    for i in 0..10 {
        q.enqueue(ChunkCommand::Generate(Point3i { x: i, y: 0, z: 0 }));
    }
    q.enqueue(ChunkCommand::Remove(Point3i { x: 1, y: 0, z: 0 }));
    let batch = q.take_batch(max_chunk_creations_per_frame(2));
    assert_eq!(batch.len(), 11);
    assert!(q.is_empty());
}

#[test]
fn generation_batch_stops_at_the_budgeted_generation() {
    let mut q = ChunkCommandQueue::new();
    q.enqueue(ChunkCommand::Generate(Point3i { x: 0, y: 0, z: 0 }));
    q.enqueue(ChunkCommand::Remove(Point3i { x: 5, y: 0, z: 0 }));
    q.enqueue(ChunkCommand::Generate(Point3i { x: 1, y: 0, z: 0 }));
    q.enqueue(ChunkCommand::Generate(Point3i { x: 2, y: 0, z: 0 }));
    let batch = q.take_batch(2);
    assert_eq!(batch.len(), 3);
    assert_eq!(batch[1], ChunkCommand::Remove(Point3i { x: 5, y: 0, z: 0 }));
    assert_eq!(q.len(), 1);
}

#[test]
fn mesh_commands_apply_freshest_first_within_budget() {
    let mut q = MeshCommandQueue::new();
    let mut meshes = ChunkMeshes::new();
    for i in 0..5 {
        q.enqueue(MeshCommand::Create(key(0, i)));
    }
    let launched = apply_mesh_commands(&mut q, &mut meshes, 3);
    assert_eq!(launched, vec![key(0, 4), key(0, 3), key(0, 2)]);
    assert_eq!(q.len(), 2);
    let launched = apply_mesh_commands(&mut q, &mut meshes, 3);
    assert_eq!(launched, vec![key(0, 1), key(0, 0)]);
    assert!(q.is_empty());
}

#[test]
fn create_skips_chunks_that_have_a_mesh() {
    let mut q = MeshCommandQueue::new();
    let mut meshes = ChunkMeshes::new();
    meshes.insert_mesh(&key(0, 1), handles(1));
    q.enqueue(MeshCommand::Create(key(0, 1)));
    q.enqueue(MeshCommand::Create(key(0, 2)));
    let launched = apply_mesh_commands(&mut q, &mut meshes, 10);
    assert_eq!(launched, vec![key(0, 2)]);
    assert!(q.is_empty());
}

#[test]
fn split_fades_out_the_coarse_mesh_and_generates_the_fine_ones() {
    let mut q = MeshCommandQueue::new();
    let mut meshes = ChunkMeshes::new();
    meshes.insert_mesh(&key(1, 0), handles(7));
    q.enqueue(MeshCommand::Update(LodChunkUpdate::Split(SplitChunk {
        old_chunk: key(1, 0),
        new_chunks: vec![key(0, 0), key(0, 16)],
    })));
    let launched = apply_mesh_commands(&mut q, &mut meshes, 10);
    assert_eq!(launched, vec![key(0, 0), key(0, 16)]);
    assert!(!meshes.contains_key(&key(1, 0)));
    meshes.update_fades(FADE_DURATION_MICROS);
    let reaped = meshes.despawn_finished();
    assert_eq!(reaped.len(), 1);
    assert_eq!(reaped[0].0, key(1, 0));
    assert_eq!(reaped[0].1.handles, handles(7));
}

#[test]
fn merge_fades_out_the_fine_meshes_and_generates_the_coarse_one() {
    let mut q = MeshCommandQueue::new();
    let mut meshes = ChunkMeshes::new();
    meshes.insert_mesh(&key(0, 0), handles(1));
    meshes.insert_mesh(&key(0, 16), handles(2));
    q.enqueue(MeshCommand::Update(LodChunkUpdate::Merge(MergeChunks {
        old_chunks: vec![key(0, 0), key(0, 16)],
        new_chunk: key(1, 0),
    })));
    let launched = apply_mesh_commands(&mut q, &mut meshes, 10);
    assert_eq!(launched, vec![key(1, 0)]);
    assert!(!meshes.contains_key(&key(0, 0)));
    assert!(!meshes.contains_key(&key(0, 16)));
    meshes.update_fades(FADE_DURATION_MICROS / 2);
    assert_eq!(meshes.despawn_finished().len(), 0);
    meshes.update_fades(FADE_DURATION_MICROS / 2);
    assert_eq!(meshes.despawn_finished().len(), 2);
}

#[test]
fn installed_meshes_replace_and_fade() {
    let mut meshes = ChunkMeshes::new();
    spawn_mesh_entities(&mut meshes, &vec![(key(0, 0), Some(handles(1))), (key(0, 16), None)]);
    assert_eq!(meshes.get(&key(0, 0)).unwrap().handles, handles(1));
    assert!(meshes.get(&key(0, 0)).unwrap().fade.fade_in);
    assert!(!meshes.contains_key(&key(0, 16)));
    spawn_mesh_entities(&mut meshes, &vec![(key(0, 0), Some(handles(2)))]);
    assert_eq!(meshes.get(&key(0, 0)).unwrap().handles, handles(2));
    meshes.update_fades(FADE_DURATION_MICROS);
    let reaped = meshes.despawn_finished();
    assert_eq!(reaped.len(), 1);
    assert_eq!(reaped[0].1.handles, handles(1));
    assert_eq!(meshes.get(&key(0, 0)).unwrap().fade.remaining, 0);
}

#[test]
fn removal_and_clearing_release_every_mesh() {
    let mut meshes = ChunkMeshes::new();
    meshes.insert_mesh(&key(0, 0), handles(1));
    meshes.insert_mesh(&key(0, 16), handles(2));
    assert_eq!(meshes.remove_entity(&key(0, 0)), Some(handles(1)));
    assert_eq!(meshes.remove_entity(&key(0, 0)), None);
    meshes.retire(&key(0, 16));
    meshes.insert_mesh(&key(0, 32), handles(3));
    let all = meshes.clear_entities();
    assert_eq!(all.len(), 2);
    assert!(!meshes.contains_key(&key(0, 32)));
}

#[test]
fn padding_surrounds_the_chunk_with_empty_voxels() {
    let chunk = vec![Voxel(STONE); 8];
    let padded = padded_chunk(&chunk, 2);
    assert_eq!(padded.len(), 64);
    let solid = padded.iter().filter(|v| !v.is_empty()).count();
    assert_eq!(solid, 8);
    assert_eq!(padded[1 + 4 * (1 + 4 * 1)], Voxel(STONE));
    assert_eq!(padded[0], Voxel(0));
}

#[test]
fn mesh_attributes() {
    assert_eq!(voxel_size(0), 1);
    assert_eq!(voxel_size(3), 8);
    assert_eq!(material_layer(Voxel(GRASS)), 2);
    assert!(needs_collider(&key(0, 0)));
    assert!(!needs_collider(&key(2, 0)));
    assert_eq!(collider_triangles(&vec![0, 1, 2, 2, 3, 0]), vec![[0, 1, 2], [2, 3, 0]]);
}
