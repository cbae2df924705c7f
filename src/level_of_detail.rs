use vstd::prelude::*;
use crate::clipmap::{arr_of, index_extent_ok, index_point_ok, update_from_raw, chunk_updates_of, SpatialIndex};
use crate::config::VoxelMapConfig;
use crate::geom::{floor_shr, shr_floor, Extent3i, Point3i};
use crate::mesh_generator::{MeshCommand, MeshCommandQueue};

verus! {

/// The level-0 center that the clipmap was last updated for.
#[derive(Clone, Copy, Debug, PartialEq, Eq, Structural)]
pub struct LodState {
    pub old_lod0_center: Point3i,
}

impl LodState {
    pub fn new(lod0_center: Point3i) -> (r: LodState)
        ensures
            r.old_lod0_center == lod0_center,
    {
        LodState { old_lod0_center: lod0_center }
    }
}

/// The level-0 chunk under a viewer at voxel `p`, on the ground plane: the
/// vertical axis is ignored for level-of-detail purposes.
pub open spec fn lod0_center_of(p: Point3i, chunk_log2: int) -> Point3i {
    Point3i {
        x: floor_shr(p.x as int, chunk_log2 as nat) as i32,
        y: 0,
        z: floor_shr(p.z as int, chunk_log2 as nat) as i32,
    }
}

pub fn lod0_center(p: Point3i, chunk_log2: i32) -> (r: Point3i)
    requires
        1 <= chunk_log2 <= 16,
    ensures
        r == lod0_center_of(p, chunk_log2 as int),
{
    Point3i { x: shr_floor(p.x, chunk_log2 as u32), y: 0, z: shr_floor(p.z, chunk_log2 as u32) }
}

pub proof fn lemma_center_in_range(p: Point3i, chunk_log2: int)
    requires
        1 <= chunk_log2 <= 16,
        index_point_ok(arr_of(p)),
    ensures
        index_point_ok(arr_of(lod0_center_of(p, chunk_log2))),
{
    crate::geom::lemma_pow2_positive(chunk_log2 as nat);
    let d = crate::geom::pow2(chunk_log2 as nat);
    assert(-0x10_0000 <= (p.x as int) / d <= 0x10_0000) by (nonlinear_arith)
        requires -0x10_0000 <= p.x <= 0x10_0000, d >= 1;
    assert(-0x10_0000 <= (p.z as int) / d <= 0x10_0000) by (nonlinear_arith)
        requires -0x10_0000 <= p.z <= 0x10_0000, d >= 1;
}

/// One frame of the level-of-detail controller. With no viewer, or a viewer
/// still over the same level-0 chunk, nothing happens. Otherwise every update
/// of the clipmap, from the old center to the new one, is enqueued as a mesh
/// command (so that the first found is applied first), and the
/// new center is remembered.
pub fn level_of_detail_system(
    viewer_voxel: Option<Point3i>,
    index: &SpatialIndex,
    bounding_extent: &Extent3i,
    config: &VoxelMapConfig,
    lod_state: &mut LodState,
    mesh_commands: &mut MeshCommandQueue,
)
    requires
        index.wf(),
        config.wf(),
        index_extent_ok(*bounding_extent),
        index_point_ok(arr_of(old(lod_state).old_lod0_center)),
        viewer_voxel matches Some(p) ==> index_point_ok(arr_of(p)),
    ensures
        index_point_ok(arr_of(final(lod_state).old_lod0_center)),
        match viewer_voxel {
            None => *final(lod_state) == *old(lod_state) && final(mesh_commands)@ == old(mesh_commands)@,
            Some(p) => {
                let c = lod0_center_of(p, config.chunk_log2 as int);
                let ups = chunk_updates_of(index.chunks(), index.chunk_log2(), index.superchunk_log2(),
                    arr_of(bounding_extent.minimum), arr_of(bounding_extent.shape), config.clip_box_radius as u16,
                    arr_of(old(lod_state).old_lod0_center), arr_of(c));
                let n = final(mesh_commands)@.len() - old(mesh_commands)@.len();
                &&& final(lod_state).old_lod0_center == c
                &&& (c == old(lod_state).old_lod0_center ==> final(mesh_commands)@ == old(mesh_commands)@)
                &&& (c != old(lod_state).old_lod0_center ==> {
                    &&& n == ups.len()
                    &&& final(mesh_commands)@.skip(n) == old(mesh_commands)@
                    &&& forall|i: int| 0 <= i < n ==> match #[trigger] final(mesh_commands)@[i] {
                        MeshCommand::Update(u) => update_from_raw(u, ups[i]),
                        MeshCommand::Create(_) => false,
                    }
                })
            },
        },
{
    if let Some(p) = viewer_voxel {
        proof {
            lemma_center_in_range(p, config.chunk_log2 as int);
        }
        let center = lod0_center(p, config.chunk_log2);
        if center != lod_state.old_lod0_center {
            let updates = index.find_clipmap_chunk_updates(bounding_extent, config.clip_box_radius, lod_state.old_lod0_center, center);
            enqueue_updates(mesh_commands, updates);
            lod_state.old_lod0_center = center;
        }
    }
}

/// Enqueues every update, in order.
fn enqueue_updates(mesh_commands: &mut MeshCommandQueue, updates: Vec<crate::clipmap::LodChunkUpdate>)
    ensures
        ({
            let n = updates@.len();
            &&& final(mesh_commands)@.len() == old(mesh_commands)@.len() + n
            &&& final(mesh_commands)@.skip(n as int) == old(mesh_commands)@
            &&& forall|j: int| 0 <= j < n ==> #[trigger] final(mesh_commands)@[j] == MeshCommand::Update(updates@[j])
        }),
{
    let ghost q0 = mesh_commands@;
    let n = updates.len();
    let mut updates = updates;
    let ghost ups0 = updates@;
    let mut i: usize = 0;
    while i < n
        invariant
            n == ups0.len(),
            0 <= i <= n,
            updates@ == ups0.take(n - i),
            mesh_commands@.len() == q0.len() + i,
            mesh_commands@.skip(i as int) == q0,
            forall|j: int| 0 <= j < i ==> #[trigger] mesh_commands@[j] == MeshCommand::Update(ups0[n - i + j]),
        decreases n - i,
    {
        let u = updates.pop().unwrap();
        let ghost before = mesh_commands@;
        mesh_commands.enqueue(MeshCommand::Update(u));
        assert(mesh_commands@.skip(i + 1) =~= before.skip(i as int));
        assert(updates@ =~= ups0.take(n - i - 1));
        i = i + 1;
    }
}

} // verus!
