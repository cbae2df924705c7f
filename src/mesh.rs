use vstd::prelude::*;
use building_blocks::mesh::{greedy_quads, GreedyQuadsBuffer, RIGHT_HANDED_Y_UP_CONFIG};
use building_blocks::prelude::{Array3x1, ExtentN, PointN};
use crate::chunk_meshes::{retire_spec, fade_in_spec, ChunkMeshes, MeshHandles, MeshRecord};
use crate::geom::{pow2, LodChunkKey};
use crate::mesh_generator::PlanState;
use crate::store::local_index;
use crate::terrain::{local_x, local_y, local_z};
use crate::voxel::{Voxel, EMPTY};

verus! {

/// Voxel `i` of the padded copy (edge `e + 2`) of a chunk of edge `e`: the
/// chunk's own voxel one step inward, or empty on the one-voxel border, so that
/// faces on chunk boundaries are never culled against a neighbor of another
/// level of detail.
pub open spec fn padded_voxel(chunk: Seq<Voxel>, e: int, i: int) -> Voxel {
    let p = e + 2;
    let (x, y, z) = (local_x(i, p), local_y(i, p), local_z(i, p));
    if 1 <= x <= e && 1 <= y <= e && 1 <= z <= e {
        chunk[local_index(x - 1, y - 1, z - 1, e)]
    } else {
        Voxel(0)
    }
}

/// Copies a chunk into the middle of an empty buffer one voxel larger on
/// every side: the input of greedy quad extraction.
pub fn padded_chunk(chunk: &Vec<Voxel>, e: usize) -> (r: Vec<Voxel>)
    requires
        1 <= e <= 64,
        chunk@.len() == e * e * e,
    ensures
        r@.len() == (e + 2) * (e + 2) * (e + 2),
        forall|i: int| 0 <= i < r@.len() ==> #[trigger] r@[i] == padded_voxel(chunk@, e as int, i),
{
    let p = e + 2;
    assert(p * p <= 4356 && p * p * p <= 287496) by (nonlinear_arith)
        requires p == e + 2, 1 <= e <= 64;
    let n = p * p * p;
    let mut r: Vec<Voxel> = Vec::with_capacity(n);
    let mut i: usize = 0;
    while i < n
        invariant
            1 <= e <= 64,
            p == e + 2,
            p * p <= 4356,
            n == p * p * p,
            chunk@.len() == e * e * e,
            0 <= i <= n,
            r@.len() == i,
            forall|j: int| 0 <= j < i ==> #[trigger] r@[j] == padded_voxel(chunk@, e as int, j),
        decreases n - i,
    {
        proof {
            crate::terrain::lemma_local_coords(i as int, p as int);
        }
        let x = i % p;
        let y = (i / p) % p;
        let z = i / (p * p);
        let v = if 1 <= x && x <= e && 1 <= y && y <= e && 1 <= z && z <= e {
            let a = x - 1;
            let b = y - 1;
            let c = z - 1;
            proof {
                assert(0 <= e * c < e * e && 0 <= b + e * c < e * e && 0 <= e * (b + e * c) < e * e * e
                    && 0 <= a + e * (b + e * c) < e * e * e) by (nonlinear_arith)
                    requires 0 <= a < e, 0 <= b < e, 0 <= c < e, e >= 1;
                assert(e * e <= 4096 && e * e * e <= 262144) by (nonlinear_arith)
                    requires 1 <= e <= 64;
            }
            chunk[a + e * (b + e * c)]
        } else {
            Voxel(EMPTY)
        };
        r.push(v);
        i = i + 1;
    }
    r
}

/// A quad as greedy meshing hands it out: face index (in the order of the
/// right-handed, y-up face configuration), minimum voxel (in the padded
/// buffer), width and height.
pub type Quad = (u8, [i32; 3], i32, i32);

/// The quads that greedy meshing extracts from a padded buffer of edge `p`.
pub uninterp spec fn greedy_quads_of(padded: Seq<Voxel>, p: int) -> Seq<Quad>;

/// A quad lies in the interior of the buffer, starts on a solid voxel, and
/// spans at least one voxel each way.
pub open spec fn quad_ok(padded: Seq<Voxel>, p: int, q: Quad) -> bool {
    &&& q.0 < 6
    &&& 1 <= q.1@[0] <= p - 2
    &&& 1 <= q.1@[1] <= p - 2
    &&& 1 <= q.1@[2] <= p - 2
    &&& padded[local_index(q.1@[0] as int, q.1@[1] as int, q.1@[2] as int, p)].0 != 0
    &&& q.2 >= 1
    &&& q.3 >= 1
}

/// Relies on building_blocks::mesh::greedy_quads over the whole buffer: the
/// quads it finds, group by group (six groups). A quad starts only on a voxel
/// of the interior (the buffer less its border) that is not empty
/// (`face_needs_mesh`), and `find_quad` gives it at least that voxel's width
/// and a height of at least one.
#[verifier::external_body]
fn bb_greedy_quads(padded: &Vec<Voxel>, p: i32) -> (r: Vec<Quad>)
    requires
        3 <= p <= 66,
        padded@.len() == p * p * p,
    ensures
        r@ == greedy_quads_of(padded@, p as int),
        forall|i: int| 0 <= i < r@.len() ==> quad_ok(padded@, p as int, #[trigger] r@[i]),
{
    let extent = ExtentN::from_min_and_shape(PointN([0; 3]), PointN([p; 3]));
    let array = Array3x1::new_one_channel(extent, padded.clone());
    let mut buffer = GreedyQuadsBuffer::new(extent, RIGHT_HANDED_Y_UP_CONFIG.quad_groups());
    greedy_quads(&array, &extent, &mut buffer);
    buffer.quad_groups.iter().enumerate()
        .flat_map(|(f, g)| g.quads.iter().map(move |q| (f as u8, q.minimum.0, q.width, q.height)))
        .collect()
}

/// A quad with the texture layer of its material: the material of the voxel
/// at its minimum, less one (empty space has no layer).
pub type LayeredQuad = (u8, [i32; 3], i32, i32, u32);

pub open spec fn layered(padded: Seq<Voxel>, p: int, q: Quad) -> LayeredQuad {
    (q.0, q.1, q.2, q.3, (padded[local_index(q.1@[0] as int, q.1@[1] as int, q.1@[2] as int, p)].0 - 1) as u32)
}

/// The quads of a padded chunk with their texture layers, or `None` when there
/// is nothing to draw (a chunk fully empty or fully buried).
pub fn mesh_quads(padded: &Vec<Voxel>, p: usize, quads: &Vec<Quad>) -> (r: Option<Vec<LayeredQuad>>)
    requires
        3 <= p <= 66,
        padded@.len() == p * p * p,
        forall|i: int| 0 <= i < quads@.len() ==> quad_ok(padded@, p as int, #[trigger] quads@[i]),
    ensures
        r is None <==> quads@.len() == 0,
        r matches Some(v) ==> v@ == quads@.map_values(|q: Quad| layered(padded@, p as int, q)),
{
    if quads.len() == 0 {
        return None;
    }
    let mut out: Vec<LayeredQuad> = Vec::new();
    let mut i: usize = 0;
    while i < quads.len()
        invariant
            3 <= p <= 66,
            padded@.len() == p * p * p,
            forall|j: int| 0 <= j < quads@.len() ==> quad_ok(padded@, p as int, #[trigger] quads@[j]),
            0 <= i <= quads@.len(),
            out@ == quads@.take(i as int).map_values(|q: Quad| layered(padded@, p as int, q)),
        decreases quads@.len() - i,
    {
        let q = quads[i];
        assert(quad_ok(padded@, p as int, q));
        let x = q.1[0] as usize;
        let y = q.1[1] as usize;
        let z = q.1[2] as usize;
        proof {
            assert(0 <= p * z < p * p && 0 <= y + p * z < p * p && 0 <= p * (y + p * z) < p * p * p
                && 0 <= x + p * (y + p * z) < p * p * p) by (nonlinear_arith)
                requires 0 <= x < p, 0 <= y < p, 0 <= z < p, p >= 1;
            assert(p * p <= 4356) by (nonlinear_arith)
                requires p <= 66;
            assert(p * p * p <= 287496) by (nonlinear_arith)
                requires p <= 66, p * p <= 4356;
        }
        let v = padded[x + p * (y + p * z)];
        out.push((q.0, q.1, q.2, q.3, (v.0 - 1) as u32));
        assert(quads@.take(i + 1).map_values(|q: Quad| layered(padded@, p as int, q))
            =~= quads@.take(i as int).map_values(|q: Quad| layered(padded@, p as int, q)).push(layered(padded@, p as int, quads@[i as int])));
        i = i + 1;
    }
    assert(quads@.take(quads@.len() as int) =~= quads@);
    Some(out)
}

/// Surface extraction for one chunk: the chunk, copied into an empty one-voxel
/// border, goes through greedy meshing; its quads come with their texture
/// layers, or `None` when nothing is visible.
pub fn create_mesh_for_chunk(chunk: &Vec<Voxel>, e: usize) -> (r: Option<Vec<LayeredQuad>>)
    requires
        1 <= e <= 64,
        chunk@.len() == e * e * e,
    ensures
        ({
            let p = e + 2;
            let padded = Seq::new((p * p * p) as nat, |i: int| padded_voxel(chunk@, e as int, i));
            let quads = greedy_quads_of(padded, p as int);
            &&& (r is None <==> quads.len() == 0)
            &&& (r matches Some(v) ==> v@ == quads.map_values(|q: Quad| layered(padded, p as int, q)))
        }),
{
    let padded = padded_chunk(chunk, e);
    let p = e + 2;
    let ghost expected = Seq::new((p * p * p) as nat, |i: int| padded_voxel(chunk@, e as int, i));
    assert(padded@ =~= expected);
    let quads = bb_greedy_quads(&padded, p as i32);
    mesh_quads(&padded, p, &quads)
}

/// Edge of one voxel of level `lod`, in level-0 voxels.
pub fn voxel_size(lod: u8) -> (r: u32)
    requires
        lod <= 16,
    ensures
        r as int == pow2(lod as nat),
{
    let r = crate::geom::pow2_i32(lod as u32);
    proof {
        crate::geom::lemma_pow2_positive(lod as nat);
    }
    r as u32
}

/// Texture layer of a quad of the given solid material.
pub fn material_layer(v: Voxel) -> (r: u32)
    requires
        v.0 != 0,
    ensures
        r == v.0 - 1,
{
    (v.0 - 1) as u32
}

/// Only the finest level gets collision geometry.
pub fn needs_collider(key: &LodChunkKey) -> (r: bool)
    ensures
        r == (key.lod == 0),
{
    key.lod == 0
}

/// Groups a triangle list's indices by three, one triangle each.
pub fn collider_triangles(indices: &Vec<u32>) -> (r: Vec<[u32; 3]>)
    requires
        indices@.len() % 3 == 0,
    ensures
        r@.len() * 3 == indices@.len(),
        forall|t: int| 0 <= t < r@.len() ==> #[trigger] r@[t] == [indices@[3 * t], indices@[3 * t + 1], indices@[3 * t + 2]],
{
    let mut r: Vec<[u32; 3]> = Vec::new();
    let m = indices.len() / 3;
    let mut i: usize = 0;
    while r.len() < m
        invariant
            indices@.len() % 3 == 0,
            m * 3 == indices@.len(),
            indices@.len() <= usize::MAX,
            i == 3 * r@.len(),
            r@.len() <= m,
            forall|t: int| 0 <= t < r@.len() ==> #[trigger] r@[t] == [indices@[3 * t], indices@[3 * t + 1], indices@[3 * t + 2]],
        decreases m - r@.len(),
    {
        r.push([indices[i], indices[i + 1], indices[i + 2]]);
        i = i + 3;
    }
    r
}

/// What installing the generated meshes does: a built mesh replaces the live
/// one of its chunk, which fades out; a chunk with no geometry loses its live
/// mesh, which fades out too.
pub open spec fn install_step(s: PlanState, res: (LodChunkKey, Option<MeshHandles>)) -> PlanState {
    let (l, f) = retire_spec(s.0, s.1, res.0);
    match res.1 {
        Some(h) => (l.insert(res.0, MeshRecord { handles: h, fade: fade_in_spec() }), f, s.2),
        None => (l, f, s.2),
    }
}

pub open spec fn install_all(s: PlanState, rs: Seq<(LodChunkKey, Option<MeshHandles>)>) -> PlanState
    decreases rs.len(),
{
    if rs.len() == 0 { s } else { install_step(install_all(s, rs.drop_last()), rs.last()) }
}

/// Installs the results of a frame's mesh generation, in request order.
pub fn spawn_mesh_entities(meshes: &mut ChunkMeshes, results: &Vec<(LodChunkKey, Option<MeshHandles>)>)
    ensures
        ({
            let s = install_all((old(meshes).live(), old(meshes).fading(), Seq::<LodChunkKey>::empty()), results@);
            final(meshes).live() == s.0 && final(meshes).fading() == s.1
        }),
{
    let ghost s0: PlanState = (meshes.live(), meshes.fading(), Seq::<LodChunkKey>::empty());
    let mut i: usize = 0;
    while i < results.len()
        invariant
            0 <= i <= results@.len(),
            install_all(s0, results@.take(i as int)).0 == meshes.live(),
            install_all(s0, results@.take(i as int)).1 == meshes.fading(),
            install_all(s0, results@.take(i as int)).2 == Seq::<LodChunkKey>::empty(),
        decreases results@.len() - i,
    {
        assert(results@.take(i + 1).drop_last() =~= results@.take(i as int));
        let (k, h) = results[i];
        match h {
            Some(handles) => meshes.insert_mesh(&k, handles),
            None => meshes.retire(&k),
        }
        i = i + 1;
    }
    assert(results@.take(results@.len() as int) =~= results@);
}

} // verus!
