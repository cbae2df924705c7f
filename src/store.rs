use vstd::prelude::*;
use std::collections::{HashMap, HashSet};
use crate::config::VoxelMapConfig;
use crate::geom::{Extent3i, floor_shr, lemma_pow2_monotone, lemma_pow2_positive, pow2, pow2_i32, shr_floor, LodChunkKey, Point3i};
use crate::terrain::{local_x, local_y, local_z};
use crate::voxel::{Voxel, EMPTY};

verus! {

broadcast use vstd::std_specs::hash::group_hash_axioms;

/// Radix of the packing of chunk keys into `u128` hash keys.
pub const PACK_RADIX: u128 = 0x20_0001;

/// Chunk keys whose coordinates the packing can hold.
pub open spec fn packable(k: LodChunkKey) -> bool {
    &&& -0x10_0000 <= k.minimum.x <= 0x10_0000
    &&& -0x10_0000 <= k.minimum.y <= 0x10_0000
    &&& -0x10_0000 <= k.minimum.z <= 0x10_0000
}

/// A packable chunk key as one number: its level and shifted coordinates as
/// digits of radix `PACK_RADIX`.
pub open spec fn pack(k: LodChunkKey) -> int {
    let r = PACK_RADIX as int;
    ((k.lod * r + (k.minimum.x + 0x10_0000)) * r + (k.minimum.y + 0x10_0000)) * r + (k.minimum.z + 0x10_0000)
}

proof fn lemma_digits_unique(q1: int, d1: int, q2: int, d2: int, r: int)
    requires
        r > 0,
        0 <= d1 < r,
        0 <= d2 < r,
        q1 * r + d1 == q2 * r + d2,
    ensures
        q1 == q2,
        d1 == d2,
{
    vstd::arithmetic::div_mod::lemma_fundamental_div_mod_converse(q1 * r + d1, r, q1, d1);
    vstd::arithmetic::div_mod::lemma_fundamental_div_mod_converse(q2 * r + d2, r, q2, d2);
}

proof fn lemma_pack_injective(a: LodChunkKey, b: LodChunkKey)
    requires
        packable(a),
        packable(b),
        pack(a) == pack(b),
    ensures
        a == b,
{
    let r = PACK_RADIX as int;
    lemma_digits_unique((a.lod * r + (a.minimum.x + 0x10_0000)) * r + (a.minimum.y + 0x10_0000), a.minimum.z + 0x10_0000,
        (b.lod * r + (b.minimum.x + 0x10_0000)) * r + (b.minimum.y + 0x10_0000), b.minimum.z + 0x10_0000, r);
    lemma_digits_unique(a.lod * r + (a.minimum.x + 0x10_0000), a.minimum.y + 0x10_0000,
        b.lod * r + (b.minimum.x + 0x10_0000), b.minimum.y + 0x10_0000, r);
    lemma_digits_unique(a.lod as int, a.minimum.x + 0x10_0000, b.lod as int, b.minimum.x + 0x10_0000, r);
}

fn packable_exec(k: &LodChunkKey) -> (r: bool)
    ensures
        r == packable(*k),
{
    -0x10_0000 <= k.minimum.x && k.minimum.x <= 0x10_0000 && -0x10_0000 <= k.minimum.y && k.minimum.y <= 0x10_0000
        && -0x10_0000 <= k.minimum.z && k.minimum.z <= 0x10_0000
}

fn pack_exec(k: &LodChunkKey) -> (r: u128)
    requires
        packable(*k),
    ensures
        r as int == pack(*k),
{
    let r = PACK_RADIX;
    let x = (k.minimum.x + 0x10_0000) as u128;
    let y = (k.minimum.y + 0x10_0000) as u128;
    let z = (k.minimum.z + 0x10_0000) as u128;
    let l = k.lod as u128;
    let ghost ri = r as int;
    let ghost t1 = l * r + x;
    assert(t1 < 256 * ri) by (nonlinear_arith)
        requires t1 == l * ri + x, l <= 255, x < ri, ri == 0x20_0001;
    let ghost t2 = t1 * ri + y;
    assert(t2 < 256 * ri * ri) by (nonlinear_arith)
        requires t2 == t1 * ri + y, t1 < 256 * ri, y < ri, ri == 0x20_0001;
    assert(t2 * ri + z < 256 * ri * ri * ri) by (nonlinear_arith)
        requires t2 < 256 * ri * ri, z < ri, ri == 0x20_0001;
    ((l * r + x) * r + y) * r + z
}

/// The chunk map that a list of entries stands for: a later entry for a key
/// hides an earlier one.
pub open spec fn chunk_map(s: Seq<(LodChunkKey, Vec<Voxel>)>) -> Map<LodChunkKey, Seq<Voxel>>
    decreases s.len(),
{
    if s.len() == 0 {
        Map::empty()
    } else {
        chunk_map(s.drop_last()).insert(s.last().0, s.last().1@)
    }
}

/// Index of voxel `(x, y, z)` (local coordinates) in a dense chunk of edge `e`.
pub open spec fn local_index(x: int, y: int, z: int, e: int) -> int {
    x + e * (y + e * z)
}

/// Bounds on chunk coordinates in the store (in voxels of the chunk's level).
pub open spec fn store_coord_ok(v: i32, e: int) -> bool {
    -0x10_0000 <= v <= 0x10_0000 && (v as int) % e == 0
}

pub open spec fn store_key_ok(k: LodChunkKey, e: int, num_lods: int) -> bool {
    &&& k.lod < num_lods
    &&& store_coord_ok(k.minimum.x, e)
    &&& store_coord_ok(k.minimum.y, e)
    &&& store_coord_ok(k.minimum.z, e)
}

/// Coordinate of the coarse chunk (one level up) holding the fine chunk at `f`.
pub open spec fn coarse_coord(f: int, chunk_log2: nat) -> int {
    floor_shr(f, chunk_log2 + 1) * pow2(chunk_log2)
}

pub open spec fn coarse_key_of(k: LodChunkKey, chunk_log2: nat) -> LodChunkKey {
    LodChunkKey {
        lod: (k.lod + 1) as u8,
        minimum: Point3i {
            x: coarse_coord(k.minimum.x as int, chunk_log2) as i32,
            y: coarse_coord(k.minimum.y as int, chunk_log2) as i32,
            z: coarse_coord(k.minimum.z as int, chunk_log2) as i32,
        },
    }
}

/// The chunk one level down that covers octant `(dx, dy, dz)` of coarse chunk `c`.
pub open spec fn fine_key(c: LodChunkKey, e: int, dx: int, dy: int, dz: int) -> LodChunkKey {
    LodChunkKey {
        lod: (c.lod - 1) as u8,
        minimum: Point3i {
            x: (2 * c.minimum.x + dx * e) as i32,
            y: (2 * c.minimum.y + dy * e) as i32,
            z: (2 * c.minimum.z + dz * e) as i32,
        },
    }
}

/// Point downsampling: voxel `i` of the coarse chunk `c` (at level `c.lod`) is
/// the voxel at twice its coordinates one level down, or empty where that
/// level holds no chunk.
pub open spec fn point_sample(m: Map<LodChunkKey, Seq<Voxel>>, c: LodChunkKey, e: int, i: int) -> Voxel {
    let (x, y, z) = (local_x(i, e), local_y(i, e), local_z(i, e));
    let (dx, dy, dz) = ((2 * x) / e, (2 * y) / e, (2 * z) / e);
    let fine = fine_key(c, e, dx, dy, dz);
    if m.contains_key(fine) {
        m[fine][local_index(2 * x - dx * e, 2 * y - dy * e, 2 * z - dz * e, e)]
    } else {
        Voxel(0)
    }
}

pub open spec fn downsampled_ok(m: Map<LodChunkKey, Seq<Voxel>>, c: LodChunkKey, e: int, v: Seq<Voxel>) -> bool {
    &&& v.len() == e * e * e
    &&& forall|i: int| 0 <= i < e * e * e ==> #[trigger] v[i] == point_sample(m, c, e, i)
}

/// Voxel data of every level of detail, chunk by chunk. A key that has no
/// chunk has not been generated yet.
pub struct VoxelStore {
    chunk_log2: u32,
    num_lods: u8,
    chunks: Vec<(LodChunkKey, Vec<Voxel>)>,
    positions: HashMap<u128, usize>,
}

/// The entry at `i` is the last one for its key.
pub open spec fn last_for_key(s: Seq<(LodChunkKey, Vec<Voxel>)>, i: int) -> bool {
    0 <= i < s.len() && forall|j: int| i < j < s.len() ==> (#[trigger] s[j]).0 != s[i].0
}

proof fn lemma_last_entry(s: Seq<(LodChunkKey, Vec<Voxel>)>, i: int)
    requires
        last_for_key(s, i),
    ensures
        chunk_map(s).contains_key(s[i].0),
        chunk_map(s)[s[i].0] == s[i].1@,
    decreases s.len(),
{
    if i < s.len() - 1 {
        lemma_last_entry(s.drop_last(), i);
    }
}

proof fn lemma_absent(s: Seq<(LodChunkKey, Vec<Voxel>)>, k: LodChunkKey)
    requires
        forall|j: int| 0 <= j < s.len() ==> (#[trigger] s[j]).0 != k,
    ensures
        !chunk_map(s).contains_key(k),
    decreases s.len(),
{
    if s.len() > 0 {
        lemma_absent(s.drop_last(), k);
    }
}

proof fn lemma_keys_listed(s: Seq<(LodChunkKey, Vec<Voxel>)>, k: LodChunkKey)
    requires
        chunk_map(s).contains_key(k),
    ensures
        exists|j: int| 0 <= j < s.len() && (#[trigger] s[j]).0 == k,
    decreases s.len(),
{
    if s.last().0 != k {
        lemma_keys_listed(s.drop_last(), k);
        let j = choose|j: int| 0 <= j < s.drop_last().len() && (#[trigger] s.drop_last()[j]).0 == k;
        assert(s[j].0 == k);
    }
}

proof fn lemma_replace_last(s: Seq<(LodChunkKey, Vec<Voxel>)>, i: int, e: (LodChunkKey, Vec<Voxel>))
    requires
        last_for_key(s, i),
        e.0 == s[i].0,
    ensures
        chunk_map(s.update(i, e)) == chunk_map(s).insert(e.0, e.1@),
    decreases s.len(),
{
    if i == s.len() - 1 {
        assert(s.update(i, e).drop_last() =~= s.drop_last());
    } else {
        lemma_replace_last(s.drop_last(), i, e);
        assert(s.update(i, e).drop_last() =~= s.drop_last().update(i, e));
        assert(chunk_map(s.update(i, e)) =~= chunk_map(s).insert(e.0, e.1@));
    }
}

impl VoxelStore {
    pub closed spec fn view(&self) -> Map<LodChunkKey, Seq<Voxel>> {
        chunk_map(self.chunks@)
    }

    pub closed spec fn chunk_log2(&self) -> int {
        self.chunk_log2 as int
    }

    pub closed spec fn num_lods(&self) -> int {
        self.num_lods as int
    }

    pub open spec fn edge(&self) -> int {
        pow2(self.chunk_log2() as nat)
    }

    pub closed spec fn wf(&self) -> bool {
        &&& 1 <= self.chunk_log2 <= 6
        &&& 2 <= self.num_lods <= 6
        &&& forall|i: int| 0 <= i < self.chunks@.len() ==> {
            &&& store_key_ok((#[trigger] self.chunks@[i]).0, self.edge(), self.num_lods as int)
            &&& self.chunks@[i].1@.len() == self.edge() * self.edge() * self.edge()
            &&& self.positions@.contains_key(pack(self.chunks@[i].0) as u128)
            &&& self.positions@[pack(self.chunks@[i].0) as u128] == i
        }
        &&& forall|i: int, j: int| 0 <= i < j < self.chunks@.len() ==> (#[trigger] self.chunks@[i]).0 != (#[trigger] self.chunks@[j]).0
        &&& forall|p: u128| #[trigger] self.positions@.contains_key(p) ==> {
            &&& self.positions@[p] < self.chunks@.len()
            &&& pack(self.chunks@[self.positions@[p] as int].0) == p
        }
    }

    pub proof fn lemma_wf(&self)
        requires
            self.wf(),
        ensures
            1 <= self.chunk_log2() <= 6,
            2 <= self.num_lods() <= 6,
            2 <= self.edge() <= 64,
            forall|k: LodChunkKey| #[trigger] self.view().contains_key(k) ==> store_key_ok(k, self.edge(), self.num_lods())
                && self.view()[k].len() == self.edge() * self.edge() * self.edge(),
    {
        lemma_pow2_monotone(self.chunk_log2 as nat, 6);
        lemma_pow2_monotone(1, self.chunk_log2 as nat);
        reveal_with_fuel(pow2, 7);
        assert forall|k: LodChunkKey| #[trigger] self.view().contains_key(k) implies store_key_ok(k, self.edge(), self.num_lods())
            && self.view()[k].len() == self.edge() * self.edge() * self.edge() by {
            lemma_keys_listed(self.chunks@, k);
            let j = choose|j: int| 0 <= j < self.chunks@.len() && (#[trigger] self.chunks@[j]).0 == k;
            let last = choose|i: int| last_for_key(self.chunks@, i) && self.chunks@[i].0 == k;
            lemma_last_exists(self.chunks@, j);
            lemma_last_entry(self.chunks@, last);
        }
    }

    pub fn chunk_log2_exec(&self) -> (r: u32)
        ensures
            r == self.chunk_log2(),
    {
        self.chunk_log2
    }

    /// An empty store shaped by `config`.
    pub fn new(config: &VoxelMapConfig) -> (r: VoxelStore)
        requires
            config.wf(),
        ensures
            r.wf(),
            r.view() == Map::<LodChunkKey, Seq<Voxel>>::empty(),
            r.chunk_log2() == config.chunk_log2,
            r.num_lods() == config.num_lods,
    {
        VoxelStore { chunk_log2: config.chunk_log2 as u32, num_lods: config.num_lods, chunks: Vec::new(), positions: HashMap::new() }
    }

    /// Position of the entry of `k`, by hash lookup.
    fn find(&self, k: &LodChunkKey) -> (r: Option<usize>)
        requires
            self.wf(),
        ensures
            match r {
                Some(i) => last_for_key(self.chunks@, i as int) && self.chunks@[i as int].0 == *k,
                None => forall|j: int| 0 <= j < self.chunks@.len() ==> (#[trigger] self.chunks@[j]).0 != *k,
            },
    {
        if !packable_exec(k) {
            return None;
        }
        let p = pack_exec(k);
        match self.positions.get(&p) {
            Some(i) => {
                let i = *i;
                proof {
                    lemma_pack_injective(self.chunks@[i as int].0, *k);
                    assert forall|j: int| i < j < self.chunks@.len() implies (#[trigger] self.chunks@[j]).0 != self.chunks@[i as int].0 by {
                        assert(self.chunks@[i as int].0 != self.chunks@[j].0);
                    }
                }
                Some(i)
            },
            None => {
                proof {
                    assert forall|j: int| 0 <= j < self.chunks@.len() implies (#[trigger] self.chunks@[j]).0 != *k by {
                        assert(self.positions@.contains_key(pack(self.chunks@[j].0) as u128));
                    }
                }
                None
            },
        }
    }

    /// The chunk of `k`, if it has been generated.
    pub fn get_chunk(&self, k: &LodChunkKey) -> (r: Option<&Vec<Voxel>>)
        requires
            self.wf(),
        ensures
            match r {
                Some(v) => self.view().contains_key(*k) && v@ == self.view()[*k],
                None => !self.view().contains_key(*k),
            },
    {
        match self.find(k) {
            Some(i) => {
                proof {
                    lemma_last_entry(self.chunks@, i as int);
                }
                Some(&self.chunks[i].1)
            },
            None => {
                proof {
                    lemma_absent(self.chunks@, *k);
                }
                None
            },
        }
    }

    /// Inserts the chunk of `k`, or replaces it whole.
    pub fn write_chunk(&mut self, k: LodChunkKey, data: Vec<Voxel>)
        requires
            old(self).wf(),
            store_key_ok(k, old(self).edge(), old(self).num_lods()),
            data@.len() == old(self).edge() * old(self).edge() * old(self).edge(),
        ensures
            final(self).wf(),
            final(self).view() == old(self).view().insert(k, data@),
            final(self).chunk_log2() == old(self).chunk_log2(),
            final(self).num_lods() == old(self).num_lods(),
    {
        match self.find(&k) {
            Some(i) => {
                proof {
                    lemma_replace_last(self.chunks@, i as int, (k, data));
                }
                self.chunks.set(i, (k, data));
                proof {
                    assert forall|j: int| 0 <= j < self.chunks@.len() implies {
                        &&& store_key_ok((#[trigger] self.chunks@[j]).0, self.edge(), self.num_lods as int)
                        &&& self.chunks@[j].1@.len() == self.edge() * self.edge() * self.edge()
                        &&& self.positions@.contains_key(pack(self.chunks@[j].0) as u128)
                        &&& self.positions@[pack(self.chunks@[j].0) as u128] == j
                    } by {
                        if j != i {
                            assert(self.chunks@[j] == old(self).chunks@[j]);
                        }
                    }
                    assert forall|a: int, b: int| 0 <= a < b < self.chunks@.len() implies
                        (#[trigger] self.chunks@[a]).0 != (#[trigger] self.chunks@[b]).0 by {
                        assert(old(self).chunks@[a].0 != old(self).chunks@[b].0);
                    }
                }
            },
            None => {
                let ghost before = self.chunks@;
                let n = self.chunks.len();
                let p = pack_exec(&k);
                self.chunks.push((k, data));
                assert(self.chunks@.drop_last() =~= before);
                proof {
                    assert forall|j: int| 0 <= j < n implies pack(#[trigger] before[j].0) != pack(k) by {
                        if pack(before[j].0) == pack(k) {
                            lemma_pack_injective(before[j].0, k);
                        }
                    }
                }
                self.positions.insert(p, n);
                proof {
                    assert forall|j: int| 0 <= j < self.chunks@.len() implies {
                        &&& store_key_ok((#[trigger] self.chunks@[j]).0, self.edge(), self.num_lods as int)
                        &&& self.chunks@[j].1@.len() == self.edge() * self.edge() * self.edge()
                        &&& self.positions@.contains_key(pack(self.chunks@[j].0) as u128)
                        &&& self.positions@[pack(self.chunks@[j].0) as u128] == j
                    } by {
                        if j < n {
                            assert(self.chunks@[j] == before[j]);
                            assert(pack(before[j].0) != pack(k));
                        }
                    }
                    assert forall|a: int, b: int| 0 <= a < b < self.chunks@.len() implies
                        (#[trigger] self.chunks@[a]).0 != (#[trigger] self.chunks@[b]).0 by {
                        if b < n {
                            assert(before[a].0 != before[b].0);
                        }
                    }
                    assert forall|q: u128| #[trigger] self.positions@.contains_key(q) implies {
                        &&& self.positions@[q] < self.chunks@.len()
                        &&& pack(self.chunks@[self.positions@[q] as int].0) == q
                    } by {
                        if q != p {
                            assert(old(self).positions@.contains_key(q));
                        }
                    }
                }
            },
        }
    }

    /// The minimum corners of the level-0 chunks.
    pub fn lod0_chunk_mins(&self) -> (r: Vec<Point3i>)
        requires
            self.wf(),
        ensures
            forall|p: Point3i| r@.contains(p) <==> self.view().contains_key(LodChunkKey { lod: 0, minimum: p }),
            forall|j: int| 0 <= j < r@.len() ==> store_key_ok(LodChunkKey { lod: 0, minimum: #[trigger] r@[j] }, self.edge(), self.num_lods()),
    {
        let mut r: Vec<Point3i> = Vec::new();
        let mut i: usize = 0;
        while i < self.chunks.len()
            invariant
                self.wf(),
                0 <= i <= self.chunks@.len(),
                forall|p: Point3i| r@.contains(p) <==> exists|j: int| 0 <= j < i && (#[trigger] self.chunks@[j]).0 == (LodChunkKey { lod: 0, minimum: p }),
                forall|j: int| 0 <= j < r@.len() ==> store_key_ok(LodChunkKey { lod: 0, minimum: #[trigger] r@[j] }, self.edge(), self.num_lods()),
            decreases self.chunks@.len() - i,
        {
            let k = self.chunks[i].0;
            if k.lod == 0 {
                let ghost r0 = r@;
                r.push(k.minimum);
                assert forall|p: Point3i| r@.contains(p) <==> exists|j: int| 0 <= j < i + 1 && (#[trigger] self.chunks@[j]).0 == (LodChunkKey { lod: 0, minimum: p }) by {
                    if p == k.minimum {
                        assert(r@[r@.len() - 1] == p);
                    }
                    if r@.contains(p) && p != k.minimum {
                        let t = choose|t: int| 0 <= t < r@.len() && r@[t] == p;
                        assert(r0[t] == p);
                    }
                    if r0.contains(p) {
                        let t = choose|t: int| 0 <= t < r0.len() && r0[t] == p;
                        assert(r@[t] == p);
                    }
                }
            }
            i = i + 1;
        }
        proof {
            assert forall|p: Point3i| r@.contains(p) <==> self.view().contains_key(LodChunkKey { lod: 0, minimum: p }) by {
                let k = LodChunkKey { lod: 0, minimum: p };
                if self.view().contains_key(k) {
                    lemma_keys_listed(self.chunks@, k);
                } else {
                    if exists|j: int| 0 <= j < self.chunks@.len() && (#[trigger] self.chunks@[j]).0 == k {
                        let j = choose|j: int| 0 <= j < self.chunks@.len() && (#[trigger] self.chunks@[j]).0 == k;
                        lemma_last_exists(self.chunks@, j);
                        let t = choose|t: int| last_for_key(self.chunks@, t) && self.chunks@[t].0 == self.chunks@[j].0;
                        lemma_last_entry(self.chunks@, t);
                    }
                }
            }
        }
        r
    }

    /// Point-samples the coarse chunk `c` from the level below it.
    fn sample_chunk(&self, c: &LodChunkKey) -> (r: Vec<Voxel>)
        requires
            self.wf(),
            1 <= c.lod < self.num_lods(),
            store_key_ok(*c, self.edge(), self.num_lods()),
        ensures
            downsampled_ok(self.view(), *c, self.edge(), r@),
    {
        proof {
            self.lemma_wf();
        }
        let e32 = pow2_i32(self.chunk_log2);
        let e = e32 as usize;
        let c000 = self.find(&fine_key_exec(c, e32, 0, 0, 0));
        let c100 = self.find(&fine_key_exec(c, e32, 1, 0, 0));
        let c010 = self.find(&fine_key_exec(c, e32, 0, 1, 0));
        let c110 = self.find(&fine_key_exec(c, e32, 1, 1, 0));
        let c001 = self.find(&fine_key_exec(c, e32, 0, 0, 1));
        let c101 = self.find(&fine_key_exec(c, e32, 1, 0, 1));
        let c011 = self.find(&fine_key_exec(c, e32, 0, 1, 1));
        let c111 = self.find(&fine_key_exec(c, e32, 1, 1, 1));
        assert(e * e <= 4096 && e * e * e <= 262144) by (nonlinear_arith)
            requires 2 <= e <= 64;
        let n = e * e * e;
        let mut v: Vec<Voxel> = Vec::with_capacity(n);
        let mut i: usize = 0;
        while i < n
            invariant
                self.wf(),
                2 <= e <= 64,
                e == self.edge(),
                e32 == e,
                n == e * e * e,
                e * e <= 4096,
                1 <= c.lod,
                0 <= i <= n,
                v@.len() == i,
                child_ok(self.chunks@, c000, fine_key(*c, e as int, 0, 0, 0)),
                child_ok(self.chunks@, c100, fine_key(*c, e as int, 1, 0, 0)),
                child_ok(self.chunks@, c010, fine_key(*c, e as int, 0, 1, 0)),
                child_ok(self.chunks@, c110, fine_key(*c, e as int, 1, 1, 0)),
                child_ok(self.chunks@, c001, fine_key(*c, e as int, 0, 0, 1)),
                child_ok(self.chunks@, c101, fine_key(*c, e as int, 1, 0, 1)),
                child_ok(self.chunks@, c011, fine_key(*c, e as int, 0, 1, 1)),
                child_ok(self.chunks@, c111, fine_key(*c, e as int, 1, 1, 1)),
                forall|j: int| 0 <= j < i ==> #[trigger] v@[j] == point_sample(self.view(), *c, e as int, j),
            decreases n - i,
        {
            proof {
                crate::terrain::lemma_local_coords(i as int, e as int);
            }
            let x = i % e;
            let y = (i / e) % e;
            let z = i / (e * e);
            let dx = (2 * x) / e;
            let dy = (2 * y) / e;
            let dz = (2 * z) / e;
            proof {
                lemma_half_split(x as int, e as int);
                lemma_half_split(y as int, e as int);
                lemma_half_split(z as int, e as int);
            }
            let lx = 2 * x - dx * e;
            let ly = 2 * y - dy * e;
            let lz = 2 * z - dz * e;
            let opt = if dz == 0 {
                if dy == 0 { if dx == 0 { c000 } else { c100 } } else { if dx == 0 { c010 } else { c110 } }
            } else {
                if dy == 0 { if dx == 0 { c001 } else { c101 } } else { if dx == 0 { c011 } else { c111 } }
            };
            let ghost fk = fine_key(*c, e as int, dx as int, dy as int, dz as int);
            proof {
                assert(child_ok(self.chunks@, opt, fk));
                assert(0 <= e * lz < e * e && 0 <= ly + e * lz < e * e && 0 <= e * (ly + e * lz) < e * e * e
                    && 0 <= lx + e * (ly + e * lz) < e * e * e) by (nonlinear_arith)
                    requires 0 <= lx < e, 0 <= ly < e, 0 <= lz < e, e >= 1;
            }
            let vox = match opt {
                Some(idx) => {
                    proof {
                        lemma_last_entry(self.chunks@, idx as int);
                    }
                    self.chunks[idx].1[lx + e * (ly + e * lz)]
                },
                None => {
                    proof {
                        lemma_absent(self.chunks@, fk);
                    }
                    Voxel(EMPTY)
                },
            };
            v.push(vox);
            i = i + 1;
        }
        v
    }


    /// The smallest box holding every level-0 chunk, or `None` when level 0 is empty.
    pub fn lod0_bounding_extent(&self) -> (r: Option<Extent3i>)
        requires
            self.wf(),
        ensures
            r is None <==> !exists|k: LodChunkKey| #[trigger] self.view().contains_key(k) && k.lod == 0,
            r matches Some(b) ==> {
                &&& forall|k: LodChunkKey| #[trigger] self.view().contains_key(k) && k.lod == 0 ==> {
                    &&& b.minimum.x <= k.minimum.x && k.minimum.x + self.edge() <= b.minimum.x + b.shape.x
                    &&& b.minimum.y <= k.minimum.y && k.minimum.y + self.edge() <= b.minimum.y + b.shape.y
                    &&& b.minimum.z <= k.minimum.z && k.minimum.z + self.edge() <= b.minimum.z + b.shape.z
                }
                &&& exists|k: LodChunkKey| #[trigger] self.view().contains_key(k) && k.lod == 0 && k.minimum.x == b.minimum.x
                &&& exists|k: LodChunkKey| #[trigger] self.view().contains_key(k) && k.lod == 0 && k.minimum.y == b.minimum.y
                &&& exists|k: LodChunkKey| #[trigger] self.view().contains_key(k) && k.lod == 0 && k.minimum.z == b.minimum.z
                &&& exists|k: LodChunkKey| #[trigger] self.view().contains_key(k) && k.lod == 0
                    && k.minimum.x + self.edge() == b.minimum.x + b.shape.x
                &&& exists|k: LodChunkKey| #[trigger] self.view().contains_key(k) && k.lod == 0
                    && k.minimum.y + self.edge() == b.minimum.y + b.shape.y
                &&& exists|k: LodChunkKey| #[trigger] self.view().contains_key(k) && k.lod == 0
                    && k.minimum.z + self.edge() == b.minimum.z + b.shape.z
            },
    {
        proof {
            self.lemma_wf();
        }
        let keys = self.level_keys(0);
        if keys.len() == 0 {
            proof {
                assert forall|k: LodChunkKey| #[trigger] self.view().contains_key(k) && k.lod == 0 implies false by {
                    assert(keys@.contains(k));
                }
            }
            return None;
        }
        let e = pow2_i32(self.chunk_log2);
        let mut lo = keys[0].minimum;
        let mut hi = keys[0].minimum;
        let mut i: usize = 1;
        while i < keys.len()
            invariant
                self.wf(),
                2 <= e <= 64,
                e == self.edge(),
                1 <= i <= keys@.len(),
                forall|j: int| 0 <= j < keys@.len() ==> (#[trigger] keys@[j]).lod == 0 && self.view().contains_key(keys@[j]),
                forall|j: int| 0 <= j < i ==> lo.x <= (#[trigger] keys@[j]).minimum.x <= hi.x
                    && lo.y <= keys@[j].minimum.y <= hi.y && lo.z <= keys@[j].minimum.z <= hi.z,
                exists|j: int| 0 <= j < i && (#[trigger] keys@[j]).minimum.x == lo.x,
                exists|j: int| 0 <= j < i && (#[trigger] keys@[j]).minimum.y == lo.y,
                exists|j: int| 0 <= j < i && (#[trigger] keys@[j]).minimum.z == lo.z,
                exists|j: int| 0 <= j < i && (#[trigger] keys@[j]).minimum.x == hi.x,
                exists|j: int| 0 <= j < i && (#[trigger] keys@[j]).minimum.y == hi.y,
                exists|j: int| 0 <= j < i && (#[trigger] keys@[j]).minimum.z == hi.z,
            decreases keys@.len() - i,
        {
            let m = keys[i].minimum;
            if m.x < lo.x { lo.x = m.x; }
            if m.y < lo.y { lo.y = m.y; }
            if m.z < lo.z { lo.z = m.z; }
            if m.x > hi.x { hi.x = m.x; }
            if m.y > hi.y { hi.y = m.y; }
            if m.z > hi.z { hi.z = m.z; }
            i = i + 1;
        }
        proof {
            let j0 = choose|j: int| 0 <= j < keys@.len() && (#[trigger] keys@[j]).minimum.x == lo.x;
            let j1 = choose|j: int| 0 <= j < keys@.len() && (#[trigger] keys@[j]).minimum.x == hi.x;
            assert(self.view().contains_key(keys@[j0]) && self.view().contains_key(keys@[j1]));
            let j2 = choose|j: int| 0 <= j < keys@.len() && (#[trigger] keys@[j]).minimum.y == lo.y;
            let j3 = choose|j: int| 0 <= j < keys@.len() && (#[trigger] keys@[j]).minimum.y == hi.y;
            assert(self.view().contains_key(keys@[j2]) && self.view().contains_key(keys@[j3]));
            let j4 = choose|j: int| 0 <= j < keys@.len() && (#[trigger] keys@[j]).minimum.z == lo.z;
            let j5 = choose|j: int| 0 <= j < keys@.len() && (#[trigger] keys@[j]).minimum.z == hi.z;
            assert(self.view().contains_key(keys@[j4]) && self.view().contains_key(keys@[j5]));
            assert forall|k: LodChunkKey| #[trigger] self.view().contains_key(k) && k.lod == 0 implies
                lo.x <= k.minimum.x <= hi.x && lo.y <= k.minimum.y <= hi.y && lo.z <= k.minimum.z <= hi.z by {
                assert(keys@.contains(k));
            }
            assert(self.view().contains_key(keys@[0]));
        }
        Some(Extent3i {
            minimum: lo,
            shape: Point3i { x: hi.x - lo.x + e, y: hi.y - lo.y + e, z: hi.z - lo.z + e },
        })
    }

    /// The keys of the chunks of level `lod`.
    fn level_keys(&self, lod: u8) -> (r: Vec<LodChunkKey>)
        requires
            self.wf(),
        ensures
            forall|j: int| 0 <= j < r@.len() ==> (#[trigger] r@[j]).lod == lod && self.view().contains_key(r@[j]),
            forall|k: LodChunkKey| #[trigger] self.view().contains_key(k) && k.lod == lod ==> r@.contains(k),
    {
        let mut r: Vec<LodChunkKey> = Vec::new();
        let mut i: usize = 0;
        while i < self.chunks.len()
            invariant
                0 <= i <= self.chunks@.len(),
                forall|j: int| 0 <= j < r@.len() ==> (#[trigger] r@[j]).lod == lod && self.view().contains_key(r@[j]),
                forall|j: int| 0 <= j < i && (#[trigger] self.chunks@[j]).0.lod == lod ==> r@.contains(self.chunks@[j].0),
            decreases self.chunks@.len() - i,
        {
            let k = self.chunks[i].0;
            if k.lod == lod {
                proof {
                    lemma_last_exists(self.chunks@, i as int);
                    let t = choose|t: int| last_for_key(self.chunks@, t) && self.chunks@[t].0 == self.chunks@[i as int].0;
                    lemma_last_entry(self.chunks@, t);
                }
                let ghost r0 = r@;
                r.push(k);
                proof {
                    assert forall|j: int| 0 <= j < i + 1 && (#[trigger] self.chunks@[j]).0.lod == lod implies r@.contains(self.chunks@[j].0) by {
                        if j < i {
                            let t = choose|t: int| 0 <= t < r0.len() && r0[t] == self.chunks@[j].0;
                            assert(r@[t] == r0[t]);
                        } else {
                            assert(r@[r@.len() - 1] == k);
                        }
                    }
                }
            }
            i = i + 1;
        }
        proof {
            assert forall|k: LodChunkKey| #[trigger] self.view().contains_key(k) && k.lod == lod implies r@.contains(k) by {
                lemma_keys_listed(self.chunks@, k);
            }
        }
        r
    }

    /// Rebuilds level `l` from level `l - 1`: every chunk of level `l - 1`
    /// makes its coarse chunk be point-sampled anew. Other levels stay.
    fn downsample_level(&mut self, l: u8)
        requires
            old(self).wf(),
            1 <= l < old(self).num_lods(),
        ensures
            final(self).wf(),
            final(self).chunk_log2() == old(self).chunk_log2(),
            final(self).num_lods() == old(self).num_lods(),
            agree_except(old(self).view(), final(self).view(), l as int),
            forall|f: LodChunkKey| #[trigger] old(self).view().contains_key(f) && f.lod + 1 == l ==> {
                let c = coarse_key_of(f, old(self).chunk_log2() as nat);
                final(self).view().contains_key(c) && downsampled_ok(final(self).view(), c, old(self).edge(), final(self).view()[c])
            },
            forall|k: LodChunkKey| #[trigger] final(self).view().contains_key(k) && k.lod == l ==> old(self).view().contains_key(k)
                || exists|f: LodChunkKey| old(self).view().contains_key(f) && f.lod + 1 == l && coarse_key_of(f, old(self).chunk_log2() as nat) == k,
    {
        proof {
            self.lemma_wf();
        }
        let ghost v0 = self.view();
        let ghost log2 = self.chunk_log2 as nat;
        let ghost e = self.edge();
        let fines = self.level_keys(l - 1);
        let mut done: HashSet<u128> = HashSet::new();
        let mut j: usize = 0;
        while j < fines.len()
            invariant
                forall|q: u128| #[trigger] done@.contains(q) ==> exists|t: int|
                    0 <= t < j && pack(coarse_key_of(#[trigger] fines@[t], log2)) == q,
                forall|t: int| 0 <= t < j ==> done@.contains(pack(coarse_key_of(#[trigger] fines@[t], log2)) as u128),
                self.wf(),
                self.chunk_log2() == log2,
                e == self.edge(),
                self.num_lods() == old(self).num_lods(),
                1 <= l < self.num_lods(),
                0 <= j <= fines@.len(),
                forall|t: int| 0 <= t < fines@.len() ==> (#[trigger] fines@[t]).lod == l - 1 && v0.contains_key(fines@[t]),
                agree_except(v0, self.view(), l as int),
                forall|t: int| 0 <= t < j ==> {
                    let c = coarse_key_of(#[trigger] fines@[t], log2);
                    self.view().contains_key(c) && downsampled_ok(self.view(), c, e, self.view()[c])
                },
                forall|k: LodChunkKey| #[trigger] self.view().contains_key(k) && k.lod == l ==> v0.contains_key(k)
                    || exists|t: int| 0 <= t < j && coarse_key_of(#[trigger] fines@[t], log2) == k,
            decreases fines@.len() - j,
        {
            proof {
                self.lemma_wf();
                assert(self.view().contains_key(fines@[j as int]));
            }
            let ck = coarse_key_exec(&fines[j], self.chunk_log2);
            let p = pack_exec(&ck);
            if done.contains(&p) {
                proof {
                    let t = choose|t: int| 0 <= t < j && pack(coarse_key_of(#[trigger] fines@[t], log2)) == p;
                    self.lemma_wf();
                    assert(self.view().contains_key(fines@[t]));
                    lemma_pack_injective(coarse_key_of(fines@[t], log2), ck);
                    assert forall|k: LodChunkKey| #[trigger] self.view().contains_key(k) && k.lod == l implies v0.contains_key(k)
                        || exists|t2: int| 0 <= t2 < j + 1 && coarse_key_of(#[trigger] fines@[t2], log2) == k by {
                        if !v0.contains_key(k) {
                            let t2 = choose|t2: int| 0 <= t2 < j && coarse_key_of(#[trigger] fines@[t2], log2) == k;
                        }
                    }
                    assert forall|q: u128| #[trigger] done@.contains(q) implies exists|t2: int|
                        0 <= t2 < j + 1 && pack(coarse_key_of(#[trigger] fines@[t2], log2)) == q by {
                        let t2 = choose|t2: int| 0 <= t2 < j && pack(coarse_key_of(#[trigger] fines@[t2], log2)) == q;
                    }
                }
                j = j + 1;
                continue;
            }
            done.insert(p);
            let data = self.sample_chunk(&ck);
            let ghost before = self.view();
            self.write_chunk(ck, data);
            proof {
                assert forall|q: u128| #[trigger] done@.contains(q) implies exists|t2: int|
                    0 <= t2 < j + 1 && pack(coarse_key_of(#[trigger] fines@[t2], log2)) == q by {
                    if q != p {
                        let t2 = choose|t2: int| 0 <= t2 < j && pack(coarse_key_of(#[trigger] fines@[t2], log2)) == q;
                    } else {
                        assert(pack(coarse_key_of(fines@[j as int], log2)) == q);
                    }
                }
                assert(ck.lod == l);
                assert forall|k: LodChunkKey| k.lod != l implies (#[trigger] self.view().contains_key(k)) == v0.contains_key(k)
                    && (v0.contains_key(k) ==> self.view()[k] == v0[k]) by {
                    assert(k != ck);
                    assert(before.contains_key(k) == v0.contains_key(k));
                }
                assert forall|t: int| 0 <= t < j + 1 implies {
                    let c = coarse_key_of(#[trigger] fines@[t], log2);
                    self.view().contains_key(c) && downsampled_ok(self.view(), c, e, self.view()[c])
                } by {
                    let c = coarse_key_of(fines@[t], log2);
                    lemma_sample_agree(before, self.view(), c, e);
                }
                assert forall|k: LodChunkKey| #[trigger] self.view().contains_key(k) && k.lod == l implies v0.contains_key(k)
                    || exists|t: int| 0 <= t < j + 1 && coarse_key_of(#[trigger] fines@[t], log2) == k by {
                    if k != ck {
                        assert(before.contains_key(k));
                    }
                }
            }
            j = j + 1;
        }
        proof {
            assert forall|f: LodChunkKey| #[trigger] v0.contains_key(f) && f.lod + 1 == l implies {
                let c = coarse_key_of(f, log2);
                self.view().contains_key(c) && downsampled_ok(self.view(), c, e, self.view()[c])
            } by {
                assert(fines@.contains(f));
                let t = choose|t: int| 0 <= t < fines@.len() && fines@[t] == f;
            }
            assert forall|k: LodChunkKey| #[trigger] self.view().contains_key(k) && k.lod == l implies v0.contains_key(k)
                || exists|f: LodChunkKey| v0.contains_key(f) && f.lod + 1 == l && coarse_key_of(f, log2) == k by {
                if !v0.contains_key(k) {
                    let t = choose|t: int| 0 <= t < j && coarse_key_of(#[trigger] fines@[t], log2) == k;
                    assert(v0.contains_key(fines@[t]));
                }
            }
        }
    }

    /// Rebuilds every coarser level from level 0, bottom up: each coarse chunk
    /// over a generated finer chunk is point-sampled from the level below.
    /// Level 0 is left as it is.
    pub fn downsample(&mut self)
        requires
            old(self).wf(),
        ensures
            final(self).wf(),
            final(self).chunk_log2() == old(self).chunk_log2(),
            final(self).num_lods() == old(self).num_lods(),
            forall|k: LodChunkKey| k.lod == 0 ==> (#[trigger] final(self).view().contains_key(k)) == old(self).view().contains_key(k)
                && (old(self).view().contains_key(k) ==> final(self).view()[k] == old(self).view()[k]),
            forall|f: LodChunkKey| #[trigger] final(self).view().contains_key(f) && f.lod + 1 < final(self).num_lods() ==> {
                let c = coarse_key_of(f, final(self).chunk_log2() as nat);
                final(self).view().contains_key(c) && downsampled_ok(final(self).view(), c, final(self).edge(), final(self).view()[c])
            },
            forall|k: LodChunkKey| #[trigger] final(self).view().contains_key(k) && k.lod >= 1 ==> old(self).view().contains_key(k)
                || exists|f: LodChunkKey| final(self).view().contains_key(f) && f.lod + 1 == k.lod
                    && coarse_key_of(f, final(self).chunk_log2() as nat) == k,
    {
        let ghost v0 = self.view();
        let ghost log2 = self.chunk_log2() as nat;
        let ghost e = self.edge();
        let mut l: u8 = 1;
        while l < self.num_lods
            invariant
                self.wf(),
                self.chunk_log2() == log2,
                e == self.edge(),
                self.num_lods() == old(self).num_lods(),
                1 <= l <= self.num_lods(),
                forall|k: LodChunkKey| (k.lod == 0 || k.lod >= l) ==> (#[trigger] self.view().contains_key(k)) == v0.contains_key(k)
                    && (v0.contains_key(k) ==> self.view()[k] == v0[k]),
                forall|f: LodChunkKey| #[trigger] self.view().contains_key(f) && f.lod + 1 < l ==> {
                    let c = coarse_key_of(f, log2);
                    self.view().contains_key(c) && downsampled_ok(self.view(), c, e, self.view()[c])
                },
                forall|k: LodChunkKey| #[trigger] self.view().contains_key(k) && 1 <= k.lod < l ==> v0.contains_key(k)
                    || exists|f: LodChunkKey| self.view().contains_key(f) && f.lod + 1 == k.lod && coarse_key_of(f, log2) == k,
            decreases self.num_lods() - l,
        {
            let ghost before = self.view();
            self.downsample_level(l);
            proof {
                assert forall|f: LodChunkKey| #[trigger] self.view().contains_key(f) && f.lod + 1 < l + 1 implies {
                    let c = coarse_key_of(f, log2);
                    self.view().contains_key(c) && downsampled_ok(self.view(), c, e, self.view()[c])
                } by {
                    let c = coarse_key_of(f, log2);
                    assert(before.contains_key(f));
                    if f.lod + 1 < l {
                        assert(before.contains_key(c) && downsampled_ok(before, c, e, before[c]));
                        assert(self.view().contains_key(c));
                        assert(self.view()[c] == before[c]);
                        lemma_sample_agree(before, self.view(), c, e);
                        assert(downsampled_ok(self.view(), c, e, self.view()[c]));
                    }
                }
                assert forall|k: LodChunkKey| (k.lod == 0 || k.lod >= l + 1) implies (#[trigger] self.view().contains_key(k)) == v0.contains_key(k)
                    && (v0.contains_key(k) ==> self.view()[k] == v0[k]) by {
                    assert(self.view().contains_key(k) == before.contains_key(k));
                }
                assert forall|k: LodChunkKey| #[trigger] self.view().contains_key(k) && 1 <= k.lod < l + 1 implies v0.contains_key(k)
                    || exists|f: LodChunkKey| self.view().contains_key(f) && f.lod + 1 == k.lod && coarse_key_of(f, log2) == k by {
                    if k.lod < l {
                        assert(before.contains_key(k));
                        if !v0.contains_key(k) {
                            let f = choose|f: LodChunkKey| before.contains_key(f) && f.lod + 1 == k.lod && coarse_key_of(f, log2) == k;
                            assert(self.view().contains_key(f));
                        }
                    } else {
                        if !before.contains_key(k) {
                            let f = choose|f: LodChunkKey| before.contains_key(f) && f.lod + 1 == l && coarse_key_of(f, log2) == k;
                            assert(self.view().contains_key(f));
                        }
                    }
                }
            }
            l = l + 1;
        }
    }

}

/// `a` and `b` agree on every key outside level `l`.
pub open spec fn agree_except(a: Map<LodChunkKey, Seq<Voxel>>, b: Map<LodChunkKey, Seq<Voxel>>, l: int) -> bool {
    forall|k: LodChunkKey| k.lod != l ==> (#[trigger] b.contains_key(k)) == a.contains_key(k)
        && (a.contains_key(k) ==> b[k] == a[k])
}

/// A coarse chunk's samples read only the level below it.
proof fn lemma_sample_agree(a: Map<LodChunkKey, Seq<Voxel>>, b: Map<LodChunkKey, Seq<Voxel>>, c: LodChunkKey, e: int)
    requires
        1 <= c.lod,
        forall|k: LodChunkKey| k.lod == c.lod - 1 ==> (#[trigger] b.contains_key(k)) == a.contains_key(k)
            && (a.contains_key(k) ==> b[k] == a[k]),
    ensures
        forall|i: int| #[trigger] point_sample(b, c, e, i) == point_sample(a, c, e, i),
{
}

fn coarse_key_exec(f: &LodChunkKey, chunk_log2: u32) -> (r: LodChunkKey)
    requires
        1 <= chunk_log2 <= 6,
        f.lod < 255,
        store_key_ok(*f, pow2(chunk_log2 as nat), 255),
    ensures
        r == coarse_key_of(*f, chunk_log2 as nat),
        store_key_ok(r, pow2(chunk_log2 as nat), f.lod + 2),
{
    let e = pow2_i32(chunk_log2);
    proof {
        lemma_pow2_monotone(chunk_log2 as nat, 6);
        reveal_with_fuel(pow2, 7);
        lemma_pow2_positive(chunk_log2 as nat);
        lemma_coarse_ok(f.minimum.x as int, chunk_log2 as nat);
        lemma_coarse_ok(f.minimum.y as int, chunk_log2 as nat);
        lemma_coarse_ok(f.minimum.z as int, chunk_log2 as nat);
    }
    let qx = shr_floor(f.minimum.x, chunk_log2 + 1);
    let qy = shr_floor(f.minimum.y, chunk_log2 + 1);
    let qz = shr_floor(f.minimum.z, chunk_log2 + 1);
    LodChunkKey { lod: f.lod + 1, minimum: Point3i { x: qx * e, y: qy * e, z: qz * e } }
}

proof fn lemma_coarse_ok(x: int, chunk_log2: nat)
    requires
        1 <= chunk_log2 <= 6,
        -0x10_0000 <= x <= 0x10_0000,
    ensures
        -0x10_0000 <= coarse_coord(x, chunk_log2) <= 0x10_0000,
        coarse_coord(x, chunk_log2) % pow2(chunk_log2) == 0,
        -0x10_0000 <= floor_shr(x, chunk_log2 + 1) <= 0x10_0000,
{
    lemma_pow2_positive(chunk_log2);
    let e = pow2(chunk_log2);
    assert(pow2(chunk_log2 + 1) == 2 * e);
    let q = x / (2 * e);
    vstd::arithmetic::div_mod::lemma_fundamental_div_mod(x, 2 * e);
    vstd::arithmetic::div_mod::lemma_mod_bound(x, 2 * e);
    assert((2 * e) * q == 2 * (q * e)) by (nonlinear_arith);
    let r = x % (2 * e);
    assert(x == (2 * e) * q + r);
    assert(0 <= r < 2 * e);
    assert(x == 2 * (q * e) + r);
    assert(e <= 64) by {
        lemma_pow2_monotone(chunk_log2, 6);
        reveal_with_fuel(pow2, 7);
    }
    assert(-0x10_0000 <= q * e <= 0x10_0000);
    assert(-0x10_0000 <= q <= 0x10_0000) by (nonlinear_arith)
        requires -0x10_0000 <= q * e <= 0x10_0000, e >= 1;
    vstd::arithmetic::div_mod::lemma_mod_multiples_basic(q, e);
}

pub open spec fn child_ok(s: Seq<(LodChunkKey, Vec<Voxel>)>, opt: Option<usize>, k: LodChunkKey) -> bool {
    match opt {
        Some(i) => last_for_key(s, i as int) && s[i as int].0 == k,
        None => forall|j: int| 0 <= j < s.len() ==> (#[trigger] s[j]).0 != k,
    }
}

fn fine_key_exec(c: &LodChunkKey, e: i32, dx: i32, dy: i32, dz: i32) -> (r: LodChunkKey)
    requires
        1 <= c.lod,
        2 <= e <= 64,
        0 <= dx <= 1,
        0 <= dy <= 1,
        0 <= dz <= 1,
        -0x10_0000 <= c.minimum.x <= 0x10_0000,
        -0x10_0000 <= c.minimum.y <= 0x10_0000,
        -0x10_0000 <= c.minimum.z <= 0x10_0000,
    ensures
        r == fine_key(*c, e as int, dx as int, dy as int, dz as int),
{
    LodChunkKey {
        lod: c.lod - 1,
        minimum: Point3i { x: 2 * c.minimum.x + dx * e, y: 2 * c.minimum.y + dy * e, z: 2 * c.minimum.z + dz * e },
    }
}

/// Doubling a coordinate of a chunk of edge `e` lands in the lower or upper half.
proof fn lemma_half_split(x: int, e: int)
    requires
        0 <= x < e,
        e >= 1,
    ensures
        0 <= (2 * x) / e <= 1,
        0 <= 2 * x - ((2 * x) / e) * e < e,
{
    vstd::arithmetic::div_mod::lemma_fundamental_div_mod(2 * x, e);
    vstd::arithmetic::div_mod::lemma_mod_bound(2 * x, e);
    assert(0 <= (2 * x) / e <= 1) by (nonlinear_arith)
        requires 0 <= x < e, e >= 1;
    assert(e * ((2 * x) / e) == ((2 * x) / e) * e) by (nonlinear_arith);
}

proof fn lemma_last_exists(s: Seq<(LodChunkKey, Vec<Voxel>)>, j: int)
    requires
        0 <= j < s.len(),
    ensures
        exists|i: int| last_for_key(s, i) && s[i].0 == s[j].0,
    decreases s.len() - j,
{
    if !last_for_key(s, j) {
        let j2 = choose|j2: int| j < j2 < s.len() && (#[trigger] s[j2]).0 == s[j].0;
        lemma_last_exists(s, j2);
    }
}

} // verus!
