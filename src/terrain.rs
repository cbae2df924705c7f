use vstd::prelude::*;
use crate::geom::{floor_shr, in_coord_range, lemma_pow2_positive, lemma_pow2_monotone, pow2, pow2_i32, shr_floor, Point3i};
use crate::voxel::{height_to_material, material_at, terrain_ok, TerrainConfig, Voxel, EMPTY};

verus! {

/// Local coordinates of the `i`-th voxel of a dense cube of edge `e`: x runs
/// fastest, then y, then z.
pub open spec fn local_x(i: int, e: int) -> int {
    i % e
}

pub open spec fn local_y(i: int, e: int) -> int {
    (i / e) % e
}

pub open spec fn local_z(i: int, e: int) -> int {
    i / (e * e)
}

/// The voxel at height `y` of column `(x, z)` of a footprint of edge `e`, given
/// the column heights: solid below the column's height, empty from it up.
pub open spec fn column_voxel(heights: Seq<i32>, e: int, x: int, y: int, z: int, c: TerrainConfig) -> Voxel {
    if y < heights[z * e + x] {
        material_at(y, c)
    } else {
        Voxel(0)
    }
}

pub open spec fn is_min_of(s: Seq<i32>, m: i32) -> bool {
    (exists|i: int| 0 <= i < s.len() && s[i] == m) && (forall|i: int| 0 <= i < s.len() ==> m <= #[trigger] s[i])
}

pub open spec fn is_max_of(s: Seq<i32>, m: i32) -> bool {
    (exists|i: int| 0 <= i < s.len() && s[i] == m) && (forall|i: int| 0 <= i < s.len() ==> #[trigger] s[i] <= m)
}

/// Lowest and highest of a nonempty sequence.
pub open spec fn seq_min(s: Seq<i32>) -> i32
    decreases s.len(),
{
    if s.len() <= 1 {
        s[0]
    } else {
        let m = seq_min(s.drop_last());
        if s.last() < m { s.last() } else { m }
    }
}

pub open spec fn seq_max(s: Seq<i32>) -> i32
    decreases s.len(),
{
    if s.len() <= 1 {
        s[0]
    } else {
        let m = seq_max(s.drop_last());
        if s.last() > m { s.last() } else { m }
    }
}

pub proof fn lemma_seq_min_max(s: Seq<i32>)
    requires
        s.len() >= 1,
    ensures
        is_min_of(s, seq_min(s)),
        is_max_of(s, seq_max(s)),
        seq_min(s) <= seq_max(s),
    decreases s.len(),
{
    if s.len() > 1 {
        lemma_seq_min_max(s.drop_last());
        let t = s.drop_last();
        assert forall|i: int| 0 <= i < s.len() implies seq_min(s) <= #[trigger] s[i] && s[i] <= seq_max(s) by {
            if i < s.len() - 1 {
                assert(s[i] == t[i]);
            }
        }
        if s.last() >= seq_min(t) {
            let w = choose|i: int| 0 <= i < t.len() && t[i] == seq_min(t);
            assert(s[w] == seq_min(s));
        } else {
            assert(s[s.len() - 1] == seq_min(s));
        }
        if s.last() <= seq_max(t) {
            let w = choose|i: int| 0 <= i < t.len() && t[i] == seq_max(t);
            assert(s[w] == seq_max(s));
        } else {
            assert(s[s.len() - 1] == seq_max(s));
        }
    } else {
        assert(s[0] == seq_min(s));
    }
}

pub open spec fn heights_ok(heights: Seq<i32>) -> bool {
    forall|i: int| 0 <= i < heights.len() ==> in_coord_range(#[trigger] heights[i] as int)
}

/// The voxels of the chunk of edge `e` whose minimum corner lies at height
/// `min_y`, over a footprint with the given column heights.
pub open spec fn chunk_voxels_ok(v: Seq<Voxel>, heights: Seq<i32>, e: int, min_y: int, c: TerrainConfig) -> bool {
    &&& v.len() == e * e * e
    &&& forall|i: int|
        0 <= i < e * e * e ==> #[trigger] v[i] == column_voxel(
            heights,
            e,
            local_x(i, e),
            min_y + local_y(i, e),
            local_z(i, e),
            c,
        )
}

pub proof fn lemma_local_coords(i: int, e: int)
    requires
        1 <= e,
        0 <= i < e * e * e,
    ensures
        0 <= local_x(i, e) < e,
        0 <= local_y(i, e) < e,
        0 <= local_z(i, e) < e,
        0 <= local_z(i, e) * e + local_x(i, e) < e * e,
{
    assert(0 <= i % e < e) by (nonlinear_arith)
        requires 1 <= e;
    assert(0 <= (i / e) % e < e) by (nonlinear_arith)
        requires 1 <= e, 0 <= i;
    assert(0 <= i / (e * e) < e) by (nonlinear_arith)
        requires 1 <= e, 0 <= i < e * e * e;
    let z = i / (e * e);
    let x = i % e;
    assert(0 <= z * e + x < e * e) by (nonlinear_arith)
        requires 0 <= z < e, 0 <= x < e;
}

pub proof fn lemma_floor_bounds(x: int, e: int)
    requires
        e >= 1,
    ensures
        (x / e) * e <= x < (x / e) * e + e,
{
    vstd::arithmetic::div_mod::lemma_fundamental_div_mod(x, e);
    vstd::arithmetic::div_mod::lemma_mod_bound(x, e);
    assert(e * (x / e) == (x / e) * e) by (nonlinear_arith);
}

/// Fills one chunk of edge `e` at height `min_y` from the column heights.
pub fn fill_chunk(heights: &Vec<i32>, e: usize, min_y: i32, c: TerrainConfig) -> (r: Vec<Voxel>)
    requires
        1 <= e <= 64,
        heights@.len() == e * e,
        -0x2000_0000 <= min_y <= 0x2000_0000,
        terrain_ok(c),
    ensures
        chunk_voxels_ok(r@, heights@, e as int, min_y as int, c),
{
    assert(e * e <= 4096 && e * e * e <= 262144) by (nonlinear_arith)
        requires 1 <= e <= 64;
    let n = e * e * e;
    let mut v: Vec<Voxel> = Vec::with_capacity(n);
    let mut i: usize = 0;
    while i < n
        invariant
            1 <= e <= 64,
            e * e <= 4096,
            n == e * e * e,
            heights@.len() == e * e,
            -0x2000_0000 <= min_y <= 0x2000_0000,
            terrain_ok(c),
            i <= n,
            v@.len() == i,
            forall|j: int|
                0 <= j < i ==> #[trigger] v@[j] == column_voxel(
                    heights@,
                    e as int,
                    local_x(j, e as int),
                    min_y + local_y(j, e as int),
                    local_z(j, e as int),
                    c,
                ),
        decreases n - i,
    {
        proof {
            lemma_local_coords(i as int, e as int);
        }
        let x = i % e;
        let y = (i / e) % e;
        let z = i / (e * e);
        let y_abs = min_y + y as i32;
        let h = heights[z * e + x];
        let vox = if y_abs < h {
            height_to_material(y_abs, c)
        } else {
            Voxel(EMPTY)
        };
        v.push(vox);
        i = i + 1;
    }
    v
}

/// Lowest and highest column heights.
fn height_bounds(heights: &Vec<i32>) -> (r: (i32, i32))
    requires
        heights@.len() >= 1,
    ensures
        is_min_of(heights@, r.0),
        is_max_of(heights@, r.1),
{
    let mut lo = heights[0];
    let mut hi = heights[0];
    let mut i: usize = 1;
    while i < heights.len()
        invariant
            1 <= i <= heights@.len(),
            exists|j: int| 0 <= j < i && heights@[j] == lo,
            exists|j: int| 0 <= j < i && heights@[j] == hi,
            forall|j: int| 0 <= j < i ==> lo <= #[trigger] heights@[j] <= hi,
        decreases heights@.len() - i,
    {
        if heights[i] < lo {
            lo = heights[i];
        }
        if heights[i] > hi {
            hi = heights[i];
        }
        i = i + 1;
    }
    (lo, hi)
}

/// The vertical range of chunk keys (in chunk units) of a stack: from the chunk
/// holding the lowest column's top voxel to the chunk holding the highest one.
pub open spec fn stack_low(lo: i32, log2: nat) -> int {
    floor_shr(lo - 1, log2)
}

pub open spec fn stack_high(hi: i32, log2: nat) -> int {
    floor_shr(hi - 1, log2)
}

/// `r` is the stack of chunks over the footprint of chunk `key`: one chunk per
/// level from the lowest to the highest column top, each filled from the heights.
pub open spec fn stack_ok(r: Seq<(Point3i, Vec<Voxel>)>, key: Point3i, log2: nat, heights: Seq<i32>, c: TerrainConfig) -> bool {
    let first = stack_low(seq_min(heights), log2);
    let e = pow2(log2);
    &&& r.len() == stack_high(seq_max(heights), log2) - first + 1
    &&& forall|k: int| 0 <= k < r.len() ==> {
        &&& (#[trigger] r[k]).0 == Point3i { x: (key.x * e) as i32, y: ((first + k) * e) as i32, z: (key.z * e) as i32 }
        &&& chunk_voxels_ok(r[k].1@, heights, e, (first + k) * e, c)
    }
}

/// Generation is a function of its inputs: any two stacks generated from the
/// same key, chunk size, heights and terrain settings hold the same voxels.
pub proof fn lemma_stack_deterministic(
    a: Seq<(Point3i, Vec<Voxel>)>,
    b: Seq<(Point3i, Vec<Voxel>)>,
    key: Point3i,
    log2: nat,
    heights: Seq<i32>,
    c: TerrainConfig,
)
    requires
        stack_ok(a, key, log2, heights, c),
        stack_ok(b, key, log2, heights, c),
    ensures
        a.len() == b.len(),
        forall|k: int| 0 <= k < a.len() ==> (#[trigger] a[k]).0 == b[k].0 && a[k].1@ == b[k].1@,
{
    assert forall|k: int| 0 <= k < a.len() implies (#[trigger] a[k]).0 == b[k].0 && a[k].1@ == b[k].1@ by {
        assert(a[k].1@ =~= b[k].1@);
    }
}

/// Generates the vertical stack of chunks above the footprint of chunk `key`
/// (its `y` is ignored), from the heights of its columns, indexed `z * e + x`.
/// Each chunk comes with its minimum corner in voxels.
pub fn generate_chunk_stack(key: Point3i, chunk_log2: u32, heights: &Vec<i32>, c: TerrainConfig) -> (r: Vec<(Point3i, Vec<Voxel>)>)
    requires
        1 <= chunk_log2 <= 6,
        heights@.len() == pow2(chunk_log2 as nat) * pow2(chunk_log2 as nat),
        heights_ok(heights@),
        -0x10_0000 <= key.x <= 0x10_0000,
        -0x10_0000 <= key.z <= 0x10_0000,
        terrain_ok(c),
    ensures
        stack_ok(r@, key, chunk_log2 as nat, heights@, c),
{
    let e32 = pow2_i32(chunk_log2);
    proof {
        lemma_pow2_monotone(chunk_log2 as nat, 6);
        reveal_with_fuel(pow2, 7);
        lemma_pow2_positive(chunk_log2 as nat);
    }
    let e = e32 as usize;
    proof {
        assert(heights@.len() >= 1) by (nonlinear_arith)
            requires heights@.len() == e * e, e >= 1;
    }
    let (lo, hi) = height_bounds(heights);
    proof {
        lemma_seq_min_max(heights@);
        let w1 = choose|i: int| 0 <= i < heights@.len() && heights@[i] == lo;
        let w2 = choose|i: int| 0 <= i < heights@.len() && heights@[i] == seq_min(heights@);
        assert(heights@[w1] >= seq_min(heights@) && heights@[w2] >= lo);
        let w3 = choose|i: int| 0 <= i < heights@.len() && heights@[i] == hi;
        let w4 = choose|i: int| 0 <= i < heights@.len() && heights@[i] == seq_max(heights@);
        assert(heights@[w3] <= seq_max(heights@) && heights@[w4] <= hi);
    }
    let first = shr_floor(lo - 1, chunk_log2);
    let last = shr_floor(hi - 1, chunk_log2);
    proof {
        assert(lo <= hi);
        lemma_floor_bounds(lo - 1, e as int);
        lemma_floor_bounds(hi - 1, e as int);
        assert(first <= last) by (nonlinear_arith)
            requires lo <= hi, first * e <= lo - 1, hi - 1 < last * e + e, e >= 1;
    }
    proof {
        assert(last <= 0x1000_0000) by (nonlinear_arith)
            requires last * e32 <= hi - 1, hi <= 0x1000_0000, e32 >= 1;
    }
    let mut r: Vec<(Point3i, Vec<Voxel>)> = Vec::new();
    let mut yk: i32 = first;
    while yk <= last
        invariant
            first <= yk <= last + 1,
            1 <= e <= 64,
            e32 == e,
            e == pow2(chunk_log2 as nat),
            heights@.len() == e * e,
            terrain_ok(c),
            last <= 0x1000_0000,
            first * e32 > lo - 1 - e32,
            last * e32 <= hi - 1,
            in_coord_range(lo as int),
            in_coord_range(hi as int),
            -0x10_0000 <= key.x <= 0x10_0000,
            -0x10_0000 <= key.z <= 0x10_0000,
            r@.len() == yk - first,
            forall|k: int| 0 <= k < r@.len() ==> {
                &&& (#[trigger] r@[k]).0 == Point3i { x: (key.x * e) as i32, y: ((first + k) * e) as i32, z: (key.z * e) as i32 }
                &&& chunk_voxels_ok(r@[k].1@, heights@, e as int, (first + k) * e, c)
            },
        decreases last + 1 - yk,
    {
        proof {
            assert(first * e32 <= yk * e32 <= last * e32) by (nonlinear_arith)
                requires first <= yk <= last, e32 >= 1;
            assert(-0x400_0000 <= key.x * e32 <= 0x400_0000) by (nonlinear_arith)
                requires -0x10_0000 <= key.x <= 0x10_0000, 1 <= e32 <= 64;
            assert(-0x400_0000 <= key.z * e32 <= 0x400_0000) by (nonlinear_arith)
                requires -0x10_0000 <= key.z <= 0x10_0000, 1 <= e32 <= 64;
        }
        let min = Point3i { x: key.x * e32, y: yk * e32, z: key.z * e32 };
        let v = fill_chunk(heights, e, yk * e32, c);
        r.push((min, v));
        yk = yk + 1;
    }
    r
}

} // verus!
