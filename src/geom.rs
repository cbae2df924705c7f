use vstd::prelude::*;

verus! {

/// Largest magnitude allowed for a coordinate anywhere in the world, in voxels.
pub const COORD_LIMIT: i32 = 0x1000_0000;

/// An integer point of 3D space.
#[derive(Clone, Copy, Debug, PartialEq, Eq, Hash, Structural)]
pub struct Point3i {
    pub x: i32,
    pub y: i32,
    pub z: i32,
}

/// An axis-aligned box: the points `p` with `minimum <= p < minimum + shape` on each axis.
#[derive(Clone, Copy, Debug, PartialEq, Eq, Hash, Structural)]
pub struct Extent3i {
    pub minimum: Point3i,
    pub shape: Point3i,
}

/// A chunk at a level of detail: `minimum` is the chunk's minimum corner in the
/// voxel coordinates of level `lod`.
#[derive(Clone, Copy, Debug, PartialEq, Eq, Hash, Structural)]
pub struct LodChunkKey {
    pub lod: u8,
    pub minimum: Point3i,
}

pub open spec fn pow2(k: nat) -> int
    decreases k,
{
    if k == 0 { 1 } else { 2 * pow2((k - 1) as nat) }
}

/// `x` divided by `2^k`, rounded toward negative infinity.
pub open spec fn floor_shr(x: int, k: nat) -> int {
    x / pow2(k)
}

pub open spec fn in_coord_range(v: int) -> bool {
    -COORD_LIMIT <= v <= COORD_LIMIT
}

pub proof fn lemma_pow2_positive(k: nat)
    ensures
        pow2(k) >= 1,
    decreases k,
{
    if k > 0 {
        lemma_pow2_positive((k - 1) as nat);
    }
}

pub proof fn lemma_pow2_monotone(a: nat, b: nat)
    requires
        a <= b,
    ensures
        pow2(a) <= pow2(b),
    decreases b,
{
    if a < b {
        lemma_pow2_monotone(a, (b - 1) as nat);
        lemma_pow2_positive((b - 1) as nat);
    }
}

pub proof fn lemma_pow2_small(k: nat)
    requires
        k <= 16,
    ensures
        pow2(k) <= 65536,
{
    lemma_pow2_monotone(k, 16);
    reveal_with_fuel(pow2, 17);
    assert(pow2(16) == 65536);
}

/// `2^k` for small `k`.
pub fn pow2_i32(k: u32) -> (r: i32)
    requires
        k <= 16,
    ensures
        r as int == pow2(k as nat),
{
    let mut r: i32 = 1;
    let mut i: u32 = 0;
    while i < k
        invariant
            i <= k <= 16,
            r as int == pow2(i as nat),
        decreases k - i,
    {
        proof {
            lemma_pow2_small((i + 1) as nat);
            assert(pow2((i + 1) as nat) == 2 * pow2(i as nat));
            lemma_pow2_positive(i as nat);
        }
        r = r * 2;
        i = i + 1;
    }
    r
}

/// `x` divided by `2^k`, rounded toward negative infinity (an arithmetic shift right).
pub fn shr_floor(x: i32, k: u32) -> (r: i32)
    requires
        k <= 16,
    ensures
        r as int == floor_shr(x as int, k as nat),
{
    let d = pow2_i32(k);
    proof {
        lemma_pow2_positive(k as nat);
    }
    let xl = x as i64;
    let dl = d as i64;
    let q: i64 = if xl >= 0 {
        xl / dl
    } else {
        -((-xl - 1) / dl) - 1
    };
    proof {
        let xi = x as int;
        let di = d as int;
        if xi < 0 {
            let a = -xi - 1;
            let qa = a / di;
            assert(a == qa * di + a % di) by (nonlinear_arith)
                requires di > 0, qa == a / di;
            assert(0 <= a % di < di) by (nonlinear_arith)
                requires di > 0;
            let cand = -qa - 1;
            assert(xi == cand * di + (di - 1 - a % di)) by (nonlinear_arith)
                requires a == -xi - 1, a == qa * di + a % di, cand == -qa - 1;
            vstd::arithmetic::div_mod::lemma_fundamental_div_mod_converse(
                xi, di, cand, di - 1 - a % di);
        }
    }
    q as i32
}

} // verus!
