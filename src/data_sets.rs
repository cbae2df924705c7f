use vstd::prelude::*;
use crate::terrain::{local_x, local_y, local_z};

verus! {

/// Point `i` of the dense cube of edge `edge` centered on the origin (its
/// minimum corner at `-edge / 2` on each axis) lies strictly inside the sphere
/// of radius `r` around the origin.
pub open spec fn in_sphere(i: int, edge: int, r: int) -> bool {
    let h = edge / 2;
    let (x, y, z) = (local_x(i, edge) - h, local_y(i, edge) - h, local_z(i, edge) - h);
    r > 0 && x * x + y * y + z * z < r * r
}

/// A cube of edge `array_edge_length` around the origin holding `inner_value`
/// inside the sphere of radius `array_edge_length / 2 - 1` and `outer_value`
/// elsewhere; the radius comes back with it.
pub fn sphere_bit_array<T: Copy>(array_edge_length: i32, inner_value: T, outer_value: T) -> (r: (Vec<T>, i32))
    requires
        1 <= array_edge_length <= 1024,
    ensures
        r.1 == array_edge_length / 2 - 1,
        r.0@.len() == array_edge_length * array_edge_length * array_edge_length,
        forall|i: int| 0 <= i < r.0@.len() ==> #[trigger] r.0@[i] == if in_sphere(i, array_edge_length as int, r.1 as int) {
            inner_value
        } else {
            outer_value
        },
{
    let edge = array_edge_length as usize;
    let half = array_edge_length / 2;
    let radius = half - 1;
    assert(edge * edge <= 0x10_0000 && edge * edge * edge <= 0x4000_0000) by (nonlinear_arith)
        requires 1 <= edge <= 1024;
    let n = edge * edge * edge;
    let mut v: Vec<T> = Vec::new();
    let mut i: usize = 0;
    while i < n
        invariant
            1 <= edge <= 1024,
            edge == array_edge_length,
            edge * edge <= 0x10_0000,
            n == edge * edge * edge,
            half == array_edge_length / 2,
            radius == half - 1,
            0 <= i <= n,
            v@.len() == i,
            forall|j: int| 0 <= j < i ==> #[trigger] v@[j] == if in_sphere(j, edge as int, radius as int) {
                inner_value
            } else {
                outer_value
            },
        decreases n - i,
    {
        proof {
            crate::terrain::lemma_local_coords(i as int, edge as int);
        }
        let x = (i % edge) as i64 - half as i64;
        let y = ((i / edge) % edge) as i64 - half as i64;
        let z = (i / (edge * edge)) as i64 - half as i64;
        let r = radius as i64;
        proof {
            assert(0 <= x * x <= 0x10_0000 && 0 <= y * y <= 0x10_0000 && 0 <= z * z <= 0x10_0000
                && r * r <= 0x10_0000) by (nonlinear_arith)
                requires -1024 <= x <= 1024, -1024 <= y <= 1024, -1024 <= z <= 1024, -1 <= r <= 1024;
        }
        let inside = r > 0 && x * x + y * y + z * z < r * r;
        v.push(if inside { inner_value } else { outer_value });
        i = i + 1;
    }
    (v, radius)
}

} // verus!
