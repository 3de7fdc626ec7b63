use vstd::prelude::*;

use crate::vec::{v3, Vec3};

verus! {

/// Pixels per image side.
pub const IMAGE_SIZE: u32 = 401;

/// Index of the central row and column.
pub const HALF_SIZE: i64 = 200;

/// Lattice distance between neighbouring pixel centres on the view plane.
pub const PIXEL_PITCH: i64 = 100;

/// Lattice distance between neighbouring sub-samples within a pixel.
pub const SUB_STEP: i64 = 33;

/// Sub-samples per pixel along each axis.
pub const SUBS_PER_AXIS: usize = 3;

/// Depth coordinate (y) of the view plane.
pub const VIEW_DEPTH: i64 = 8000;

/// View-plane x coordinate of the centre of column `col` (left to right).
pub open spec fn column_x(col: int) -> int {
    (col - HALF_SIZE) * PIXEL_PITCH
}

/// View-plane z coordinate of the centre of row `row` (top to bottom).
pub open spec fn row_z(row: int) -> int {
    (HALF_SIZE - row) * PIXEL_PITCH
}

/// Offset of sub-sample `k` (0, 1 or 2) along one axis.
pub open spec fn sub_offset(k: int) -> int {
    (k - 1) * SUB_STEP
}

/// The `i`-th sample point of pixel `(row, col)`: the x offset varies slowest.
pub open spec fn sample_point(row: int, col: int, i: int) -> crate::vec::V3 {
    v3(
        column_x(col) + sub_offset(i / 3),
        VIEW_DEPTH as int,
        row_z(row) + sub_offset(i % 3),
    )
}

/// Lattice coordinates `(x, z)` of the centre of pixel `(row, col)`.
pub fn pixel_center(row: u32, col: u32) -> (r: (i64, i64))
    requires
        row < IMAGE_SIZE,
        col < IMAGE_SIZE,
    ensures
        r.0 == column_x(col as int),
        r.1 == row_z(row as int),
{
    ((col as i64 - HALF_SIZE) * PIXEL_PITCH, (HALF_SIZE - row as i64) * PIXEL_PITCH)
}

/// The view-plane points sampled for pixel `(row, col)`, a 3 x 3 grid around its centre.
pub fn sample_points(row: u32, col: u32) -> (r: Vec<Vec3>)
    requires
        row < IMAGE_SIZE,
        col < IMAGE_SIZE,
    ensures
        r.len() == SUBS_PER_AXIS * SUBS_PER_AXIS,
        forall|i: int| 0 <= i < r.len() ==> (#[trigger] r[i])@ == sample_point(row as int, col as int, i),
{
    let (cx, cz) = pixel_center(row, col);
    let mut out: Vec<Vec3> = Vec::new();
    let mut i: usize = 0;
    while i < SUBS_PER_AXIS
        invariant
            i <= SUBS_PER_AXIS,
            cx == column_x(col as int),
            cz == row_z(row as int),
            out.len() == 3 * i,
            forall|k: int| 0 <= k < out.len() ==> (#[trigger] out[k])@ == sample_point(row as int, col as int, k),
        decreases SUBS_PER_AXIS - i,
    {
        let mut j: usize = 0;
        while j < SUBS_PER_AXIS
            invariant
                i < SUBS_PER_AXIS,
                j <= SUBS_PER_AXIS,
                cx == column_x(col as int),
                cz == row_z(row as int),
                out.len() == 3 * i + j,
                forall|k: int| 0 <= k < out.len() ==> (#[trigger] out[k])@ == sample_point(row as int, col as int, k),
            decreases SUBS_PER_AXIS - j,
        {
            let dx = (i as i64 - 1) * SUB_STEP;
            let dz = (j as i64 - 1) * SUB_STEP;
            let p = Vec3::from(cx + dx, VIEW_DEPTH, cz + dz);
            proof {
                let k = 3 * i + j;
                assert(k / 3 == i && k % 3 == j) by (nonlinear_arith)
                    requires k == 3 * i + j, 0 <= j < 3, i >= 0;
            }
            out.push(p);
            j = j + 1;
        }
        i = i + 1;
    }
    out
}

} // verus!
