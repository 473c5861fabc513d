//! The square stencil of the normal-smoothing convolution. A kernel of
//! radius `R` visits every offset `(dx, dy)` in `[-R, R]²`, `dx` major; a
//! neighbour past the grid's border is replaced by the nearest vertex on
//! it (coordinates are clamped, neither wrapped nor dropped).

use vstd::arithmetic::div_mod::{lemma_fundamental_div_mod, lemma_fundamental_div_mod_converse};
use vstd::prelude::*;

use crate::grid::{vertex_id, GridDims};

verus! {

/// Side `2R + 1` of a kernel of radius `r`.
pub open spec fn kernel_side(r: int) -> int {
    2 * r + 1
}

/// Offset `k` of a kernel of radius `r`: `dx = k / side - r`, `dy = k % side - r`.
pub open spec fn kernel_offset(r: int, k: int) -> (int, int) {
    (k / kernel_side(r) - r, k % kernel_side(r) - r)
}

/// `v` clamped to `[lo, hi]`.
pub open spec fn clamp_spec(v: int, lo: int, hi: int) -> int {
    if v < lo {
        lo
    } else if v > hi {
        hi
    } else {
        v
    }
}

/// The offsets of a square kernel of the given radius, `dx` major and `dy`
/// minor, each running from `-radius` to `radius`.
pub fn kernel_offsets(radius: u16) -> (r: Vec<(i32, i32)>)
    ensures
        r@.len() == kernel_side(radius as int) * kernel_side(radius as int),
        forall|k: int|
            0 <= k < r@.len() ==> (#[trigger] r@[k]).0 as int == kernel_offset(radius as int, k).0
                && r@[k].1 as int == kernel_offset(radius as int, k).1,
{
    let ghost rr = radius as int;
    let side: i32 = 2 * (radius as i32) + 1;
    let mut r: Vec<(i32, i32)> = Vec::new();
    let mut i: i32 = 0;
    while i < side
        invariant
            rr == radius,
            side == kernel_side(rr),
            0 <= i <= side,
            r@.len() == i * side,
            forall|k: int|
                0 <= k < r@.len() ==> (#[trigger] r@[k]).0 as int == kernel_offset(rr, k).0
                    && r@[k].1 as int == kernel_offset(rr, k).1,
        decreases side - i,
    {
        let mut j: i32 = 0;
        while j < side
            invariant
                rr == radius,
                side == kernel_side(rr),
                0 <= i < side,
                0 <= j <= side,
                r@.len() == i * side + j,
                forall|k: int|
                    0 <= k < r@.len() ==> (#[trigger] r@[k]).0 as int == kernel_offset(rr, k).0
                        && r@[k].1 as int == kernel_offset(rr, k).1,
            decreases side - j,
        {
            proof {
                lemma_fundamental_div_mod_converse(i * side + j, side as int, i as int, j as int);
            }
            r.push((i - radius as i32, j - radius as i32));
            j = j + 1;
        }
        assert(r@.len() == (i + 1) * side) by (nonlinear_arith)
            requires
                r@.len() == i * side + side,
        ;
        i = i + 1;
    }
    r
}

/// The kernel is symmetric about its centre: offset `side² - 1 - k` is the
/// negation of offset `k`, so every offset has its opposite in the kernel.
pub proof fn lemma_kernel_symmetric(r: nat, k: int)
    requires
        0 <= k < kernel_side(r as int) * kernel_side(r as int),
    ensures
        ({
            let side = kernel_side(r as int);
            let mirrored = kernel_offset(r as int, side * side - 1 - k);
            mirrored.0 == -kernel_offset(r as int, k).0 && mirrored.1 == -kernel_offset(r as int, k).1
        }),
{
    let side = kernel_side(r as int);
    let q = k / side;
    let m = k % side;
    lemma_fundamental_div_mod(k, side);
    assert(0 <= m < side);
    assert(0 <= q < side) by (nonlinear_arith)
        requires
            0 <= k < side * side,
            k == side * q + m,
            0 <= m < side,
    ;
    assert(side * side - 1 - k == (side - 1 - q) * side + (side - 1 - m)) by (nonlinear_arith)
        requires
            k == side * q + m,
    ;
    lemma_fundamental_div_mod_converse(side * side - 1 - k, side, side - 1 - q, side - 1 - m);
}

/// The vertex that stands in for neighbour `(x + dx, y + dy)` of vertex
/// `(x, y)`: both coordinates clamped to the grid.
pub fn neighbor_index(dims: &GridDims, x: u32, y: u32, dx: i32, dy: i32) -> (r: u32)
    requires
        dims.wf(),
        x <= dims.width,
        y <= dims.height,
    ensures
        r as nat == vertex_id(
            dims.height as nat,
            clamp_spec(x + dx, 0, dims.width as int) as nat,
            clamp_spec(y + dy, 0, dims.height as int) as nat,
        ),
        r < dims.vertex_count_nat(),
{
    let nx = clamp_coord(x as i64 + dx as i64, dims.width);
    let ny = clamp_coord(y as i64 + dy as i64, dims.height);
    dims.vertex_index(nx, ny)
}

/// `v` clamped to `[0, hi]`.
fn clamp_coord(v: i64, hi: u32) -> (r: u32)
    ensures
        r as int == clamp_spec(v as int, 0, hi as int),
{
    if v < 0 {
        0
    } else if v > hi as i64 {
        hi
    } else {
        v as u32
    }
}

} // verus!
