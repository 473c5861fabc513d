//! A regular grid of `width` × `height` square cells, laid out as
//! `(width + 1) * (height + 1)` vertices in row-major order, and the
//! triangle index buffer that covers it with two triangles per cell.

use vstd::arithmetic::div_mod::{lemma_fundamental_div_mod, lemma_fundamental_div_mod_converse};
use vstd::prelude::*;

verus! {

/// Number of vertices of a grid with `w` × `h` cells.
pub open spec fn vertex_count_spec(w: nat, h: nat) -> nat {
    (w + 1) * (h + 1)
}

/// Number of triangle indices of a grid with `w` × `h` cells: six per cell.
pub open spec fn index_count_spec(w: nat, h: nat) -> nat {
    w * h * 6
}

/// Position of vertex `(x, y)` in the vertex sequence of a grid `h` cells high.
pub open spec fn vertex_id(h: nat, x: nat, y: nat) -> nat {
    x * (h + 1) + y
}

/// Corner `j` (`0 <= j < 6`) of the two triangles drawn in the cell whose
/// far corner is `(x, y)`: `(x-1, y-1), (x-1, y), (x, y)` and then
/// `(x, y), (x, y-1), (x-1, y-1)`.
pub open spec fn quad_corner(h: nat, x: nat, y: nat, j: nat) -> nat {
    if j == 0 || j == 5 {
        vertex_id(h, (x - 1) as nat, (y - 1) as nat)
    } else if j == 1 {
        vertex_id(h, (x - 1) as nat, y)
    } else if j == 2 || j == 3 {
        vertex_id(h, x, y)
    } else {
        vertex_id(h, x, (y - 1) as nat)
    }
}

/// Entry `k` of the index buffer of a grid `h` cells high. Cell `c` is the
/// one whose far corner is `(c / h + 1, c % h + 1)`, so cells come in the
/// order of that corner, `x` major; each cell gives six consecutive entries.
pub open spec fn index_entry(h: nat, k: nat) -> nat {
    let c = k / 6;
    quad_corner(h, c / h + 1, c % h + 1, k % 6)
}

/// Dimensions of a vertex grid, counted in cells.
#[derive(Clone, Copy, Debug)]
pub struct GridDims {
    pub width: u32,
    pub height: u32,
}

/// Whether a grid of `w` × `h` cells can be indexed by `u32` vertex indices
/// and its index buffer addressed by `usize`.
pub open spec fn dims_fit(w: nat, h: nat) -> bool {
    &&& vertex_count_spec(w, h) <= u32::MAX
    &&& index_count_spec(w, h) <= usize::MAX
}

impl GridDims {
    pub open spec fn wf(&self) -> bool {
        dims_fit(self.width as nat, self.height as nat)
    }

    pub open spec fn vertex_count_nat(&self) -> nat {
        vertex_count_spec(self.width as nat, self.height as nat)
    }

    pub open spec fn index_count_nat(&self) -> nat {
        index_count_spec(self.width as nat, self.height as nat)
    }

    /// The dimensions of a `width` × `height` grid, if its vertices can be
    /// numbered by `u32` and its indices addressed by `usize`.
    pub fn new(width: u32, height: u32) -> (r: Option<GridDims>)
        ensures
            r is Some <==> dims_fit(width as nat, height as nat),
            r matches Some(d) ==> d.width == width && d.height == height,
    {
        let w = width as u64;
        let h = height as u64;
        let vertices: u64 = match (w + 1).checked_mul(h + 1) {
            Some(v) => v,
            None => return None,
        };
        if vertices > u32::MAX as u64 {
            return None;
        }
        assert(w * h <= (w + 1) * (h + 1)) by (nonlinear_arith);
        let indices: u64 = w * h * 6;
        if indices > usize::MAX as u64 {
            return None;
        }
        Some(GridDims { width, height })
    }

    /// Number of vertices, `(width + 1) * (height + 1)`.
    pub fn vertex_count(&self) -> (r: usize)
        requires
            self.wf(),
        ensures
            r as nat == self.vertex_count_nat(),
    {
        ((self.width as u64 + 1) * (self.height as u64 + 1)) as usize
    }

    /// Number of triangle indices, `width * height * 6`.
    pub fn index_count(&self) -> (r: usize)
        requires
            self.wf(),
        ensures
            r as nat == self.index_count_nat(),
    {
        let w = self.width as u64;
        let h = self.height as u64;
        assert(w * h <= (w + 1) * (h + 1)) by (nonlinear_arith);
        (w * h * 6) as usize
    }

    /// Grid coordinates `(x, y)` of the vertex with index `v`.
    pub fn vertex_coords(&self, v: u32) -> (r: (u32, u32))
        requires
            self.wf(),
            v < self.vertex_count_nat(),
        ensures
            r.0 <= self.width,
            r.1 <= self.height,
            vertex_id(self.height as nat, r.0 as nat, r.1 as nat) == v,
    {
        proof {
            lemma_vertex_id_bound(self.width as nat, self.height as nat, 0, self.height as nat);
        }
        let n = self.height + 1;
        let x = v / n;
        let y = v % n;
        proof {
            let w = self.width as nat;
            lemma_fundamental_div_mod(v as int, n as int);
            assert(v == x * n + y) by (nonlinear_arith)
                requires
                    v == n * x + y,
            ;
            assert(x <= w) by (nonlinear_arith)
                requires
                    v < (w + 1) * n,
                    v == x * n + y,
                    y >= 0,
                    n > 0,
            ;
        }
        (x, y)
    }

    /// Index of vertex `(x, y)`: `x * (height + 1) + y`.
    pub fn vertex_index(&self, x: u32, y: u32) -> (r: u32)
        requires
            self.wf(),
            x <= self.width,
            y <= self.height,
        ensures
            r as nat == vertex_id(self.height as nat, x as nat, y as nat),
            r < self.vertex_count_nat(),
    {
        proof {
            lemma_vertex_id_bound(self.width as nat, self.height as nat, x as nat, y as nat);
            lemma_vertex_id_bound(self.width as nat, self.height as nat, 0, self.height as nat);
        }
        x * (self.height + 1) + y
    }
}

impl GridDims {
    /// The triangle index buffer: for every cell, the six vertex indices of
    /// its two triangles, `(x-1, y-1), (x-1, y), (x, y), (x, y), (x, y-1),
    /// (x-1, y-1)` where `(x, y)` is the cell's far corner.
    pub fn triangle_indices(&self) -> (r: Vec<u32>)
        requires
            self.wf(),
        ensures
            r@.len() == self.index_count_nat(),
            forall|k: int|
                0 <= k < r@.len() ==> #[trigger] r@[k] as nat == index_entry(
                    self.height as nat,
                    k as nat,
                ),
            forall|k: int| 0 <= k < r@.len() ==> (#[trigger] r@[k] as nat) < self.vertex_count_nat(),
    {
        let ghost w = self.width as nat;
        let ghost h = self.height as nat;
        let mut r: Vec<u32> = Vec::with_capacity(self.index_count());
        let mut x: u32 = 1;
        proof {
            lemma_vertex_id_bound(w, h, w, 0);
            assert(w <= w * (h + 1)) by (nonlinear_arith);
        }
        while x <= self.width
            invariant
                self.wf(),
                w == self.width,
                h == self.height,
                w < u32::MAX,
                1 <= x <= w + 1,
                r@.len() == 6 * ((x - 1) * h),
                forall|k: int| 0 <= k < r@.len() ==> #[trigger] r@[k] as nat == index_entry(h, k as nat),
            decreases w + 1 - x,
        {
            let mut y: u32 = 1;
            proof {
                lemma_vertex_id_bound(w, h, 0, h);
            }
            while y <= self.height
                invariant
                    self.wf(),
                    w == self.width,
                    h == self.height,
                    h < u32::MAX,
                    1 <= x <= w,
                    1 <= y <= h + 1,
                    r@.len() == 6 * ((x - 1) * h + (y - 1)),
                    forall|k: int|
                        0 <= k < r@.len() ==> #[trigger] r@[k] as nat == index_entry(h, k as nat),
                decreases h + 1 - y,
            {
                let a = self.vertex_index(x - 1, y - 1);
                let b = self.vertex_index(x - 1, y);
                let c = self.vertex_index(x, y);
                let d = self.vertex_index(x, y - 1);
                let ghost start: int = r@.len() as int;
                r.push(a);
                r.push(b);
                r.push(c);
                r.push(c);
                r.push(d);
                r.push(a);
                proof {
                    assert forall|k: int| 0 <= k < r@.len() implies #[trigger] r@[k] as nat
                        == index_entry(h, k as nat) by {
                        if k >= start {
                            lemma_index_entry_cell(h, x as nat, y as nat, (k - start) as nat);
                        }
                    }
                    assert(r@.len() == 6 * ((x - 1) * h + y)) by (nonlinear_arith)
                        requires
                            r@.len() == 6 * ((x - 1) * h + (y - 1)) + 6,
                    ;
                }
                y = y + 1;
            }
            assert(r@.len() == 6 * (x * h)) by (nonlinear_arith)
                requires
                    r@.len() == 6 * ((x - 1) * h + h),
            ;
            x = x + 1;
        }
        assert(r@.len() == w * h * 6) by (nonlinear_arith)
            requires
                r@.len() == 6 * (w * h),
        ;
        proof {
            assert forall|k: int| 0 <= k < r@.len() implies (#[trigger] r@[k] as nat)
                < self.vertex_count_nat() by {
                lemma_index_entry_bound(w, h, k as nat);
            }
        }
        r
    }
}

/// Every vertex of a grid of at least one cell is a corner of some triangle
/// of its index buffer, so no vertex is left without a face to take its
/// normal from.
pub proof fn lemma_every_vertex_in_a_triangle(w: nat, h: nat, x: nat, y: nat)
    requires
        1 <= w,
        1 <= h,
        x <= w,
        y <= h,
    ensures
        exists|k: nat|
            k < index_count_spec(w, h) && #[trigger] index_entry(h, k) == vertex_id(h, x, y),
{
    let cx: nat = if x == 0 {
        1
    } else {
        x
    };
    let cy: nat = if y == 0 {
        1
    } else {
        y
    };
    let j: nat = if x == cx && y == cy {
        2
    } else if x == cx {
        4
    } else if y == cy {
        1
    } else {
        0
    };
    let c = (cx - 1) * h + (cy - 1);
    assert(0 <= c < w * h) by (nonlinear_arith)
        requires
            1 <= cx <= w,
            1 <= cy <= h,
            c == (cx - 1) * h + (cy - 1),
    ;
    let k = (6 * c + j) as nat;
    lemma_index_entry_cell(h, cx, cy, j);
    assert(index_entry(h, k) == vertex_id(h, x, y));
}

/// Entry `j` of cell `(x-1) * h + (y-1)` is corner `j` of the cell whose far
/// corner is `(x, y)`.
proof fn lemma_index_entry_cell(h: nat, x: nat, y: nat, j: nat)
    requires
        1 <= x,
        1 <= y <= h,
        j < 6,
    ensures
        index_entry(h, (6 * ((x - 1) * h + (y - 1)) + j) as nat) == quad_corner(h, x, y, j),
{
    let c = (x - 1) * h + (y - 1);
    assert(c >= 0) by (nonlinear_arith)
        requires
            x >= 1,
            y >= 1,
            c == (x - 1) * h + (y - 1),
    ;
    let k = 6 * c + j;
    lemma_fundamental_div_mod_converse(k, 6, c, j as int);
    lemma_fundamental_div_mod_converse(c, h as int, x - 1, y - 1);
}

/// Every entry of the index buffer of a `w` × `h` grid names a vertex of it.
pub proof fn lemma_index_entry_bound(w: nat, h: nat, k: nat)
    requires
        k < index_count_spec(w, h),
    ensures
        index_entry(h, k) < vertex_count_spec(w, h),
{
    let c = k / 6;
    assert(h > 0) by (nonlinear_arith)
        requires
            k < w * h * 6,
    ;
    assert(c < w * h) by (nonlinear_arith)
        requires
            k < w * h * 6,
            c == k / 6,
    ;
    let x = c / h + 1;
    let y = c % h + 1;
    assert(x <= w) by (nonlinear_arith)
        requires
            c < w * h,
            h > 0,
            x == c / h + 1,
    ;
    assert(y <= h);
    lemma_vertex_id_bound(w, h, x, y);
    lemma_vertex_id_bound(w, h, (x - 1) as nat, y);
    lemma_vertex_id_bound(w, h, x, (y - 1) as nat);
    lemma_vertex_id_bound(w, h, (x - 1) as nat, (y - 1) as nat);
}

/// Every vertex `(x, y)` of the grid has an index below the vertex count.
pub proof fn lemma_vertex_id_bound(w: nat, h: nat, x: nat, y: nat)
    requires
        x <= w,
        y <= h,
    ensures
        vertex_id(h, x, y) < vertex_count_spec(w, h),
{
    assert(x * (h + 1) <= w * (h + 1)) by (nonlinear_arith)
        requires
            x <= w,
    ;
    assert((w + 1) * (h + 1) == w * (h + 1) + h + 1) by (nonlinear_arith);
}

} // verus!
