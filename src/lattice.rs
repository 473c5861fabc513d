//! Lookup into a toroidal lattice of gradient vectors.
//!
//! A lattice of side `n` is stored flat: the 2D point `(a, b)` at
//! `a * n + b` and the 3D point `(a, b, c)` at `(a * n + b) * n + c`.
//! A sample point whose integer part is `(x, y)` (or `(x, y, z)`) reads the
//! corners of its unit cell; corner `c` lies at offset `(c / 2, c % 2)` in
//! 2D and `(c / 4, c / 2 % 2, c % 2)` in 3D, every coordinate taken modulo
//! `n`, so the lattice repeats with period `n` along each axis.

use vstd::arithmetic::div_mod::{
    lemma_add_mod_noop,
    lemma_fundamental_div_mod_converse,
    lemma_mod_add_multiples_vanish,
    lemma_mod_twice,
    lemma_small_mod,
};
use vstd::prelude::*;

verus! {

/// Flat index of the 2D lattice corner `c` (`0 <= c < 4`) of the cell whose
/// lowest corner is `(x, y)`, on a lattice of side `n`.
pub open spec fn corner_cell_2d(n: int, x: int, y: int, c: int) -> int {
    ((x + c / 2) % n) * n + (y + c % 2) % n
}

/// Flat index of the 3D lattice corner `c` (`0 <= c < 8`) of the cell whose
/// lowest corner is `(x, y, z)`, on a lattice of side `n`.
pub open spec fn corner_cell_3d(n: int, x: int, y: int, z: int, c: int) -> int {
    (((x + c / 4) % n) * n + (y + c / 2 % 2) % n) * n + (z + c % 2) % n
}

/// `i` taken onto a ring of `n` lattice points: its Euclidean remainder
/// modulo `n`, which lies in `[0, n)` also for negative `i`.
pub fn wrap_coord(i: i64, n: u32) -> (r: u32)
    requires
        n > 0,
    ensures
        r as int == i as int % n as int,
        r < n,
{
    let m = i.checked_rem_euclid(n as i64).unwrap();
    m as u32
}

/// The point after `a` on a ring of `n` points.
fn next_on_ring(a: u32, n: u32) -> (r: u32)
    requires
        a < n,
    ensures
        r as int == (a + 1) as int % n as int,
        r < n,
{
    if a + 1 == n {
        proof {
            lemma_fundamental_div_mod_converse(n as int, n as int, 1, 0);
        }
        0
    } else {
        proof {
            lemma_small_mod((a + 1) as nat, n as nat);
        }
        a + 1
    }
}

/// Stepping `d` from the wrapped coordinate equals wrapping the stepped one.
proof fn lemma_wrap_then_step(i: int, d: int, n: int)
    requires
        n > 0,
    ensures
        (i % n + d) % n == (i + d) % n,
{
    lemma_add_mod_noop(i % n, d, n);
    lemma_add_mod_noop(i, d, n);
    lemma_mod_twice(i, n);
}

/// Flat index `a * n + b` of a 2D lattice point.
fn flat_2d(n: u32, a: u32, b: u32) -> (r: usize)
    requires
        a < n,
        b < n,
        n * n <= usize::MAX,
    ensures
        r as int == a * n + b,
        r < n * n,
{
    assert(a * n + b < n * n) by (nonlinear_arith)
        requires
            a < n,
            b < n,
    ;
    (a as usize) * (n as usize) + (b as usize)
}

/// Flat index `(a * n + b) * n + c` of a 3D lattice point.
fn flat_3d(n: u32, a: u32, b: u32, c: u32) -> (r: usize)
    requires
        a < n,
        b < n,
        c < n,
        n * n * n <= usize::MAX,
    ensures
        r as int == (a * n + b) * n + c,
        r < n * n * n,
{
    assert(a * n + b < n * n) by (nonlinear_arith)
        requires
            a < n,
            b < n,
    ;
    assert((a * n + b) * n + c < n * n * n) by (nonlinear_arith)
        requires
            a * n + b < n * n,
            c < n,
    ;
    assert(n * n <= n * n * n) by (nonlinear_arith)
        requires
            n > 0,
    ;
    let ab = (a as usize) * (n as usize) + (b as usize);
    ab * (n as usize) + (c as usize)
}

/// The four lattice corners of the 2D cell whose lowest corner is `(x, y)`,
/// in the order `(x, y), (x, y+1), (x+1, y), (x+1, y+1)`, each wrapped onto
/// the lattice of side `n`.
pub fn cell_corners_2d(n: u32, x: i64, y: i64) -> (r: [usize; 4])
    requires
        n > 0,
        n * n <= usize::MAX,
    ensures
        forall|c: int| 0 <= c < 4 ==> #[trigger] r@[c] as int == corner_cell_2d(n as int, x as int, y as int, c),
        forall|c: int| 0 <= c < 4 ==> (#[trigger] r@[c] as int) < n * n,
{
    let x0 = wrap_coord(x, n);
    let y0 = wrap_coord(y, n);
    let x1 = next_on_ring(x0, n);
    let y1 = next_on_ring(y0, n);
    proof {
        lemma_wrap_then_step(x as int, 0, n as int);
        lemma_wrap_then_step(y as int, 0, n as int);
        lemma_wrap_then_step(x as int, 1, n as int);
        lemma_wrap_then_step(y as int, 1, n as int);
    }
    let r = [flat_2d(n, x0, y0), flat_2d(n, x0, y1), flat_2d(n, x1, y0), flat_2d(n, x1, y1)];
    assert(r@[0] as int == corner_cell_2d(n as int, x as int, y as int, 0));
    assert(r@[1] as int == corner_cell_2d(n as int, x as int, y as int, 1));
    assert(r@[2] as int == corner_cell_2d(n as int, x as int, y as int, 2));
    assert(r@[3] as int == corner_cell_2d(n as int, x as int, y as int, 3));
    r
}

/// The eight lattice corners of the 3D cell whose lowest corner is
/// `(x, y, z)`: corner `c` is offset by `(c / 4, c / 2 % 2, c % 2)`, each
/// coordinate wrapped onto the lattice of side `n`.
pub fn cell_corners_3d(n: u32, x: i64, y: i64, z: i64) -> (r: [usize; 8])
    requires
        n > 0,
        n * n * n <= usize::MAX,
    ensures
        forall|c: int|
            0 <= c < 8 ==> #[trigger] r@[c] as int == corner_cell_3d(
                n as int,
                x as int,
                y as int,
                z as int,
                c,
            ),
        forall|c: int| 0 <= c < 8 ==> (#[trigger] r@[c] as int) < n * n * n,
{
    let x0 = wrap_coord(x, n);
    let y0 = wrap_coord(y, n);
    let z0 = wrap_coord(z, n);
    let x1 = next_on_ring(x0, n);
    let y1 = next_on_ring(y0, n);
    let z1 = next_on_ring(z0, n);
    proof {
        lemma_wrap_then_step(x as int, 0, n as int);
        lemma_wrap_then_step(y as int, 0, n as int);
        lemma_wrap_then_step(z as int, 0, n as int);
        lemma_wrap_then_step(x as int, 1, n as int);
        lemma_wrap_then_step(y as int, 1, n as int);
        lemma_wrap_then_step(z as int, 1, n as int);
    }
    let r = [
        flat_3d(n, x0, y0, z0),
        flat_3d(n, x0, y0, z1),
        flat_3d(n, x0, y1, z0),
        flat_3d(n, x0, y1, z1),
        flat_3d(n, x1, y0, z0),
        flat_3d(n, x1, y0, z1),
        flat_3d(n, x1, y1, z0),
        flat_3d(n, x1, y1, z1),
    ];
    let ghost (ni, xi, yi, zi) = (n as int, x as int, y as int, z as int);
    assert(r@[0] as int == corner_cell_3d(ni, xi, yi, zi, 0));
    assert(r@[1] as int == corner_cell_3d(ni, xi, yi, zi, 1));
    assert(r@[2] as int == corner_cell_3d(ni, xi, yi, zi, 2));
    assert(r@[3] as int == corner_cell_3d(ni, xi, yi, zi, 3));
    assert(r@[4] as int == corner_cell_3d(ni, xi, yi, zi, 4));
    assert(r@[5] as int == corner_cell_3d(ni, xi, yi, zi, 5));
    assert(r@[6] as int == corner_cell_3d(ni, xi, yi, zi, 6));
    assert(r@[7] as int == corner_cell_3d(ni, xi, yi, zi, 7));
    r
}

/// A 2D noise sample reads the same lattice corners at `(x, y)`, at
/// `(x + n, y)` and at `(x, y + n)`: the gradient lattice repeats with
/// period `n` along both axes.
pub proof fn lemma_corners_2d_periodic(n: int, x: int, y: int, c: int)
    requires
        n > 0,
        0 <= c < 4,
    ensures
        corner_cell_2d(n, x + n, y, c) == corner_cell_2d(n, x, y, c),
        corner_cell_2d(n, x, y + n, c) == corner_cell_2d(n, x, y, c),
{
    lemma_mod_add_multiples_vanish(x + c / 2, n);
    lemma_mod_add_multiples_vanish(y + c % 2, n);
    assert(x + n + c / 2 == n + (x + c / 2));
    assert(y + n + c % 2 == n + (y + c % 2));
}

/// A 3D noise sample reads the same lattice corners after a shift by the
/// period `n` along any one axis.
pub proof fn lemma_corners_3d_periodic(n: int, x: int, y: int, z: int, c: int)
    requires
        n > 0,
        0 <= c < 8,
    ensures
        corner_cell_3d(n, x + n, y, z, c) == corner_cell_3d(n, x, y, z, c),
        corner_cell_3d(n, x, y + n, z, c) == corner_cell_3d(n, x, y, z, c),
        corner_cell_3d(n, x, y, z + n, c) == corner_cell_3d(n, x, y, z, c),
{
    lemma_mod_add_multiples_vanish(x + c / 4, n);
    lemma_mod_add_multiples_vanish(y + c / 2 % 2, n);
    lemma_mod_add_multiples_vanish(z + c % 2, n);
    assert(x + n + c / 4 == n + (x + c / 4));
    assert(y + n + c / 2 % 2 == n + (y + c / 2 % 2));
    assert(z + n + c % 2 == n + (z + c % 2));
}

} // verus!
