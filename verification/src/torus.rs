//! The torus of chunks: how chunk positions map to identifiers, and which
//! chunks are adjacent.
//!
//! A grid of `w` columns and `h` rows numbers the chunk at column `x` and row
//! `y` as `x * h + y`. North is toward smaller `y`, west toward smaller `x`;
//! both axes wrap around.
use vstd::prelude::*;
use vstd::arithmetic::div_mod::{
    lemma_fundamental_div_mod, lemma_fundamental_div_mod_converse, lemma_mod_bound,
    lemma_small_mod,
};
use vstd::arithmetic::mul::lemma_mul_is_commutative;

verus! {

/// Identifier of the chunk at column `x`, row `y` of a grid with `h` rows.
pub open spec fn cell(x: int, y: int, h: int) -> int {
    x * h + y
}

/// Column of the chunk `c`.
pub open spec fn column_of(c: int, h: int) -> int {
    c / h
}

/// Row of the chunk `c`.
pub open spec fn row_of(c: int, h: int) -> int {
    c % h
}

/// The chunk above `c`: same column, row `(y - 1 + h) mod h`.
pub open spec fn north_of(c: int, w: int, h: int) -> int {
    cell(column_of(c, h), (row_of(c, h) - 1 + h) % h, h)
}

/// The chunk below `c`: same column, row `(y + 1) mod h`.
pub open spec fn south_of(c: int, w: int, h: int) -> int {
    cell(column_of(c, h), (row_of(c, h) + 1) % h, h)
}

/// The chunk left of `c`: same row, column `(x - 1 + w) mod w`.
pub open spec fn west_of(c: int, w: int, h: int) -> int {
    cell((column_of(c, h) - 1 + w) % w, row_of(c, h), h)
}

/// The chunk right of `c`: same row, column `(x + 1) mod w`.
pub open spec fn east_of(c: int, w: int, h: int) -> int {
    cell((column_of(c, h) + 1) % w, row_of(c, h), h)
}

/// A position inside the grid has an identifier inside the grid, from which
/// the position can be read back.
pub proof fn lemma_cell_of_position(x: int, y: int, w: int, h: int)
    requires
        0 <= x < w,
        0 <= y < h,
    ensures
        0 <= cell(x, y, h) < w * h,
        column_of(cell(x, y, h), h) == x,
        row_of(cell(x, y, h), h) == y,
{
    lemma_fundamental_div_mod_converse(x * h + y, h, x, y);
    assert(x * h + y < w * h) by (nonlinear_arith)
        requires
            0 <= x < w,
            0 <= y < h,
    ;
    assert(0 <= x * h) by (nonlinear_arith)
        requires
            0 <= x,
            0 < h,
    ;
}

/// An identifier inside the grid names a position inside the grid.
pub proof fn lemma_position_of_cell(c: int, w: int, h: int)
    requires
        0 < w,
        0 < h,
        0 <= c < w * h,
    ensures
        0 <= column_of(c, h) < w,
        0 <= row_of(c, h) < h,
        cell(column_of(c, h), row_of(c, h), h) == c,
{
    lemma_fundamental_div_mod(c, h);
    lemma_mod_bound(c, h);
    lemma_mul_is_commutative(h, c / h);
    let x = c / h;
    assert(0 <= x < w) by (nonlinear_arith)
        requires
            0 <= c < w * h,
            0 < h,
            c == x * h + c % h,
            0 <= c % h < h,
    ;
}

/// Stepping forward and back along a ring of `n` places returns to the start.
pub proof fn lemma_ring_step(k: int, n: int)
    requires
        0 <= k < n,
    ensures
        0 <= (k + 1) % n < n,
        0 <= (k - 1 + n) % n < n,
        ((k + 1) % n - 1 + n) % n == k,
        ((k - 1 + n) % n + 1) % n == k,
        (k + 1) % n == (if k + 1 == n { 0 } else { k + 1 }),
        (k - 1 + n) % n == (if k == 0 { n - 1 } else { k - 1 }),
{
    if k + 1 == n {
        lemma_fundamental_div_mod_converse(k + 1, n, 1, 0);
    } else {
        lemma_small_mod((k + 1) as nat, n as nat);
    }
    if k == 0 {
        lemma_small_mod((n - 1) as nat, n as nat);
    } else {
        lemma_fundamental_div_mod_converse(k - 1 + n, n, 1, k - 1);
    }
    let f = (k + 1) % n;
    let b = (k - 1 + n) % n;
    if f == 0 {
        lemma_small_mod((n - 1) as nat, n as nat);
    } else {
        lemma_fundamental_div_mod_converse(f - 1 + n, n, 1, f - 1);
    }
    if b + 1 == n {
        lemma_fundamental_div_mod_converse(b + 1, n, 1, 0);
    } else {
        lemma_small_mod((b + 1) as nat, n as nat);
    }
}

/// The four neighbours of a chunk of the grid are chunks of the grid.
pub proof fn lemma_neighbours_inside(c: int, w: int, h: int)
    requires
        0 < w,
        0 < h,
        0 <= c < w * h,
    ensures
        0 <= north_of(c, w, h) < w * h,
        0 <= south_of(c, w, h) < w * h,
        0 <= west_of(c, w, h) < w * h,
        0 <= east_of(c, w, h) < w * h,
{
    lemma_position_of_cell(c, w, h);
    let x = column_of(c, h);
    let y = row_of(c, h);
    lemma_ring_step(x, w);
    lemma_ring_step(y, h);
    lemma_cell_of_position(x, (y - 1 + h) % h, w, h);
    lemma_cell_of_position(x, (y + 1) % h, w, h);
    lemma_cell_of_position((x - 1 + w) % w, y, w, h);
    lemma_cell_of_position((x + 1) % w, y, w, h);
}

/// On the torus every step is undone by the opposite step: the chunk south
/// of the northern neighbour of `c` is `c`, and likewise for the other three
/// directions.
pub proof fn lemma_torus_closure(c: int, w: int, h: int)
    requires
        0 < w,
        0 < h,
        0 <= c < w * h,
    ensures
        south_of(north_of(c, w, h), w, h) == c,
        north_of(south_of(c, w, h), w, h) == c,
        east_of(west_of(c, w, h), w, h) == c,
        west_of(east_of(c, w, h), w, h) == c,
{
    lemma_position_of_cell(c, w, h);
    let x = column_of(c, h);
    let y = row_of(c, h);
    lemma_ring_step(x, w);
    lemma_ring_step(y, h);
    lemma_cell_of_position(x, (y - 1 + h) % h, w, h);
    lemma_cell_of_position(x, (y + 1) % h, w, h);
    lemma_cell_of_position((x - 1 + w) % w, y, w, h);
    lemma_cell_of_position((x + 1) % w, y, w, h);
}

/// Identifier of the chunk at column `x`, row `y`.
pub fn cell_index(x: usize, y: usize, w: usize, h: usize) -> (c: usize)
    requires
        x < w,
        y < h,
        w * h <= usize::MAX,
    ensures
        c == cell(x as int, y as int, h as int),
        c < w * h,
{
    proof {
        lemma_cell_of_position(x as int, y as int, w as int, h as int);
    }
    x * h + y
}

/// Identifier of the chunk above the one at column `x`, row `y`.
pub fn north_index(x: usize, y: usize, w: usize, h: usize) -> (c: usize)
    requires
        x < w,
        y < h,
        w * h <= usize::MAX,
    ensures
        c == north_of(cell(x as int, y as int, h as int), w as int, h as int),
        c < w * h,
{
    proof {
        lemma_cell_of_position(x as int, y as int, w as int, h as int);
        lemma_ring_step(y as int, h as int);
    }
    let up: usize = if y == 0 { h - 1 } else { y - 1 };
    cell_index(x, up, w, h)
}

/// Identifier of the chunk below the one at column `x`, row `y`.
pub fn south_index(x: usize, y: usize, w: usize, h: usize) -> (c: usize)
    requires
        x < w,
        y < h,
        w * h <= usize::MAX,
    ensures
        c == south_of(cell(x as int, y as int, h as int), w as int, h as int),
        c < w * h,
{
    proof {
        lemma_cell_of_position(x as int, y as int, w as int, h as int);
        lemma_ring_step(y as int, h as int);
    }
    let down: usize = if y + 1 == h { 0 } else { y + 1 };
    cell_index(x, down, w, h)
}

/// Identifier of the chunk left of the one at column `x`, row `y`.
pub fn west_index(x: usize, y: usize, w: usize, h: usize) -> (c: usize)
    requires
        x < w,
        y < h,
        w * h <= usize::MAX,
    ensures
        c == west_of(cell(x as int, y as int, h as int), w as int, h as int),
        c < w * h,
{
    proof {
        lemma_cell_of_position(x as int, y as int, w as int, h as int);
        lemma_ring_step(x as int, w as int);
    }
    let left: usize = if x == 0 { w - 1 } else { x - 1 };
    cell_index(left, y, w, h)
}

/// Identifier of the chunk right of the one at column `x`, row `y`.
pub fn east_index(x: usize, y: usize, w: usize, h: usize) -> (c: usize)
    requires
        x < w,
        y < h,
        w * h <= usize::MAX,
    ensures
        c == east_of(cell(x as int, y as int, h as int), w as int, h as int),
        c < w * h,
{
    proof {
        lemma_cell_of_position(x as int, y as int, w as int, h as int);
        lemma_ring_step(x as int, w as int);
    }
    let right: usize = if x + 1 == w { 0 } else { x + 1 };
    cell_index(right, y, w, h)
}

} // verus!
