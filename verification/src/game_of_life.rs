//! The grid model: cell encoding, toroidal addressing, Moore-neighborhood
//! counting, the transition rule, and the serial reference stepper.
//!
//! A grid is a row-major `Vec<u8>` of length `width * height`; a cell is `0`
//! (dead) or `1` (alive). Coordinate arithmetic wraps modulo the grid
//! dimensions, so the grid has no edges.

use vstd::arithmetic::div_mod::{
    lemma_fundamental_div_mod, lemma_fundamental_div_mod_converse, lemma_mod_add_multiples_vanish,
    lemma_mod_bound, lemma_small_mod,
};
use vstd::prelude::*;

verus! {

/// A stored cell value is well formed when it is exactly 0 or 1.
pub open spec fn cell_ok(c: u8) -> bool {
    c == 0 || c == 1
}

/// Every cell of the buffer holds 0 or 1.
pub open spec fn grid_ok(g: Seq<u8>) -> bool {
    forall|i: int| 0 <= i < g.len() ==> cell_ok(#[trigger] g[i])
}

/// Toroidal reduction of a coordinate: the non-negative remainder modulo `m`.
pub open spec fn wrap_spec(v: int, m: int) -> int {
    v % m
}

/// Row-major flattening of 2D coordinates.
pub open spec fn idx_spec(x: int, y: int, w: int) -> int {
    y * w + x
}

/// The cell at toroidal coordinates (x, y); x and y may lie outside the grid
/// and are wrapped before the lookup.
pub open spec fn cell_at(g: Seq<u8>, w: int, h: int, x: int, y: int) -> u8 {
    g[idx_spec(wrap_spec(x, w), wrap_spec(y, h), w)]
}

/// Number of live cells among the 8 Moore neighbors of (x, y), with
/// wrap-around at every edge.
pub open spec fn neighbor_count_spec(g: Seq<u8>, w: int, h: int, x: int, y: int) -> int {
    cell_at(g, w, h, x - 1, y - 1) + cell_at(g, w, h, x, y - 1) + cell_at(g, w, h, x + 1, y - 1)
        + cell_at(g, w, h, x - 1, y) + cell_at(g, w, h, x + 1, y) + cell_at(g, w, h, x - 1, y + 1)
        + cell_at(g, w, h, x, y + 1) + cell_at(g, w, h, x + 1, y + 1)
}

/// The transition rule: a live cell with 2 or 3 live neighbors survives, a
/// dead cell with exactly 3 live neighbors is born, everything else is dead.
pub open spec fn next_cell(c: u8, n: int) -> u8 {
    if (c == 1 && (n == 2 || n == 3)) || (c == 0 && n == 3) {
        1u8
    } else {
        0u8
    }
}

/// The successor state of the cell with flat index i.
pub open spec fn step_cell(g: Seq<u8>, w: int, h: int, i: int) -> u8 {
    next_cell(g[i], neighbor_count_spec(g, w, h, i % w, i / w))
}

/// The whole successor generation of a w x h grid: the one value every
/// stepping strategy must produce.
pub open spec fn successor(g: Seq<u8>, w: int, h: int) -> Seq<u8> {
    Seq::new((w * h) as nat, |i: int| step_cell(g, w, h, i))
}

/// A coordinate pair inside the grid flattens to an index inside the buffer.
pub proof fn lemma_idx_in_bounds(x: int, y: int, w: int, h: int)
    requires
        0 <= x < w,
        0 <= y < h,
    ensures
        0 <= idx_spec(x, y, w) < w * h,
{
    assert(0 <= y * w + x < w * h) by (nonlinear_arith)
        requires
            0 <= x < w,
            0 <= y < h,
    ;
}

/// Splitting a flat index of a w x h grid back into coordinates inverts the
/// row-major flattening.
pub proof fn lemma_idx_split(i: int, w: int, h: int)
    requires
        0 <= i < w * h,
        0 < w,
    ensures
        0 <= i % w < w,
        0 <= i / w < h,
        idx_spec(i % w, i / w, w) == i,
{
    lemma_fundamental_div_mod(i, w);
    lemma_mod_bound(i, w);
    assert(w * (i / w) == i - i % w);
    assert(0 <= i / w < h) by (nonlinear_arith)
        requires
            0 < w,
            0 <= i < w * h,
            w * (i / w) == i - i % w,
            0 <= i % w < w,
    ;
    assert((i / w) * w == w * (i / w)) by (nonlinear_arith);
}

/// Toroidal index reduction; total for every coordinate once `0 < max`.
pub fn wrap(value: isize, max: usize) -> (r: usize)
    requires
        0 < max <= isize::MAX,
    ensures
        r == wrap_spec(value as int, max as int),
        r < max,
{
    proof {
        lemma_mod_bound(value as int, max as int);
    }
    value.checked_rem_euclid(max as isize).unwrap() as usize
}

/// Converts 2D coordinates to the flat row-major index.
pub fn idx(x: usize, y: usize, width: usize) -> (r: usize)
    requires
        y * width + x <= usize::MAX,
    ensures
        r == idx_spec(x as int, y as int, width as int),
{
    y * width + x
}

/// Reads the cell at toroidal coordinates (x, y).
fn cell_lookup(grid: &Vec<u8>, x: isize, y: isize, width: usize, height: usize) -> (c: u8)
    requires
        grid@.len() == width * height,
        0 < width <= isize::MAX,
        0 < height <= isize::MAX,
        grid_ok(grid@),
    ensures
        c == cell_at(grid@, width as int, height as int, x as int, y as int),
        cell_ok(c),
{
    let total = grid.len();
    let wx = wrap(x, width);
    let wy = wrap(y, height);
    proof {
        lemma_idx_in_bounds(wx as int, wy as int, width as int, height as int);
        assert(wy * width + wx < total);
    }
    let i = idx(wx, wy, width);
    grid[i]
}

/// Counts the live cells among the 8 toroidal neighbors of (x, y).
///
/// Requires every queried cell to hold exactly 0 or 1; the count is then at
/// most 8 and the sum cannot overflow.
pub fn neighbor_count(grid: &Vec<u8>, x: usize, y: usize, width: usize, height: usize) -> (n: u8)
    requires
        grid@.len() == width * height,
        x < width,
        y < height,
        width <= isize::MAX,
        height <= isize::MAX,
        grid_ok(grid@),
    ensures
        n == neighbor_count_spec(grid@, width as int, height as int, x as int, y as int),
        n <= 8,
{
    let xi = x as isize;
    let yi = y as isize;
    let mut n: u8 = cell_lookup(grid, xi - 1, yi - 1, width, height);
    n = n + cell_lookup(grid, xi, yi - 1, width, height);
    n = n + cell_lookup(grid, xi + 1, yi - 1, width, height);
    n = n + cell_lookup(grid, xi - 1, yi, width, height);
    n = n + cell_lookup(grid, xi + 1, yi, width, height);
    n = n + cell_lookup(grid, xi - 1, yi + 1, width, height);
    n = n + cell_lookup(grid, xi, yi + 1, width, height);
    n = n + cell_lookup(grid, xi + 1, yi + 1, width, height);
    n
}

/// Applies the transition rule to one cell whose current state is 0 or 1.
pub fn advance_cell(current: u8, neighbor_count: u8) -> (next: u8)
    requires
        cell_ok(current),
    ensures
        next == next_cell(current, neighbor_count as int),
        cell_ok(next),
{
    match (current, neighbor_count) {
        (1, 2) | (1, 3) | (0, 3) => 1,
        _ => 0,
    }
}

/// Serial reference stepper: iterates all cells in row-major order and writes
/// the successor generation into `next_buffer`. Ground truth for every other
/// strategy.
#[verifier::loop_isolation(false)]
pub fn step_serial(curr_buffer: &Vec<u8>, next_buffer: &mut Vec<u8>, width: usize, height: usize)
    requires
        curr_buffer@.len() == width * height,
        old(next_buffer)@.len() == width * height,
        width <= isize::MAX,
        height <= isize::MAX,
        grid_ok(curr_buffer@),
    ensures
        final(next_buffer)@ == successor(curr_buffer@, width as int, height as int),
        grid_ok(final(next_buffer)@),
{
    let ghost g = curr_buffer@;
    let ghost w = width as int;
    let ghost h = height as int;
    let total = curr_buffer.len();
    let mut y: usize = 0;
    while y < height
        invariant
            y <= height,
            next_buffer@.len() == width * height,
            forall|i: int| 0 <= i < y * width ==> next_buffer@[i] == step_cell(g, w, h, i),
        decreases height - y,
    {
        let mut x: usize = 0;
        while x < width
            invariant
                x <= width,
                y < height,
                next_buffer@.len() == width * height,
                forall|i: int| 0 <= i < y * width + x ==> next_buffer@[i] == step_cell(g, w, h, i),
            decreases width - x,
        {
            let n = neighbor_count(curr_buffer, x, y, width, height);
            proof {
                lemma_idx_in_bounds(x as int, y as int, w, h);
                assert(y * width + x < total);
                lemma_fundamental_div_mod_converse(y * width + x, w, y as int, x as int);
            }
            let i = idx(x, y, width);
            next_buffer.set(i, advance_cell(curr_buffer[i], n));
            x = x + 1;
        }
        proof {
            assert((y + 1) * w == y * w + w) by (nonlinear_arith);
        }
        y = y + 1;
    }
    proof {
        assert(h * w == w * h) by (nonlinear_arith);
    }
    assert(next_buffer@ =~= successor(g, w, h));
}

/// Wrapping moves a coordinate that lies at most one grid length outside
/// [0, m) back inside by adding or subtracting m once.
pub proof fn lemma_wrap_near(v: int, m: int)
    requires
        0 < m,
        -m <= v < 2 * m,
    ensures
        wrap_spec(v, m) == if v < 0 {
            v + m
        } else if v >= m {
            v - m
        } else {
            v
        },
{
    if v < 0 {
        lemma_mod_add_multiples_vanish(v, m);
        lemma_small_mod((v + m) as nat, m as nat);
    } else if v >= m {
        lemma_mod_add_multiples_vanish(v - m, m);
        lemma_small_mod((v - m) as nat, m as nat);
    } else {
        lemma_small_mod(v as nat, m as nat);
    }
}

/// Flattening coordinates and splitting the flat index are mutually inverse.
pub proof fn lemma_coords_roundtrip(x: int, y: int, w: int, h: int)
    requires
        0 <= x < w,
        0 <= y < h,
    ensures
        idx_spec(x, y, w) % w == x,
        idx_spec(x, y, w) / w == y,
        0 <= idx_spec(x, y, w) < w * h,
{
    lemma_idx_in_bounds(x, y, w, h);
    lemma_fundamental_div_mod_converse(y * w + x, w, y, x);
}

/// A grid whose only live cell is the one with flat index `live`.
pub open spec fn single_live_cell(w: int, h: int, live: int) -> Seq<u8> {
    Seq::new((w * h) as nat, |i: int| if i == live { 1u8 } else { 0u8 })
}

/// Cross-strategy determinism: two buffers that each hold the successor
/// generation of the same grid are bit-identical, whichever strategies and
/// whichever thread counts or chunk sizes filled them. Every stepper of this
/// crate ensures exactly `successor` of its input, so their outputs agree.
pub proof fn lemma_cross_strategy_determinism(g: Seq<u8>, w: int, h: int, a: Seq<u8>, b: Seq<u8>)
    requires
        a == successor(g, w, h),
        b == successor(g, w, h),
    ensures
        a == b,
{
}

/// Toroidal wrap correctness: on a grid whose only live cell is (0, 0), the
/// opposite corner (w-1, h-1) counts it as a (diagonal) neighbor, and on a
/// grid whose only live cell is (w-1, h-1), cell (0, 0) counts it.
pub proof fn lemma_toroidal_wrap(w: int, h: int)
    requires
        1 <= w,
        1 <= h,
    ensures
        neighbor_count_spec(single_live_cell(w, h, 0), w, h, w - 1, h - 1) >= 1,
        neighbor_count_spec(single_live_cell(w, h, w * h - 1), w, h, 0, 0) >= 1,
{
    let g0 = single_live_cell(w, h, 0);
    let g1 = single_live_cell(w, h, w * h - 1);
    assert(1 <= w * h) by (nonlinear_arith)
        requires
            1 <= w,
            1 <= h,
    ;
    lemma_wrap_near(w, w);
    lemma_wrap_near(h, h);
    assert(idx_spec(0, 0, w) == 0) by (nonlinear_arith);
    assert(cell_at(g0, w, h, (w - 1) + 1, (h - 1) + 1) == 1);
    lemma_wrap_near(-1, w);
    lemma_wrap_near(-1, h);
    assert(idx_spec(w - 1, h - 1, w) == w * h - 1) by (nonlinear_arith);
    assert(cell_at(g1, w, h, 0 - 1, 0 - 1) == 1);
}

/// The looked-up cell of an everywhere-dead grid is dead, wherever the
/// (wrapped) coordinates point.
proof fn lemma_cell_at_zero(g: Seq<u8>, w: int, h: int, x: int, y: int)
    requires
        0 < w,
        0 < h,
        g.len() == w * h,
        forall|i: int| 0 <= i < g.len() ==> g[i] == 0,
    ensures
        cell_at(g, w, h, x, y) == 0,
{
    lemma_mod_bound(x, w);
    lemma_mod_bound(y, h);
    lemma_idx_in_bounds(wrap_spec(x, w), wrap_spec(y, h), w, h);
}

/// No cell of an everywhere-dead grid has a live neighbor.
proof fn lemma_dead_neighbors(g: Seq<u8>, w: int, h: int, x: int, y: int)
    requires
        0 < w,
        0 < h,
        g.len() == w * h,
        forall|i: int| 0 <= i < g.len() ==> g[i] == 0,
    ensures
        neighbor_count_spec(g, w, h, x, y) == 0,
{
    lemma_cell_at_zero(g, w, h, x - 1, y - 1);
    lemma_cell_at_zero(g, w, h, x, y - 1);
    lemma_cell_at_zero(g, w, h, x + 1, y - 1);
    lemma_cell_at_zero(g, w, h, x - 1, y);
    lemma_cell_at_zero(g, w, h, x + 1, y);
    lemma_cell_at_zero(g, w, h, x - 1, y + 1);
    lemma_cell_at_zero(g, w, h, x, y + 1);
    lemma_cell_at_zero(g, w, h, x + 1, y + 1);
}

/// All-dead fixed point: stepping an entirely dead grid of any size yields
/// the same entirely dead grid.
pub proof fn lemma_all_dead_fixed_point(g: Seq<u8>, w: int, h: int)
    requires
        0 <= w,
        0 <= h,
        g.len() == w * h,
        forall|i: int| 0 <= i < g.len() ==> g[i] == 0,
    ensures
        successor(g, w, h) == g,
{
    if w * h == 0 {
        assert(successor(g, w, h) =~= g);
    } else {
        assert(0 < w && 0 < h) by (nonlinear_arith)
            requires
                0 <= w,
                0 <= h,
                0 < w * h,
        ;
        assert forall|i: int| 0 <= i < w * h implies successor(g, w, h)[i] == g[i] by {
            lemma_dead_neighbors(g, w, h, i % w, i / w);
        }
        assert(successor(g, w, h) =~= g);
    }
}

/// A horizontal blinker, centered: exactly the three cells
/// (w/2 - 1, h/2), (w/2, h/2), (w/2 + 1, h/2) are alive.
pub open spec fn blinker_row(w: int, h: int) -> Seq<u8> {
    Seq::new(
        (w * h) as nat,
        |i: int|
            if i / w == h / 2 && w / 2 - 1 <= i % w <= w / 2 + 1 {
                1u8
            } else {
                0u8
            },
    )
}

/// A vertical blinker, centered: exactly the three cells
/// (w/2, h/2 - 1), (w/2, h/2), (w/2, h/2 + 1) are alive.
pub open spec fn blinker_column(w: int, h: int) -> Seq<u8> {
    Seq::new(
        (w * h) as nat,
        |i: int|
            if i % w == w / 2 && h / 2 - 1 <= i / w <= h / 2 + 1 {
                1u8
            } else {
                0u8
            },
    )
}

/// On a grid of at least 5 x 5 the centered blinker sits away from every
/// edge, so a neighbor lookup that steps at most one cell outside the grid
/// never wraps into the pattern: the looked-up horizontal-blinker cell is
/// live exactly when the unwrapped coordinates hit the pattern.
proof fn lemma_blinker_row_at(w: int, h: int, x: int, y: int)
    requires
        5 <= w,
        5 <= h,
        -1 <= x <= w,
        -1 <= y <= h,
    ensures
        cell_at(blinker_row(w, h), w, h, x, y) == if y == h / 2 && w / 2 - 1 <= x <= w / 2 + 1 {
            1u8
        } else {
            0u8
        },
{
    let nx = if x < 0 { x + w } else if x >= w { x - w } else { x };
    let ny = if y < 0 { y + h } else if y >= h { y - h } else { y };
    lemma_wrap_near(x, w);
    lemma_wrap_near(y, h);
    lemma_coords_roundtrip(nx, ny, w, h);
}

/// The vertical-blinker analogue of [`lemma_blinker_row_at`].
proof fn lemma_blinker_column_at(w: int, h: int, x: int, y: int)
    requires
        5 <= w,
        5 <= h,
        -1 <= x <= w,
        -1 <= y <= h,
    ensures
        cell_at(blinker_column(w, h), w, h, x, y) == if x == w / 2 && h / 2 - 1 <= y <= h / 2 + 1 {
            1u8
        } else {
            0u8
        },
{
    let nx = if x < 0 { x + w } else if x >= w { x - w } else { x };
    let ny = if y < 0 { y + h } else if y >= h { y - h } else { y };
    lemma_wrap_near(x, w);
    lemma_wrap_near(y, h);
    lemma_coords_roundtrip(nx, ny, w, h);
}

/// Blinker oscillation: on any grid of at least 5 x 5, the centered
/// horizontal blinker becomes the centered vertical blinker, the vertical one
/// becomes the horizontal one, and the pattern reproduces its original state
/// after exactly 2 generations.
pub proof fn lemma_blinker_oscillates(w: int, h: int)
    requires
        5 <= w,
        5 <= h,
    ensures
        successor(blinker_row(w, h), w, h) == blinker_column(w, h),
        successor(blinker_column(w, h), w, h) == blinker_row(w, h),
        successor(successor(blinker_row(w, h), w, h), w, h) == blinker_row(w, h),
{
    let br = blinker_row(w, h);
    let bc = blinker_column(w, h);
    assert(25 <= w * h) by (nonlinear_arith)
        requires
            5 <= w,
            5 <= h,
    ;
    assert forall|i: int| 0 <= i < w * h implies successor(br, w, h)[i] == bc[i] by {
        lemma_idx_split(i, w, h);
        let x = i % w;
        let y = i / w;
        lemma_blinker_row_at(w, h, x - 1, y - 1);
        lemma_blinker_row_at(w, h, x, y - 1);
        lemma_blinker_row_at(w, h, x + 1, y - 1);
        lemma_blinker_row_at(w, h, x - 1, y);
        lemma_blinker_row_at(w, h, x + 1, y);
        lemma_blinker_row_at(w, h, x - 1, y + 1);
        lemma_blinker_row_at(w, h, x, y + 1);
        lemma_blinker_row_at(w, h, x + 1, y + 1);
    }
    assert(successor(br, w, h) =~= bc);
    assert forall|i: int| 0 <= i < w * h implies successor(bc, w, h)[i] == br[i] by {
        lemma_idx_split(i, w, h);
        let x = i % w;
        let y = i / w;
        lemma_blinker_column_at(w, h, x - 1, y - 1);
        lemma_blinker_column_at(w, h, x, y - 1);
        lemma_blinker_column_at(w, h, x + 1, y - 1);
        lemma_blinker_column_at(w, h, x - 1, y);
        lemma_blinker_column_at(w, h, x + 1, y);
        lemma_blinker_column_at(w, h, x - 1, y + 1);
        lemma_blinker_column_at(w, h, x, y + 1);
        lemma_blinker_column_at(w, h, x + 1, y + 1);
    }
    assert(successor(bc, w, h) =~= br);
}

} // verus!
