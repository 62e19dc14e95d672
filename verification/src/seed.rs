//! Seed patterns that populate a valid 0/1 grid before the first step.

use crate::game_of_life::{grid_ok, idx, idx_spec, lemma_idx_in_bounds, wrap, wrap_spec};
use vstd::prelude::*;

verus! {

/// The flat index that the pattern point `p`, anchored at (ax, ay), lands on
/// after toroidal wrapping.
pub open spec fn anchored_index(w: int, h: int, ax: int, ay: int, p: (isize, isize)) -> int {
    idx_spec(wrap_spec(ax + p.0, w), wrap_spec(ay + p.1, h), w)
}

/// Whether one of the first `n` points of `pts`, anchored at (ax, ay), lands
/// on the flat index `i`.
pub open spec fn prefix_hits(
    w: int,
    h: int,
    ax: int,
    ay: int,
    pts: Seq<(isize, isize)>,
    n: int,
    i: int,
) -> bool {
    exists|k: int| 0 <= k < n && #[trigger] anchored_index(w, h, ax, ay, pts[k]) == i
}

/// Whether some point of `pts`, anchored at (ax, ay), lands on the flat
/// index `i`.
pub open spec fn pattern_hits(
    w: int,
    h: int,
    ax: int,
    ay: int,
    pts: Seq<(isize, isize)>,
    i: int,
) -> bool {
    prefix_hits(w, h, ax, ay, pts, pts.len() as int, i)
}

/// The five cells of a glider.
pub open spec fn glider_points() -> Seq<(isize, isize)> {
    seq![(1isize, 0isize), (2isize, 1isize), (0isize, 2isize), (1isize, 2isize), (2isize, 2isize)]
}

/// The five cells of an r-pentomino.
pub open spec fn r_pentomino_points() -> Seq<(isize, isize)> {
    seq![(1isize, 0isize), (2isize, 0isize), (0isize, 1isize), (1isize, 1isize), (1isize, 2isize)]
}

/// The 36 cells of a Gosper glider gun.
pub open spec fn gosper_gun_points() -> Seq<(isize, isize)> {
    seq![
        (0isize, 4isize),
        (0isize, 5isize),
        (1isize, 4isize),
        (1isize, 5isize),
        (10isize, 4isize),
        (10isize, 5isize),
        (10isize, 6isize),
        (11isize, 3isize),
        (11isize, 7isize),
        (12isize, 2isize),
        (12isize, 8isize),
        (13isize, 2isize),
        (13isize, 8isize),
        (14isize, 5isize),
        (15isize, 3isize),
        (15isize, 7isize),
        (16isize, 4isize),
        (16isize, 5isize),
        (16isize, 6isize),
        (17isize, 5isize),
        (20isize, 2isize),
        (20isize, 3isize),
        (20isize, 4isize),
        (21isize, 2isize),
        (21isize, 3isize),
        (21isize, 4isize),
        (22isize, 1isize),
        (22isize, 5isize),
        (24isize, 0isize),
        (24isize, 1isize),
        (24isize, 5isize),
        (24isize, 6isize),
        (34isize, 2isize),
        (34isize, 3isize),
        (35isize, 2isize),
        (35isize, 3isize),
    ]
}

/// The glider cells as an executable list.
fn glider_offsets() -> (pts: Vec<(isize, isize)>)
    ensures
        pts@ == glider_points(),
{
    let pts: Vec<(isize, isize)> = vec![(1, 0), (2, 1), (0, 2), (1, 2), (2, 2)];
    proof {
        assert(pts@ =~= glider_points());
    }
    pts
}

/// The r-pentomino cells as an executable list.
fn r_pentomino_offsets() -> (pts: Vec<(isize, isize)>)
    ensures
        pts@ == r_pentomino_points(),
{
    let pts: Vec<(isize, isize)> = vec![(1, 0), (2, 0), (0, 1), (1, 1), (1, 2)];
    proof {
        assert(pts@ =~= r_pentomino_points());
    }
    pts
}

/// The Gosper-gun cells as an executable list.
fn gosper_gun_offsets() -> (pts: Vec<(isize, isize)>)
    ensures
        pts@ == gosper_gun_points(),
{
    let pts: Vec<(isize, isize)> = vec![
        (0, 4),
        (0, 5),
        (1, 4),
        (1, 5),
        (10, 4),
        (10, 5),
        (10, 6),
        (11, 3),
        (11, 7),
        (12, 2),
        (12, 8),
        (13, 2),
        (13, 8),
        (14, 5),
        (15, 3),
        (15, 7),
        (16, 4),
        (16, 5),
        (16, 6),
        (17, 5),
        (20, 2),
        (20, 3),
        (20, 4),
        (21, 2),
        (21, 3),
        (21, 4),
        (22, 1),
        (22, 5),
        (24, 0),
        (24, 1),
        (24, 5),
        (24, 6),
        (34, 2),
        (34, 3),
        (35, 2),
        (35, 3),
    ];
    proof {
        assert(pts@ =~= gosper_gun_points());
    }
    pts
}

/// Overwrites every cell with 0.
#[verifier::loop_isolation(false)]
pub(crate) fn clear_grid(grid: &mut Vec<u8>)
    ensures
        final(grid)@.len() == old(grid)@.len(),
        forall|i: int| 0 <= i < final(grid)@.len() ==> final(grid)@[i] == 0,
{
    let n: usize = grid.len();
    let mut i: usize = 0;
    while i < n
        invariant
            i <= n,
            grid@.len() == n,
            forall|j: int| 0 <= j < i ==> grid@[j] == 0,
        decreases n - i,
    {
        grid.set(i, 0);
        i = i + 1;
    }
}

/// Sets every cell that a point of `pts`, anchored at (ax, ay), lands on to
/// 1 after toroidal wrapping; every other cell keeps its value.
#[verifier::loop_isolation(false)]
fn stamp_pattern(
    grid: &mut Vec<u8>,
    pts: &Vec<(isize, isize)>,
    ax: isize,
    ay: isize,
    width: usize,
    height: usize,
)
    requires
        old(grid)@.len() == width * height,
        1 <= width <= isize::MAX,
        1 <= height <= isize::MAX,
        forall|k: int|
            0 <= k < pts@.len() ==> isize::MIN <= ax + (#[trigger] pts@[k]).0 <= isize::MAX
                && isize::MIN <= ay + pts@[k].1 <= isize::MAX,
    ensures
        final(grid)@.len() == old(grid)@.len(),
        forall|i: int|
            0 <= i < width * height ==> (final(grid)@[i] == 1 <==> old(grid)@[i] == 1
                || pattern_hits(width as int, height as int, ax as int, ay as int, pts@, i)),
        forall|i: int|
            0 <= i < width * height && final(grid)@[i] != 1 ==> final(grid)@[i] == old(grid)@[i],
{
    let ghost w = width as int;
    let ghost h = height as int;
    let total: usize = grid.len();
    let n: usize = pts.len();
    let mut k: usize = 0;
    while k < n
        invariant
            k <= n,
            grid@.len() == total,
            forall|i: int|
                0 <= i < total ==> (grid@[i] == 1 <==> old(grid)@[i] == 1
                    || prefix_hits(w, h, ax as int, ay as int, pts@, k as int, i)),
            forall|i: int| 0 <= i < total && grid@[i] != 1 ==> grid@[i] == old(grid)@[i],
        decreases n - k,
    {
        let p: (isize, isize) = pts[k];
        let x: usize = wrap(ax + p.0, width);
        let y: usize = wrap(ay + p.1, height);
        proof {
            lemma_idx_in_bounds(x as int, y as int, w, h);
        }
        let target: usize = idx(x, y, width);
        grid.set(target, 1);
        proof {
            assert(anchored_index(w, h, ax as int, ay as int, pts@[k as int]) == target);
        }
        k = k + 1;
    }
}

/// Seeds the grid with a glider at the center and an r-pentomino up and to
/// the left of it; every other cell is dead. The stated pattern cells are
/// exactly the live ones.
pub fn seed(grid: &mut Vec<u8>, width: usize, height: usize)
    requires
        old(grid)@.len() == width * height,
        1 <= width <= isize::MAX,
        1 <= height <= isize::MAX,
    ensures
        final(grid)@.len() == width * height,
        grid_ok(final(grid)@),
        forall|i: int|
            0 <= i < width * height ==> (final(grid)@[i] == 1 <==> pattern_hits(
                width as int,
                height as int,
                width as int / 2,
                height as int / 2,
                glider_points(),
                i,
            ) || pattern_hits(
                width as int,
                height as int,
                width as int / 2 - 60,
                height as int / 2 - 20,
                r_pentomino_points(),
                i,
            )),
{
    clear_grid(grid);
    let cx: isize = (width / 2) as isize;
    let cy: isize = (height / 2) as isize;
    let glider = glider_offsets();
    stamp_pattern(grid, &glider, cx, cy, width, height);
    let pentomino = r_pentomino_offsets();
    stamp_pattern(grid, &pentomino, cx - 60, cy - 20, width, height);
}

/// Seeds the grid with a Gosper glider gun anchored a quarter in from the
/// left edge and vertically centered; every other cell is dead. The stated
/// pattern cells are exactly the live ones.
pub fn seed_gosper(grid: &mut Vec<u8>, width: usize, height: usize)
    requires
        old(grid)@.len() == width * height,
        1 <= width <= isize::MAX,
        1 <= height <= isize::MAX,
    ensures
        final(grid)@.len() == width * height,
        grid_ok(final(grid)@),
        forall|i: int|
            0 <= i < width * height ==> (final(grid)@[i] == 1 <==> pattern_hits(
                width as int,
                height as int,
                width as int / 4,
                height as int / 2 - 4,
                gosper_gun_points(),
                i,
            )),
{
    clear_grid(grid);
    let ox: isize = (width / 4) as isize;
    let oy: isize = (height / 2) as isize;
    let gun = gosper_gun_offsets();
    stamp_pattern(grid, &gun, ox, oy - 4, width, height);
}

} // verus!
