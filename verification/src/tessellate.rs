//! Greedy meshing of one 2D slice of a voxel grid.
//!
//! The tessellator scans a slice row-major for an "anchor": a non-air cell
//! not yet covered by an emitted rectangle. From the anchor it grows a
//! rectangle one unit at a time along both axes, freezing an axis when it
//! hits the slice boundary, a cell of a different block ID, or a cell some
//! earlier rectangle already covers. The result is a list of axis-aligned,
//! same-ID, pairwise disjoint rectangles that together cover every non-air
//! cell of the slice exactly once.

use vstd::prelude::*;
use crate::block::{BlockID, BlockProto, BlockProtoSet};
use crate::geometry::{Facing, MeshVertex, spec_facing_index};

verus! {

/// A half-open rectangle `[x1, x2) x [y1, y2)` of cells that all hold the
/// block ID `id`, in slice-local coordinates.
#[derive(Clone, Copy, Debug, PartialEq, Eq, Structural)]
pub struct Square {
    pub x1: usize,
    pub y1: usize,
    pub x2: usize,
    pub y2: usize,
    pub id: BlockID,
}

/// The block ID of cell `(x, y)` of a slice stored row-by-row in `x` with
/// `ny` cells per row.
pub open spec fn cell(grid: Seq<BlockID>, ny: int, x: int, y: int) -> BlockID {
    grid[x * ny + y]
}

/// Whether cell `(x, y)` lies inside the rectangle `sq`.
pub open spec fn in_square(sq: Square, x: int, y: int) -> bool {
    sq.x1 <= x < sq.x2 && sq.y1 <= y < sq.y2
}

/// Whether some rectangle of `sqs` contains the cell `(x, y)`.
pub open spec fn covered(sqs: Seq<Square>, x: int, y: int) -> bool {
    exists|i: int| 0 <= i < sqs.len() && #[trigger] in_square(sqs[i], x, y)
}

/// A rectangle is well formed for a slice when it is non-empty, lies inside
/// the slice, names a non-air ID, and every cell under it holds that ID.
pub open spec fn square_wf(grid: Seq<BlockID>, nx: int, ny: int, sq: Square) -> bool {
    &&& 0 <= sq.x1 < sq.x2 <= nx
    &&& 0 <= sq.y1 < sq.y2 <= ny
    &&& sq.id != 0
    &&& forall|x: int, y: int| #[trigger] in_square(sq, x, y) ==> cell(grid, ny, x, y) == sq.id
}

/// No cell lies in both rectangles.
pub open spec fn squares_disjoint(a: Square, b: Square) -> bool {
    forall|x: int, y: int| #[trigger] in_square(a, x, y) ==> !in_square(b, x, y)
}

/// Every rectangle of the list is well formed and no two overlap.
pub open spec fn squares_wf(grid: Seq<BlockID>, nx: int, ny: int, sqs: Seq<Square>) -> bool {
    &&& forall|i: int| 0 <= i < sqs.len() ==> square_wf(grid, nx, ny, #[trigger] sqs[i])
    &&& forall|i: int, j: int|
        0 <= i < j < sqs.len() ==> squares_disjoint(#[trigger] sqs[i], #[trigger] sqs[j])
}

/// Every non-air cell of the slice is covered by some rectangle.
pub open spec fn covers_all_solid(grid: Seq<BlockID>, nx: int, ny: int, sqs: Seq<Square>) -> bool {
    forall|x: int, y: int|
        0 <= x < nx && 0 <= y < ny && #[trigger] cell(grid, ny, x, y) != 0
            ==> covered(sqs, x, y)
}

proof fn lemma_cell_index(nx: int, ny: int, x: int, y: int)
    requires
        0 <= x < nx,
        0 <= y < ny,
    ensures
        0 <= x * ny + y < nx * ny,
        0 <= y * nx + x < nx * ny,
{
    assert(x * ny + y < nx * ny && y * nx + x < nx * ny) by (nonlinear_arith)
        requires 0 <= x < nx && 0 <= y < ny;
}

/// Appending a rectangle covers exactly the cells it or the old list covered.
proof fn lemma_covered_push(sqs: Seq<Square>, s: Square, x: int, y: int)
    ensures
        covered(sqs.push(s), x, y) <==> (covered(sqs, x, y) || in_square(s, x, y)),
{
    if covered(sqs, x, y) {
        let i = choose|i: int| 0 <= i < sqs.len() && #[trigger] in_square(sqs[i], x, y);
        assert(sqs.push(s)[i] == sqs[i]);
        assert(in_square(sqs.push(s)[i], x, y));
    }
    if in_square(s, x, y) {
        assert(sqs.push(s)[sqs.len() as int] == s);
        assert(in_square(sqs.push(s)[sqs.len() as int], x, y));
    }
    if covered(sqs.push(s), x, y) {
        let i = choose|i: int| 0 <= i < sqs.push(s).len() && #[trigger] in_square(sqs.push(s)[i], x, y);
        if i < sqs.len() {
            assert(in_square(sqs[i], x, y));
        } else {
            assert(sqs.push(s)[i] == s);
        }
    }
}


/// Spec twin of the runtime column check: growth into column `x` over rows
/// `ylo..=yhi` is blocked by a covered cell or a different block ID.
#[verifier::opaque]
pub open spec fn spec_col_blocked(
    grid: Seq<BlockID>,
    ny: int,
    sqs: Seq<Square>,
    x: int,
    ylo: int,
    yhi: int,
    id: BlockID,
) -> bool {
    exists|y: int|
        ylo <= y && y <= yhi && (covered(sqs, x, y) || #[trigger] cell(grid, ny, x, y) != id)
}

/// Spec twin of the runtime row check.
#[verifier::opaque]
pub open spec fn spec_row_blocked(
    grid: Seq<BlockID>,
    ny: int,
    sqs: Seq<Square>,
    y: int,
    xlo: int,
    xhi: int,
    id: BlockID,
) -> bool {
    exists|x: int|
        xlo <= x && x <= xhi && (covered(sqs, x, y) || #[trigger] cell(grid, ny, x, y) != id)
}

/// The far corner the alternating growth ends at, as a function of the
/// slice, the rectangles already emitted, and the growth state: each pass
/// advances the open axes by one cell or freezes them, exactly as the
/// runtime loop does.
#[verifier::opaque]
pub open spec fn grow_from(
    grid: Seq<BlockID>,
    nx: int,
    ny: int,
    sqs: Seq<Square>,
    id: BlockID,
    x1: int,
    y1: int,
    x2: int,
    y2: int,
    hx: bool,
    hy: bool,
) -> (int, int)
    decreases (nx - x2) + (ny - y2) + (if hx { 0int } else { 1int }) + (if hy { 0int } else { 1int })
        when 0 <= x2 < nx && 0 <= y2 < ny
{
    if hx && hy {
        (x2, y2)
    } else {
        let x_frozen = hx || x2 + 1 == nx || spec_col_blocked(grid, ny, sqs, x2 + 1, y1, y2, id);
        let x2a = if x_frozen { x2 } else { x2 + 1 };
        let y_frozen = hy || y2 + 1 == ny || spec_row_blocked(grid, ny, sqs, y2 + 1, x1, x2a, id);
        let y2a = if y_frozen { y2 } else { y2 + 1 };
        grow_from(grid, nx, ny, sqs, id, x1, y1, x2a, y2a, x_frozen, y_frozen)
    }
}

/// The cell `(ax, ay)` is the next anchor for `sqs`: non-air, uncovered,
/// and first in scan order (rows first, then columns) among such cells.
pub open spec fn is_anchor(
    grid: Seq<BlockID>,
    nx: int,
    ny: int,
    sqs: Seq<Square>,
    ax: int,
    ay: int,
) -> bool {
    &&& 0 <= ax < nx
    &&& 0 <= ay < ny
    &&& cell(grid, ny, ax, ay) != 0
    &&& !covered(sqs, ax, ay)
    &&& forall|x: int, y: int|
        0 <= x < nx && 0 <= y < ny && (y < ay || (y == ay && x < ax))
            && #[trigger] cell(grid, ny, x, y) != 0 ==> covered(sqs, x, y)
}

/// One rectangle is exactly what the greedy pass emits after `prefix`: it
/// sits on the next anchor, carries the anchor's block ID, and spans the
/// grown corner.
#[verifier::opaque]
pub open spec fn greedy_step_ok(
    grid: Seq<BlockID>,
    nx: int,
    ny: int,
    prefix: Seq<Square>,
    sq: Square,
) -> bool {
    &&& is_anchor(grid, nx, ny, prefix, sq.x1 as int, sq.y1 as int)
    &&& sq.id == cell(grid, ny, sq.x1 as int, sq.y1 as int)
    &&& {
        let corner = grow_from(grid, nx, ny, prefix, sq.id, sq.x1 as int, sq.y1 as int,
            sq.x1 as int, sq.y1 as int, false, false);
        sq.x2 == corner.0 + 1 && sq.y2 == corner.1 + 1
    }
}

/// The whole list is the greedy tessellation: each rectangle is the greedy
/// step after the ones before it. Together with `covers_all_solid` (no
/// anchor remains at the end) this pins the list completely.
pub open spec fn greedy_matches(grid: Seq<BlockID>, nx: int, ny: int, sqs: Seq<Square>) -> bool {
    forall|i: int|
        0 <= i < sqs.len() ==> greedy_step_ok(grid, nx, ny, sqs.take(i), #[trigger] sqs[i])
}

/// At most one cell can be the next anchor.
proof fn lemma_anchor_unique(
    grid: Seq<BlockID>,
    nx: int,
    ny: int,
    sqs: Seq<Square>,
    ax: int,
    ay: int,
    bx: int,
    by: int,
)
    requires
        is_anchor(grid, nx, ny, sqs, ax, ay),
        is_anchor(grid, nx, ny, sqs, bx, by),
    ensures
        ax == bx && ay == by,
{
    if ay < by || (ay == by && ax < bx) {
        assert(cell(grid, ny, ax, ay) != 0);
        assert(covered(sqs, ax, ay));
    } else if by < ay || (by == ay && bx < ax) {
        assert(cell(grid, ny, bx, by) != 0);
        assert(covered(sqs, bx, by));
    }
}

proof fn lemma_greedy_prefixes_eq(
    grid: Seq<BlockID>,
    nx: int,
    ny: int,
    s1: Seq<Square>,
    s2: Seq<Square>,
    i: int,
)
    requires
        greedy_matches(grid, nx, ny, s1),
        greedy_matches(grid, nx, ny, s2),
        0 <= i <= s1.len(),
        i <= s2.len(),
    ensures
        s1.take(i) =~= s2.take(i),
    decreases i,
{
    if i > 0 {
        reveal(greedy_step_ok);
        lemma_greedy_prefixes_eq(grid, nx, ny, s1, s2, i - 1);
        assert(greedy_step_ok(grid, nx, ny, s1.take(i - 1), s1[i - 1]));
        assert(greedy_step_ok(grid, nx, ny, s2.take(i - 1), s2[i - 1]));
        let a = s1[i - 1];
        let b = s2[i - 1];
        assert(is_anchor(grid, nx, ny, s2.take(i - 1), a.x1 as int, a.y1 as int));
        lemma_anchor_unique(grid, nx, ny, s2.take(i - 1), a.x1 as int, a.y1 as int,
            b.x1 as int, b.y1 as int);
        assert(a == b);
        assert(s1.take(i) =~= s1.take(i - 1).push(a));
        assert(s2.take(i) =~= s2.take(i - 1).push(b));
    }
}

/// Idempotence / determinism of the greedy tessellation: any two rectangle
/// lists that both follow the greedy anchor-and-growth discipline and both
/// leave no solid cell uncovered are identical, rectangle for rectangle —
/// so tessellating the same slice twice gives the same list.
#[verifier::spinoff_prover]
#[verifier::rlimit(100)]
pub proof fn lemma_greedy_deterministic(
    grid: Seq<BlockID>,
    nx: int,
    ny: int,
    s1: Seq<Square>,
    s2: Seq<Square>,
)
    requires
        greedy_matches(grid, nx, ny, s1),
        covers_all_solid(grid, nx, ny, s1),
        greedy_matches(grid, nx, ny, s2),
        covers_all_solid(grid, nx, ny, s2),
    ensures
        s1 == s2,
    decreases s1.len(),
{
    let n1 = s1.len() as int;
    let n2 = s2.len() as int;
    if n1 > n2 {
        lemma_greedy_deterministic(grid, nx, ny, s2, s1);
    } else {
        lemma_greedy_prefixes_eq(grid, nx, ny, s1, s2, n1);
        if n1 < n2 {
            // a longer list would need one more anchor, but a list that
            // already covers every solid cell leaves none uncovered
            reveal(greedy_step_ok);
            assert(greedy_step_ok(grid, nx, ny, s2.take(n1), s2[n1]));
            assert(s2.take(n1) =~= s1);
            let sq = s2[n1];
            assert(is_anchor(grid, nx, ny, s1, sq.x1 as int, sq.y1 as int)) by {
                assert(s2.take(n1) == s1);
            }
            assert(cell(grid, ny, sq.x1 as int, sq.y1 as int) != 0);
            assert(covered(s1, sq.x1 as int, sq.y1 as int));
        }
        assert(s1 =~= s2) by {
            assert(s1.take(n1) =~= s1);
            assert(s2.take(n2) =~= s2);
        }
    }
}

/// Whether some rectangle of `squares` already contains the cell `(x, y)`.
fn is_covered(squares: &Vec<Square>, x: usize, y: usize) -> (r: bool)
    ensures
        r == covered(squares@, x as int, y as int),
{
    let n = squares.len();
    let mut i: usize = 0;
    while i < n
        invariant
            i <= n,
            n == squares@.len(),
            forall|j: int| 0 <= j < i ==> !in_square(#[trigger] squares@[j], x as int, y as int),
        decreases n - i,
    {
        let sq = squares[i];
        if x >= sq.x1 && y >= sq.y1 && x < sq.x2 && y < sq.y2 {
            assert(in_square(squares@[i as int], x as int, y as int));
            return true;
        }
        i = i + 1;
    }
    false
}

/// Finds the next anchor: the first cell, scanning rows `y1` and up and each
/// row left to right, that is non-air and not yet covered. When it returns
/// `None`, every non-air cell from row `y1` on is covered.
fn find_anchor(grid: &Vec<BlockID>, nx: usize, ny: usize, squares: &Vec<Square>, y1: usize)
    -> (r: Option<(usize, usize)>)
    requires
        grid@.len() == nx * ny,
        y1 <= ny,
    ensures
        match r {
            Some(a) => {
                &&& a.0 < nx
                &&& y1 <= a.1 < ny
                &&& cell(grid@, ny as int, a.0 as int, a.1 as int) != 0
                &&& !covered(squares@, a.0 as int, a.1 as int)
                &&& forall|x: int, y: int|
                    0 <= x < nx && y1 <= y < a.1 && #[trigger] cell(grid@, ny as int, x, y) != 0
                        ==> covered(squares@, x, y)
                &&& forall|x: int|
                    0 <= x < a.0 && #[trigger] cell(grid@, ny as int, x, a.1 as int) != 0
                        ==> covered(squares@, x, a.1 as int)
            }
            None => forall|x: int, y: int|
                0 <= x < nx && y1 <= y < ny && #[trigger] cell(grid@, ny as int, x, y) != 0
                    ==> covered(squares@, x, y),
        },
{
    let _n_cells = grid.len();
    let mut y: usize = y1;
    while y < ny
        invariant
            grid@.len() == nx * ny,
            nx * ny <= usize::MAX,
            y1 <= y <= ny,
            forall|px: int, py: int|
                0 <= px < nx && y1 <= py < y && #[trigger] cell(grid@, ny as int, px, py) != 0
                    ==> covered(squares@, px, py),
        decreases ny - y,
    {
        let mut x: usize = 0;
        while x < nx
            invariant
                grid@.len() == nx * ny,
                nx * ny <= usize::MAX,
                y1 <= y < ny,
                x <= nx,
                forall|px: int, py: int|
                    0 <= px < nx && y1 <= py < y && #[trigger] cell(grid@, ny as int, px, py) != 0
                        ==> covered(squares@, px, py),
                forall|px: int|
                    0 <= px < x && #[trigger] cell(grid@, ny as int, px, y as int) != 0
                        ==> covered(squares@, px, y as int),
            decreases nx - x,
        {
            proof {
                lemma_cell_index(nx as int, ny as int, x as int, y as int);
            }
            let v = grid[x * ny + y];
            if v != 0 {
                if !is_covered(squares, x, y) {
                    return Some((x, y));
                }
            }
            x = x + 1;
        }
        y = y + 1;
    }
    None
}

/// Whether growing into column `x`, over the rows `ylo..=yhi`, is blocked by
/// an already covered cell or a cell of a different ID.
fn col_blocked(
    grid: &Vec<BlockID>,
    nx: usize,
    ny: usize,
    squares: &Vec<Square>,
    x: usize,
    ylo: usize,
    yhi: usize,
    id: BlockID,
) -> (r: bool)
    requires
        grid@.len() == nx * ny,
        x < nx,
        ylo <= yhi < ny,
    ensures
        !r ==> forall|y: int|
            ylo <= y <= yhi
                ==> !covered(squares@, x as int, y)
                    && #[trigger] cell(grid@, ny as int, x as int, y) == id,
        r == spec_col_blocked(grid@, ny as int, squares@, x as int, ylo as int, yhi as int, id),
{
    let _n_cells = grid.len();
    let mut y: usize = ylo;
    while y <= yhi
        invariant
            grid@.len() == nx * ny,
            nx * ny <= usize::MAX,
            x < nx,
            ylo <= y,
            yhi < ny,
            forall|py: int| ylo <= py < y
                ==> !covered(squares@, x as int, py)
                    && #[trigger] cell(grid@, ny as int, x as int, py) == id,
        decreases yhi + 1 - y,
    {
        proof {
            lemma_cell_index(nx as int, ny as int, x as int, y as int);
        }
        let v = grid[x * ny + y];
        assert(v == cell(grid@, ny as int, x as int, y as int));
        if v != id {
            proof {
                reveal(spec_col_blocked);
                assert(spec_col_blocked(grid@, ny as int, squares@, x as int, ylo as int,
                    yhi as int, id));
            }
            return true;
        }
        if is_covered(squares, x, y) {
            proof {
                reveal(spec_col_blocked);
                assert(covered(squares@, x as int, y as int));
                assert(spec_col_blocked(grid@, ny as int, squares@, x as int, ylo as int,
                    yhi as int, id));
            }
            return true;
        }
        proof {
            assert forall|py: int| ylo <= py < y + 1
                implies !covered(squares@, x as int, py)
                    && cell(grid@, ny as int, x as int, py) == id
            by {
                if py < y {
                    assert(cell(grid@, ny as int, x as int, py) == id);
                    assert(!covered(squares@, x as int, py));
                } else {
                    assert(py == y);
                }
            }
        }
        y = y + 1;
    }
    proof {
        assert forall|py: int| ylo <= py <= yhi
            implies !covered(squares@, x as int, py)
                && cell(grid@, ny as int, x as int, py) == id
        by {
            assert(cell(grid@, ny as int, x as int, py) == id);
            assert(!covered(squares@, x as int, py));
        }
        assert(!spec_col_blocked(grid@, ny as int, squares@, x as int, ylo as int, yhi as int, id))
        by {
            reveal(spec_col_blocked);
            if spec_col_blocked(grid@, ny as int, squares@, x as int, ylo as int, yhi as int, id) {
                let wy = choose|wy: int| ylo <= wy <= yhi
                    && (covered(squares@, x as int, wy)
                        || #[trigger] cell(grid@, ny as int, x as int, wy) != id);
                assert(cell(grid@, ny as int, x as int, wy) == id);
                assert(!covered(squares@, x as int, wy));
            }
        }
    }
    false
}

/// Whether growing into row `y`, over the columns `xlo..=xhi`, is blocked by
/// an already covered cell or a cell of a different ID.
fn row_blocked(
    grid: &Vec<BlockID>,
    nx: usize,
    ny: usize,
    squares: &Vec<Square>,
    y: usize,
    xlo: usize,
    xhi: usize,
    id: BlockID,
) -> (r: bool)
    requires
        grid@.len() == nx * ny,
        y < ny,
        xlo <= xhi < nx,
    ensures
        !r ==> forall|x: int|
            xlo <= x <= xhi
                ==> !covered(squares@, x, y as int)
                    && #[trigger] cell(grid@, ny as int, x, y as int) == id,
        r == spec_row_blocked(grid@, ny as int, squares@, y as int, xlo as int, xhi as int, id),
{
    let _n_cells = grid.len();
    let mut x: usize = xlo;
    while x <= xhi
        invariant
            grid@.len() == nx * ny,
            nx * ny <= usize::MAX,
            y < ny,
            xlo <= x,
            xhi < nx,
            forall|px: int| xlo <= px < x
                ==> !covered(squares@, px, y as int)
                    && #[trigger] cell(grid@, ny as int, px, y as int) == id,
        decreases xhi + 1 - x,
    {
        proof {
            lemma_cell_index(nx as int, ny as int, x as int, y as int);
        }
        let v = grid[x * ny + y];
        assert(v == cell(grid@, ny as int, x as int, y as int));
        if v != id {
            proof {
                reveal(spec_row_blocked);
                assert(spec_row_blocked(grid@, ny as int, squares@, y as int, xlo as int,
                    xhi as int, id));
            }
            return true;
        }
        if is_covered(squares, x, y) {
            proof {
                reveal(spec_row_blocked);
                assert(covered(squares@, x as int, y as int));
                assert(spec_row_blocked(grid@, ny as int, squares@, y as int, xlo as int,
                    xhi as int, id));
            }
            return true;
        }
        proof {
            assert forall|px: int| xlo <= px < x + 1
                implies !covered(squares@, px, y as int)
                    && cell(grid@, ny as int, px, y as int) == id
            by {
                if px < x {
                    assert(cell(grid@, ny as int, px, y as int) == id);
                    assert(!covered(squares@, px, y as int));
                } else {
                    assert(px == x);
                }
            }
        }
        x = x + 1;
    }
    proof {
        assert forall|px: int| xlo <= px <= xhi
            implies !covered(squares@, px, y as int)
                && cell(grid@, ny as int, px, y as int) == id
        by {
            assert(cell(grid@, ny as int, px, y as int) == id);
            assert(!covered(squares@, px, y as int));
        }
        assert(!spec_row_blocked(grid@, ny as int, squares@, y as int, xlo as int, xhi as int, id))
        by {
            reveal(spec_row_blocked);
            if spec_row_blocked(grid@, ny as int, squares@, y as int, xlo as int, xhi as int, id) {
                let wx = choose|wx: int| xlo <= wx <= xhi
                    && (covered(squares@, wx, y as int)
                        || #[trigger] cell(grid@, ny as int, wx, y as int) != id);
                assert(cell(grid@, ny as int, wx, y as int) == id);
                assert(!covered(squares@, wx, y as int));
            }
        }
    }
    false
}

/// Grows a rectangle from the anchor `(x1, y1)`, alternating the two axes:
/// each axis extends one unit at a time until it hits the slice edge, a cell
/// of a different ID, or a cell an earlier rectangle covers, and freezes
/// there while the other axis continues. Returns the inclusive far corner.
fn grow(
    grid: &Vec<BlockID>,
    nx: usize,
    ny: usize,
    squares: &Vec<Square>,
    x1: usize,
    y1: usize,
    id: BlockID,
) -> (r: (usize, usize))
    requires
        grid@.len() == nx * ny,
        x1 < nx,
        y1 < ny,
        cell(grid@, ny as int, x1 as int, y1 as int) == id,
        !covered(squares@, x1 as int, y1 as int),
    ensures
        x1 <= r.0 < nx,
        y1 <= r.1 < ny,
        forall|x: int, y: int|
            x1 <= x <= r.0 && y1 <= y <= r.1
                ==> #[trigger] cell(grid@, ny as int, x, y) == id && !covered(squares@, x, y),
        (r.0 as int, r.1 as int) == grow_from(grid@, nx as int, ny as int, squares@, id,
            x1 as int, y1 as int, x1 as int, y1 as int, false, false),
{
    let mut x2: usize = x1;
    let mut y2: usize = y1;
    let mut hit_wall_x = false;
    let mut hit_wall_y = false;
    let ghost target = grow_from(grid@, nx as int, ny as int, squares@, id,
        x1 as int, y1 as int, x1 as int, y1 as int, false, false);

    while !(hit_wall_x && hit_wall_y)
        invariant
            grid@.len() == nx * ny,
            x1 <= x2 < nx,
            y1 <= y2 < ny,
            forall|x: int, y: int|
                x1 <= x <= x2 && y1 <= y <= y2
                    ==> #[trigger] cell(grid@, ny as int, x, y) == id && !covered(squares@, x, y),
            target == grow_from(grid@, nx as int, ny as int, squares@, id,
                x1 as int, y1 as int, x1 as int, y1 as int, false, false),
            target == grow_from(grid@, nx as int, ny as int, squares@, id,
                x1 as int, y1 as int, x2 as int, y2 as int, hit_wall_x, hit_wall_y),
        decreases
            (nx - x2) + (ny - y2) + (if hit_wall_x { 0int } else { 1int })
                + (if hit_wall_y { 0int } else { 1int }),
    {
        let ghost ox2 = x2 as int;
        let ghost oy2 = y2 as int;
        let ghost ohx = hit_wall_x;
        let ghost ohy = hit_wall_y;
        if !hit_wall_x {
            if x2 + 1 == nx {
                hit_wall_x = true;
            } else if col_blocked(grid, nx, ny, squares, x2 + 1, y1, y2, id) {
                hit_wall_x = true;
            } else {
                x2 = x2 + 1;
                proof {
                    assert forall|px: int, py: int| x1 <= px <= x2 && y1 <= py <= y2
                        implies cell(grid@, ny as int, px, py) == id && !covered(squares@, px, py)
                    by {
                        if px < x2 {
                            assert(cell(grid@, ny as int, px, py) == id);
                            assert(!covered(squares@, px, py));
                        } else {
                            assert(px == x2);
                            assert(cell(grid@, ny as int, x2 as int, py) == id);
                            assert(!covered(squares@, x2 as int, py));
                        }
                    }
                }
            }
        }
        if !hit_wall_y {
            if y2 + 1 == ny {
                hit_wall_y = true;
            } else if row_blocked(grid, nx, ny, squares, y2 + 1, x1, x2, id) {
                hit_wall_y = true;
            } else {
                y2 = y2 + 1;
                proof {
                    assert forall|px: int, py: int| x1 <= px <= x2 && y1 <= py <= y2
                        implies cell(grid@, ny as int, px, py) == id && !covered(squares@, px, py)
                    by {
                        if py < y2 {
                            assert(cell(grid@, ny as int, px, py) == id);
                            assert(!covered(squares@, px, py));
                        } else {
                            assert(py == y2);
                            assert(cell(grid@, ny as int, px, y2 as int) == id);
                            assert(!covered(squares@, px, y2 as int));
                        }
                    }
                }
            }
        }
        proof {
            assert forall|px: int, py: int| x1 <= px <= x2 && y1 <= py <= y2
                implies cell(grid@, ny as int, px, py) == id && !covered(squares@, px, py)
            by {
                assert(cell(grid@, ny as int, px, py) == id);
                assert(!covered(squares@, px, py));
            }
            // one loop pass is one unfolding of the growth function
            reveal(grow_from);
            assert(grow_from(grid@, nx as int, ny as int, squares@, id, x1 as int, y1 as int,
                    ox2, oy2, ohx, ohy)
                == grow_from(grid@, nx as int, ny as int, squares@, id, x1 as int, y1 as int,
                    x2 as int, y2 as int, hit_wall_x, hit_wall_y));
        }
    }
    proof {
        reveal(grow_from);
        assert(grow_from(grid@, nx as int, ny as int, squares@, id, x1 as int, y1 as int,
            x2 as int, y2 as int, hit_wall_x, hit_wall_y) == (x2 as int, y2 as int));
    }
    (x2, y2)
}

/// Greedy meshing of one slice: returns axis-aligned, same-ID, pairwise
/// disjoint rectangles that cover every non-air cell of the slice.
///
/// The slice holds `nx * ny` block IDs, cell `(x, y)` at index `x * ny + y`.
pub fn tessellate_slice(grid: &Vec<BlockID>, nx: usize, ny: usize) -> (squares: Vec<Square>)
    requires
        grid@.len() == nx * ny,
    ensures
        squares_wf(grid@, nx as int, ny as int, squares@),
        covers_all_solid(grid@, nx as int, ny as int, squares@),
        greedy_matches(grid@, nx as int, ny as int, squares@),
{
    let _n_cells = grid.len();
    let mut squares: Vec<Square> = Vec::new();
    let mut y1: usize = 0;
    let ghost mut floor: int = 0;

    loop
        invariant
            grid@.len() == nx * ny,
            nx * ny <= usize::MAX,
            y1 <= ny,
            squares_wf(grid@, nx as int, ny as int, squares@),
            greedy_matches(grid@, nx as int, ny as int, squares@),
            0 <= floor <= nx * ny,
            // every solid cell on a row below y1 is covered
            forall|x: int, y: int|
                0 <= x < nx && 0 <= y < y1 && #[trigger] cell(grid@, ny as int, x, y) != 0
                    ==> covered(squares@, x, y),
            // every solid cell before the scan floor is covered
            forall|x: int, y: int|
                0 <= x < nx && 0 <= y < ny && y * nx + x < floor
                    && #[trigger] cell(grid@, ny as int, x, y) != 0
                    ==> covered(squares@, x, y),
        ensures
            squares_wf(grid@, nx as int, ny as int, squares@),
            covers_all_solid(grid@, nx as int, ny as int, squares@),
            greedy_matches(grid@, nx as int, ny as int, squares@),
        decreases nx * ny - floor,
    {
        let anchor = find_anchor(grid, nx, ny, &squares, y1);
        match anchor {
            None => {
                break;
            }
            Some(a) => {
                let (ax, ay) = a;
                proof {
                    lemma_cell_index(nx as int, ny as int, ax as int, ay as int);
                }
                let current_block_id = grid[ax * ny + ay];
                let (gx2, gy2) = grow(grid, nx, ny, &squares, ax, ay, current_block_id);
                let new_sq = Square { x1: ax, y1: ay, x2: gx2 + 1, y2: gy2 + 1, id: current_block_id };
                let ghost old_sqs = squares@;
                squares.push(new_sq);
                proof {
                    assert(squares@ == old_sqs.push(new_sq));
                    // pushing keeps old coverage and adds the new rectangle
                    assert forall|x: int, y: int|
                        covered(squares@, x, y) == (covered(old_sqs, x, y) || in_square(new_sq, x, y))
                    by {
                        lemma_covered_push(old_sqs, new_sq, x, y);
                    }
                    // the new rectangle is well formed and disjoint from the others
                    assert forall|i: int| 0 <= i < squares@.len()
                        implies square_wf(grid@, nx as int, ny as int, #[trigger] squares@[i])
                    by {
                        if i < old_sqs.len() {
                            assert(squares@[i] == old_sqs[i]);
                        } else {
                            assert(squares@[i] == new_sq);
                            assert forall|x: int, y: int| #[trigger] in_square(new_sq, x, y)
                                implies cell(grid@, ny as int, x, y) == new_sq.id
                            by {
                            }
                        }
                    }
                    assert forall|i: int, j: int| 0 <= i < j < squares@.len()
                        implies squares_disjoint(#[trigger] squares@[i], #[trigger] squares@[j])
                    by {
                        if j < old_sqs.len() {
                            assert(squares@[i] == old_sqs[i] && squares@[j] == old_sqs[j]);
                        } else {
                            assert(squares@[i] == old_sqs[i] && squares@[j] == new_sq);
                            assert forall|x: int, y: int| #[trigger] in_square(old_sqs[i], x, y)
                                implies !in_square(new_sq, x, y)
                            by {
                                if in_square(new_sq, x, y) {
                                    assert(!covered(old_sqs, x, y));
                                    assert(in_square(old_sqs[i], x, y) ==> covered(old_sqs, x, y));
                                }
                            }
                        }
                    }
                    // the new rectangle is exactly the greedy step after
                    // the rectangles already emitted
                    assert forall|ii: int| 0 <= ii < squares@.len()
                        implies greedy_step_ok(grid@, nx as int, ny as int,
                            squares@.take(ii), #[trigger] squares@[ii])
                    by {
                        reveal(greedy_step_ok);
                        if ii < old_sqs.len() {
                            assert(squares@[ii] == old_sqs[ii]);
                            assert(squares@.take(ii) =~= old_sqs.take(ii));
                            assert(greedy_step_ok(grid@, nx as int, ny as int,
                                old_sqs.take(ii), old_sqs[ii]));
                        } else {
                            assert(squares@[ii] == new_sq);
                            assert(squares@.take(ii) =~= old_sqs);
                            assert(is_anchor(grid@, nx as int, ny as int, old_sqs,
                                ax as int, ay as int)) by {
                                assert forall|x: int, y: int|
                                    0 <= x < nx && 0 <= y < ny
                                        && (y < ay || (y == ay && x < ax))
                                        && #[trigger] cell(grid@, ny as int, x, y) != 0
                                    implies covered(old_sqs, x, y)
                                by {
                                    if y < y1 {
                                    } else if y < ay {
                                    } else {
                                        assert(y == ay && x < ax);
                                    }
                                }
                            }
                            assert(new_sq.id == cell(grid@, ny as int, ax as int, ay as int));
                        }
                    }
                    // the scan floor moves past the anchor
                    let p = ay * nx + ax;
                    lemma_cell_index(nx as int, ny as int, ax as int, ay as int);
                    assert(floor <= p) by {
                        if p < floor {
                            assert(cell(grid@, ny as int, ax as int, ay as int) != 0);
                            assert(covered(old_sqs, ax as int, ay as int));
                        }
                    }
                    assert(in_square(new_sq, ax as int, ay as int));
                    floor = p + 1;
                    assert forall|x: int, y: int|
                        0 <= x < nx && 0 <= y < ny && y * nx + x < floor
                            && #[trigger] cell(grid@, ny as int, x, y) != 0
                        implies covered(squares@, x, y)
                    by {
                        if y * nx + x < p {
                            if y < ay {
                            } else {
                                assert(y == ay && x < ax) by (nonlinear_arith)
                                    requires
                                        0 <= x < nx && 0 <= y < ny && ax < nx && 0 <= ay,
                                        y * nx + x < ay * nx + ax,
                                        y >= ay;
                            }
                        } else {
                            assert(y * nx + x == p);
                            assert(y == ay && x == ax) by (nonlinear_arith)
                                requires
                                    0 <= x < nx && 0 <= y < ny && 0 <= ax < nx && 0 <= ay < ny,
                                    y * nx + x == ay * nx + ax;
                        }
                    }
                }
                y1 = ay;
            }
        }
    }
    squares
}


/// Which raw corner of the rectangle the `k`-th emitted vertex uses. The
/// raw corners are numbered 0 to 3 counterclockwise starting at the top
/// left; for the three mirrored directions the order is reversed so every
/// quad faces outward.
pub open spec fn vert_index(f: Facing, k: int) -> int {
    match f {
        Facing::N | Facing::W | Facing::D => 3 - k,
        _ => k,
    }
}

/// Which raw texture-coordinate pair the `k`-th emitted vertex uses.
pub open spec fn uv_index(f: Facing, k: int) -> int {
    match f {
        Facing::D => (k + 2) % 4,
        _ => k,
    }
}

/// The first slice coordinate of raw corner `vti`: `x1` on the left edge,
/// `x2` on the right.
pub open spec fn corner_u(sq: Square, vti: int) -> int {
    if vti == 0 || vti == 1 {
        sq.x1 as int
    } else {
        sq.x2 as int
    }
}

/// The second slice coordinate of raw corner `vti`: `y1` on the near edge,
/// `y2` on the far.
pub open spec fn corner_v(sq: Square, vti: int) -> int {
    if vti == 1 || vti == 2 {
        sq.y1 as int
    } else {
        sq.y2 as int
    }
}

/// The texture `u` coordinate of raw pair `uvi`: the rectangle's width on
/// the right edge, 0 on the left.
pub open spec fn uv_u(sq: Square, uvi: int) -> int {
    if uvi == 2 || uvi == 3 {
        sq.x2 - sq.x1
    } else {
        0
    }
}

/// The texture `v` coordinate of raw pair `uvi`: the rectangle's height on
/// the far edge, 0 on the near.
pub open spec fn uv_v(sq: Square, uvi: int) -> int {
    if uvi == 1 || uvi == 2 {
        sq.y2 - sq.y1
    } else {
        0
    }
}

/// The world X of the `k`-th vertex of the quad for `sq`: the first slice
/// coordinate for slices stacked along Y or Z, plus one for an east face,
/// which sits on the far side of its voxel.
pub open spec fn quad_px(f: Facing, ox: int, sq: Square, k: int) -> int {
    ox + (match f {
        Facing::E | Facing::W => 0int,
        _ => corner_u(sq, vert_index(f, k)),
    }) + (if f is E { 1int } else { 0int })
}

/// The world Y of the `k`-th vertex of the quad for `sq`.
pub open spec fn quad_py(f: Facing, oy: int, sq: Square, k: int) -> int {
    oy + (match f {
        Facing::E | Facing::W => corner_u(sq, vert_index(f, k)),
        Facing::U | Facing::D => corner_v(sq, vert_index(f, k)),
        _ => 0int,
    }) + (if f is N { 1int } else { 0int })
}

/// The world Z of the `k`-th vertex of the quad for `sq`.
pub open spec fn quad_pz(f: Facing, oz: int, sq: Square, k: int) -> int {
    oz + (match f {
        Facing::U | Facing::D => 0int,
        _ => corner_v(sq, vert_index(f, k)),
    }) + (if f is U { 1int } else { 0int })
}

/// The vertex list `r` is exactly the quads of `squares`, four vertices
/// each, placed at `offset` on the face `facing`, textured from `blocks`.
pub open spec fn quads_match(
    r: Seq<MeshVertex>,
    squares: Seq<Square>,
    offset: (i64, i64, i64),
    facing: Facing,
    blocks: Seq<BlockProto>,
) -> bool {
    &&& r.len() == 4 * squares.len()
    &&& forall|j: int| 0 <= j < r.len() ==> {
        let sq = squares[j / 4];
        let k = j % 4;
        &&& (#[trigger] r[j]).px == quad_px(facing, offset.0 as int, sq, k)
        &&& r[j].py == quad_py(facing, offset.1 as int, sq, k)
        &&& r[j].pz == quad_pz(facing, offset.2 as int, sq, k)
        &&& r[j].u == uv_u(sq, uv_index(facing, k))
        &&& r[j].v == uv_v(sq, uv_index(facing, k))
        &&& r[j].tex_id == blocks[sq.id as int].tex_face_map@[spec_facing_index(facing)]
    }
}

/// Builds the `k`-th vertex of the quad for `sq`.
fn emit_corner(facing: Facing, offset: (i64, i64, i64), sq: Square, tex: u32, k: usize) -> (r: MeshVertex)
    requires
        k < 4,
        sq.x1 <= sq.x2 <= 0x1000_0000,
        sq.y1 <= sq.y2 <= 0x1000_0000,
        -0x2000_0000_0000_0000 <= offset.0 <= 0x2000_0000_0000_0000,
        -0x2000_0000_0000_0000 <= offset.1 <= 0x2000_0000_0000_0000,
        -0x2000_0000_0000_0000 <= offset.2 <= 0x2000_0000_0000_0000,
    ensures
        r.px == quad_px(facing, offset.0 as int, sq, k as int),
        r.py == quad_py(facing, offset.1 as int, sq, k as int),
        r.pz == quad_pz(facing, offset.2 as int, sq, k as int),
        r.u == uv_u(sq, uv_index(facing, k as int)),
        r.v == uv_v(sq, uv_index(facing, k as int)),
        r.tex_id == tex,
{
    let vti: usize = match facing {
        Facing::N | Facing::W | Facing::D => 3 - k,
        _ => k,
    };
    let uvi: usize = match facing {
        Facing::D => (k + 2) % 4,
        _ => k,
    };
    let cu: i64 = if vti == 0 || vti == 1 { sq.x1 as i64 } else { sq.x2 as i64 };
    let cv: i64 = if vti == 1 || vti == 2 { sq.y1 as i64 } else { sq.y2 as i64 };
    let uu: usize = if uvi == 2 || uvi == 3 { sq.x2 - sq.x1 } else { 0 };
    let vv: usize = if uvi == 1 || uvi == 2 { sq.y2 - sq.y1 } else { 0 };
    let bx: i64 = if let Facing::E = facing { 1 } else { 0 };
    let by: i64 = if let Facing::N = facing { 1 } else { 0 };
    let bz: i64 = if let Facing::U = facing { 1 } else { 0 };
    let px: i64 = match facing {
        Facing::E | Facing::W => offset.0,
        _ => offset.0 + cu,
    } + bx;
    let py: i64 = match facing {
        Facing::E | Facing::W => offset.1 + cu,
        Facing::U | Facing::D => offset.1 + cv,
        _ => offset.1,
    } + by;
    let pz: i64 = match facing {
        Facing::U | Facing::D => offset.2,
        _ => offset.2 + cv,
    } + bz;
    MeshVertex { px, py, pz, u: uu as u32, v: vv as u32, tex_id: tex }
}

/// Lifts each rectangle into a textured quad on the face `facing` of the
/// slice placed at `offset` in world space: four vertices per rectangle,
/// wound to face outward, with the rectangle's width and height as texture
/// coordinates and the texture the block set assigns to `facing` of the
/// rectangle's block ID.
pub fn squares_to_vertices(
    squares: &Vec<Square>,
    offset: (i64, i64, i64),
    facing: Facing,
    block_proto_set: &BlockProtoSet,
) -> (r: Vec<MeshVertex>)
    requires
        forall|i: int| 0 <= i < squares@.len() ==> {
            &&& (#[trigger] squares@[i]).id < block_proto_set.blocks@.len()
            &&& squares@[i].x1 <= squares@[i].x2 <= 0x1000_0000
            &&& squares@[i].y1 <= squares@[i].y2 <= 0x1000_0000
            &&& block_proto_set.blocks@[squares@[i].id as int]
                .tex_face_map@[spec_facing_index(facing)] <= u32::MAX
        },
        -0x2000_0000_0000_0000 <= offset.0 <= 0x2000_0000_0000_0000,
        -0x2000_0000_0000_0000 <= offset.1 <= 0x2000_0000_0000_0000,
        -0x2000_0000_0000_0000 <= offset.2 <= 0x2000_0000_0000_0000,
    ensures
        quads_match(r@, squares@, offset, facing, block_proto_set.blocks@),
{
    let mut vertices: Vec<MeshVertex> = Vec::new();
    let n = squares.len();
    let mut i: usize = 0;
    while i < n
        invariant
            n == squares@.len(),
            i <= n,
            vertices@.len() == 4 * i,
            forall|i2: int| 0 <= i2 < squares@.len() ==> {
                &&& (#[trigger] squares@[i2]).id < block_proto_set.blocks@.len()
                &&& squares@[i2].x1 <= squares@[i2].x2 <= 0x1000_0000
                &&& squares@[i2].y1 <= squares@[i2].y2 <= 0x1000_0000
                &&& block_proto_set.blocks@[squares@[i2].id as int]
                    .tex_face_map@[spec_facing_index(facing)] <= u32::MAX
            },
            -0x2000_0000_0000_0000 <= offset.0 <= 0x2000_0000_0000_0000,
            -0x2000_0000_0000_0000 <= offset.1 <= 0x2000_0000_0000_0000,
            -0x2000_0000_0000_0000 <= offset.2 <= 0x2000_0000_0000_0000,
            forall|j: int| 0 <= j < vertices@.len() ==> {
                let sq = squares@[j / 4];
                let k = j % 4;
                &&& (#[trigger] vertices@[j]).px == quad_px(facing, offset.0 as int, sq, k)
                &&& vertices@[j].py == quad_py(facing, offset.1 as int, sq, k)
                &&& vertices@[j].pz == quad_pz(facing, offset.2 as int, sq, k)
                &&& vertices@[j].u == uv_u(sq, uv_index(facing, k))
                &&& vertices@[j].v == uv_v(sq, uv_index(facing, k))
                &&& vertices@[j].tex_id
                    == block_proto_set.blocks@[sq.id as int].tex_face_map@[spec_facing_index(facing)]
            },
        decreases n - i,
    {
        let sq = squares[i];
        let tex_usize = block_proto_set.get_tex_id(sq.id, facing);
        let tex = tex_usize as u32;
        let v0 = emit_corner(facing, offset, sq, tex, 0);
        let v1 = emit_corner(facing, offset, sq, tex, 1);
        let v2 = emit_corner(facing, offset, sq, tex, 2);
        let v3 = emit_corner(facing, offset, sq, tex, 3);
        vertices.push(v0);
        vertices.push(v1);
        vertices.push(v2);
        vertices.push(v3);
        proof {
            let b = 4 * (i as int);
            assert(b / 4 == i && b % 4 == 0 && (b + 1) / 4 == i && (b + 1) % 4 == 1
                && (b + 2) / 4 == i && (b + 2) % 4 == 2 && (b + 3) / 4 == i && (b + 3) % 4 == 3)
                by (nonlinear_arith)
                requires b == 4 * (i as int);
            assert(vertices@[b] == v0);
            assert(vertices@[b + 1] == v1);
            assert(vertices@[b + 2] == v2);
            assert(vertices@[b + 3] == v3);
        }
        i = i + 1;
    }
    vertices
}


/// The first slice coordinate a vertex lies at, read back from its world
/// position. The one-unit face offset of the mirrored directions sits on
/// the axis normal to the slice, so it never disturbs these coordinates.
pub open spec fn vert_u(v: MeshVertex, f: Facing, off: (i64, i64, i64)) -> int {
    match f {
        Facing::E | Facing::W => v.py - off.1,
        _ => v.px - off.0,
    }
}

/// The second slice coordinate a vertex lies at, read back from its world
/// position.
pub open spec fn vert_v(v: MeshVertex, f: Facing, off: (i64, i64, i64)) -> int {
    match f {
        Facing::U | Facing::D => v.py - off.1,
        _ => v.pz - off.2,
    }
}

/// The least of four values.
pub open spec fn min4(a: int, b: int, c: int, d: int) -> int {
    let m1 = if a <= b { a } else { b };
    let m2 = if c <= d { c } else { d };
    if m1 <= m2 { m1 } else { m2 }
}

/// The greatest of four values.
pub open spec fn max4(a: int, b: int, c: int, d: int) -> int {
    let m1 = if a >= b { a } else { b };
    let m2 = if c >= d { c } else { d };
    if m1 >= m2 { m1 } else { m2 }
}

/// Whether cell `(x, y)` lies inside the bounds of quad `q` of a vertex
/// list, the bounds being re-derived from the four vertex positions alone.
pub open spec fn cell_in_quad(
    verts: Seq<MeshVertex>,
    q: int,
    f: Facing,
    off: (i64, i64, i64),
    x: int,
    y: int,
) -> bool {
    let u0 = vert_u(verts[4 * q], f, off);
    let u1 = vert_u(verts[4 * q + 1], f, off);
    let u2 = vert_u(verts[4 * q + 2], f, off);
    let u3 = vert_u(verts[4 * q + 3], f, off);
    let v0 = vert_v(verts[4 * q], f, off);
    let v1 = vert_v(verts[4 * q + 1], f, off);
    let v2 = vert_v(verts[4 * q + 2], f, off);
    let v3 = vert_v(verts[4 * q + 3], f, off);
    &&& min4(u0, u1, u2, u3) <= x < max4(u0, u1, u2, u3)
    &&& min4(v0, v1, v2, v3) <= y < max4(v0, v1, v2, v3)
}

/// The bounds re-derived from the four vertices of quad `q` are exactly the
/// rectangle the quad was emitted from.
proof fn lemma_quad_cells(
    verts: Seq<MeshVertex>,
    squares: Seq<Square>,
    offset: (i64, i64, i64),
    facing: Facing,
    blocks: Seq<BlockProto>,
    q: int,
)
    requires
        quads_match(verts, squares, offset, facing, blocks),
        0 <= q < squares.len(),
        squares[q].x1 < squares[q].x2,
        squares[q].y1 < squares[q].y2,
    ensures
        forall|x: int, y: int|
            #[trigger] cell_in_quad(verts, q, facing, offset, x, y) <==> in_square(squares[q], x, y),
{
    let sq = squares[q];
    let b = 4 * q;
    assert(b / 4 == q && b % 4 == 0 && (b + 1) / 4 == q && (b + 1) % 4 == 1
        && (b + 2) / 4 == q && (b + 2) % 4 == 2 && (b + 3) / 4 == q && (b + 3) % 4 == 3)
        by (nonlinear_arith)
        requires b == 4 * q;
    assert(verts[b].px == quad_px(facing, offset.0 as int, sq, 0));
    assert(verts[b].py == quad_py(facing, offset.1 as int, sq, 0));
    assert(verts[b].pz == quad_pz(facing, offset.2 as int, sq, 0));
    assert(verts[b + 1].px == quad_px(facing, offset.0 as int, sq, 1));
    assert(verts[b + 1].py == quad_py(facing, offset.1 as int, sq, 1));
    assert(verts[b + 1].pz == quad_pz(facing, offset.2 as int, sq, 1));
    assert(verts[b + 2].px == quad_px(facing, offset.0 as int, sq, 2));
    assert(verts[b + 2].py == quad_py(facing, offset.1 as int, sq, 2));
    assert(verts[b + 2].pz == quad_pz(facing, offset.2 as int, sq, 2));
    assert(verts[b + 3].px == quad_px(facing, offset.0 as int, sq, 3));
    assert(verts[b + 3].py == quad_py(facing, offset.1 as int, sq, 3));
    assert(verts[b + 3].pz == quad_pz(facing, offset.2 as int, sq, 3));
    let u0 = vert_u(verts[b], facing, offset);
    let u1 = vert_u(verts[b + 1], facing, offset);
    let u2 = vert_u(verts[b + 2], facing, offset);
    let u3 = vert_u(verts[b + 3], facing, offset);
    let v0 = vert_v(verts[b], facing, offset);
    let v1 = vert_v(verts[b + 1], facing, offset);
    let v2 = vert_v(verts[b + 2], facing, offset);
    let v3 = vert_v(verts[b + 3], facing, offset);
    assert(min4(u0, u1, u2, u3) == sq.x1 && max4(u0, u1, u2, u3) == sq.x2);
    assert(min4(v0, v1, v2, v3) == sq.y1 && max4(v0, v1, v2, v3) == sq.y2);
}

/// Round trip: tessellating a slice, emitting quads, and re-deriving the
/// occupied cells from the quad bounds alone reproduces exactly the
/// non-air cells of the slice — no gaps, no spill-over.
pub proof fn lemma_mesh_round_trip(
    grid: Seq<BlockID>,
    nx: int,
    ny: int,
    squares: Seq<Square>,
    verts: Seq<MeshVertex>,
    offset: (i64, i64, i64),
    facing: Facing,
    blocks: Seq<BlockProto>,
)
    requires
        squares_wf(grid, nx, ny, squares),
        covers_all_solid(grid, nx, ny, squares),
        quads_match(verts, squares, offset, facing, blocks),
    ensures
        forall|x: int, y: int|
            0 <= x < nx && 0 <= y < ny
                ==> ((#[trigger] cell(grid, ny, x, y)) != 0
                    <==> exists|q: int|
                        0 <= q < squares.len()
                        && #[trigger] cell_in_quad(verts, q, facing, offset, x, y)),
{
    assert forall|x: int, y: int| 0 <= x < nx && 0 <= y < ny
        implies ((#[trigger] cell(grid, ny, x, y)) != 0
            <==> exists|q: int|
                0 <= q < squares.len() && #[trigger] cell_in_quad(verts, q, facing, offset, x, y))
    by {
        if cell(grid, ny, x, y) != 0 {
            assert(covered(squares, x, y));
            let i = choose|i: int| 0 <= i < squares.len() && #[trigger] in_square(squares[i], x, y);
            lemma_quad_cells(verts, squares, offset, facing, blocks, i);
            assert(cell_in_quad(verts, i, facing, offset, x, y));
        }
        if exists|q: int|
            0 <= q < squares.len() && #[trigger] cell_in_quad(verts, q, facing, offset, x, y) {
            let q = choose|q: int|
                0 <= q < squares.len() && #[trigger] cell_in_quad(verts, q, facing, offset, x, y);
            lemma_quad_cells(verts, squares, offset, facing, blocks, q);
            assert(in_square(squares[q], x, y));
            assert(cell(grid, ny, x, y) == squares[q].id);
        }
    }
}


/// Every rectangle of a well-formed list names a block ID that occurs in
/// the slice, so a bound on the slice's IDs bounds the rectangles' IDs.
pub proof fn lemma_square_ids_bounded(
    grid: Seq<BlockID>,
    nx: int,
    ny: int,
    sqs: Seq<Square>,
    bound: int,
)
    requires
        squares_wf(grid, nx, ny, sqs),
        grid.len() == nx * ny,
        forall|n: int| 0 <= n < grid.len() ==> #[trigger] grid[n] < bound,
    ensures
        forall|i: int| 0 <= i < sqs.len() ==> (#[trigger] sqs[i]).id < bound,
{
    assert forall|i: int| 0 <= i < sqs.len() implies (#[trigger] sqs[i]).id < bound by {
        let sq = sqs[i];
        assert(square_wf(grid, nx, ny, sq));
        assert(in_square(sq, sq.x1 as int, sq.y1 as int));
        assert(cell(grid, ny, sq.x1 as int, sq.y1 as int) == sq.id);
        lemma_cell_index(nx, ny, sq.x1 as int, sq.y1 as int);
        assert(grid[sq.x1 * ny + sq.y1] < bound);
    }
}


} // verus!
