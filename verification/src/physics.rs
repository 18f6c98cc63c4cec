//! The mathematical model of the board's discrete-time physics: what it means
//! for a cell to be falling, what one gravity tick does to the settled grid,
//! what one lateral shift pass does, and how the active tetromino is overlaid
//! onto the grid. The executable code in `board` is specified against these
//! functions.
use crate::tetrominos::shape_occupied;
use vstd::prelude::*;

verus! {

/// All rows of the grid have the same length.
pub open spec fn rows_uniform<T>(g: Seq<Seq<Option<T>>>) -> bool {
    forall|r: int| 0 <= r < g.len() ==> #[trigger] g[r].len() == row_len(g)
}

/// The common row length (the grid's width).
pub open spec fn row_len<T>(g: Seq<Seq<Option<T>>>) -> int {
    if g.len() > 0 {
        g[0].len() as int
    } else {
        0
    }
}

/// A cell is falling when at least one cell strictly below it in the same
/// column is empty. A cell on the bottom row is never falling.
pub open spec fn cell_falling<T>(g: Seq<Seq<Option<T>>>, r: int, c: int) -> bool {
    exists|r2: int| r < r2 < g.len() && g[r2][c] is None
}

/// Some cell at row `r` or below in column `c` is empty.
pub open spec fn empty_at_or_below<T>(g: Seq<Seq<Option<T>>>, r: int, c: int) -> bool {
    exists|r2: int| r <= r2 < g.len() && g[r2][c] is None
}

/// Some settled block of the grid is falling.
pub open spec fn any_cell_falling<T>(g: Seq<Seq<Option<T>>>) -> bool {
    exists|r: int, c: int|
        0 <= r < g.len() && 0 <= c < g[r].len() && g[r][c] is Some && cell_falling(g, r, c)
}

/// The content of cell (r, c) after one gravity tick: in a column that still
/// has an empty cell at row `r` or below, every cell receives the content of
/// the cell above it (the top receives nothing); elsewhere nothing moves.
/// This is exactly the effect of one bottom-to-top sweep that moves each
/// block down one row when the cell directly beneath it is empty.
pub open spec fn gravity_cell<T>(g: Seq<Seq<Option<T>>>, r: int, c: int) -> Option<T> {
    gravity_partial(g, 0, r, c)
}

/// The grid in the middle of the bottom-to-top gravity sweep, once the rows
/// at `top` and below have been processed: within those rows each column
/// behaves as if `top` were the top of the grid. The finished sweep is
/// `gravity_partial` with `top == 0`.
pub open spec fn gravity_partial<T>(g: Seq<Seq<Option<T>>>, top: int, r: int, c: int) -> Option<
    T,
> {
    if empty_at_or_below(g, r, c) {
        if r == top {
            None
        } else {
            g[r - 1][c]
        }
    } else {
        g[r][c]
    }
}

/// The whole grid after one gravity tick.
pub open spec fn gravity_step<T>(g: Seq<Seq<Option<T>>>) -> Seq<Seq<Option<T>>> {
    Seq::new(g.len(), |r: int| Seq::new(g[r].len(), |c: int| gravity_cell(g, r, c)))
}

/// During one left-shift pass (columns visited in increasing order), the
/// block at (r, c) moves one column to the left. This happens only for a
/// falling block whose left neighbour is empty by the time the pass reaches
/// it: either it was empty from the start, or its own block has just moved.
pub open spec fn moved_left<T>(g: Seq<Seq<Option<T>>>, r: int, c: int) -> bool
    decreases c,
{
    0 < c && c < g[r].len() && g[r][c] is Some && cell_falling(g, r, c) && (g[r][c - 1] is None
        || moved_left(g, r, c - 1))
}

/// The content of cell (r, c) after one left-shift pass.
pub open spec fn left_cell<T>(g: Seq<Seq<Option<T>>>, r: int, c: int) -> Option<T> {
    if c + 1 < g[r].len() && moved_left(g, r, c + 1) {
        g[r][c + 1]
    } else if moved_left(g, r, c) {
        None
    } else {
        g[r][c]
    }
}

/// Row `r` after one left-shift pass.
pub open spec fn left_row<T>(g: Seq<Seq<Option<T>>>, r: int) -> Seq<Option<T>> {
    Seq::new(g[r].len(), |c: int| left_cell(g, r, c))
}

/// The whole grid after one left-shift pass.
pub open spec fn left_step<T>(g: Seq<Seq<Option<T>>>) -> Seq<Seq<Option<T>>> {
    Seq::new(g.len(), |r: int| left_row(g, r))
}

/// During one right-shift pass (columns visited in decreasing order), the
/// block at (r, c) moves one column to the right.
pub open spec fn moved_right<T>(g: Seq<Seq<Option<T>>>, r: int, c: int) -> bool
    decreases g[r].len() - c,
{
    0 <= c && c + 1 < g[r].len() && g[r][c] is Some && cell_falling(g, r, c) && (g[r][c + 1] is None
        || moved_right(g, r, c + 1))
}

/// The content of cell (r, c) after one right-shift pass.
pub open spec fn right_cell<T>(g: Seq<Seq<Option<T>>>, r: int, c: int) -> Option<T> {
    if 0 <= c - 1 && moved_right(g, r, c - 1) {
        g[r][c - 1]
    } else if moved_right(g, r, c) {
        None
    } else {
        g[r][c]
    }
}

/// Row `r` after one right-shift pass.
pub open spec fn right_row<T>(g: Seq<Seq<Option<T>>>, r: int) -> Seq<Option<T>> {
    Seq::new(g[r].len(), |c: int| right_cell(g, r, c))
}

/// The whole grid after one right-shift pass.
pub open spec fn right_step<T>(g: Seq<Seq<Option<T>>>) -> Seq<Seq<Option<T>>> {
    Seq::new(g.len(), |r: int| right_row(g, r))
}

/// The tetromino anchored at (trow, tcol) covers the absolute cell (r, c).
pub open spec fn tet_covers(
    kind: int,
    orientation: int,
    trow: int,
    tcol: int,
    r: int,
    c: int,
) -> bool {
    shape_occupied(kind, orientation, r - trow, c - tcol)
}

/// The grid with the tetromino's occupied cells merged in, each carrying
/// `fill`. Covered positions outside the grid are silently dropped.
pub open spec fn overlay<T>(
    g: Seq<Seq<Option<T>>>,
    fill: T,
    kind: int,
    orientation: int,
    trow: int,
    tcol: int,
) -> Seq<Seq<Option<T>>> {
    Seq::new(
        g.len(),
        |r: int|
            Seq::new(
                g[r].len(),
                |c: int|
                    if tet_covers(kind, orientation, trow, tcol, r, c) {
                        Some(fill)
                    } else {
                        g[r][c]
                    },
            ),
    )
}

/// How many cells of the row are occupied.
pub open spec fn row_occupied_count<T>(s: Seq<Option<T>>) -> int
    decreases s.len(),
{
    if s.len() <= 0 {
        0
    } else {
        row_occupied_count(s.drop_last()) + if s.last() is Some {
            1int
        } else {
            0int
        }
    }
}

/// How many cells of the grid are occupied.
pub open spec fn grid_occupied_count<T>(g: Seq<Seq<Option<T>>>) -> int
    decreases g.len(),
{
    if g.len() <= 0 {
        0
    } else {
        grid_occupied_count(g.drop_last()) + row_occupied_count(g.last())
    }
}

/// Whether a cell is falling depends only on the rows strictly below it, so
/// it is unchanged between two grids that agree there.
pub proof fn lemma_falling_depends_below<T>(
    g1: Seq<Seq<Option<T>>>,
    g2: Seq<Seq<Option<T>>>,
    r: int,
    c: int,
)
    requires
        g1.len() == g2.len(),
        forall|r2: int| r < r2 < g1.len() ==> g1[r2][c] == #[trigger] g2[r2][c],
    ensures
        cell_falling(g1, r, c) == cell_falling(g2, r, c),
{
    if cell_falling(g1, r, c) {
        let r2 = choose|r2: int| r < r2 < g1.len() && g1[r2][c] is None;
        assert(g2[r2][c] is None);
    }
    if cell_falling(g2, r, c) {
        let r2 = choose|r2: int| r < r2 < g2.len() && g2[r2][c] is None;
        assert(g1[r2][c] is None);
    }
}

/// In a column where every occupied cell sits directly on another occupied
/// cell or on the floor, everything below an occupied cell is occupied.
proof fn lemma_solid_below<T>(g: Seq<Seq<Option<T>>>, r: int, c: int, r2: int)
    requires
        rows_uniform(g),
        0 <= c < row_len(g),
        forall|i: int|
            0 <= i < g.len() - 1 && 0 <= c < row_len(g) && #[trigger] g[i][c] is Some
                ==> g[i + 1][c] is Some,
        0 <= r <= r2 < g.len(),
        g[r][c] is Some,
    ensures
        g[r2][c] is Some,
    decreases r2 - r,
{
    if r < r2 {
        assert(g[r + 1][c] is Some);
        lemma_solid_below(g, r + 1, c, r2);
    }
}


/// Within one row, the left-shift pass conserves the number of occupied
/// cells over every prefix, up to the one block that may be about to cross
/// the prefix boundary from the right.
proof fn lemma_left_row_count_prefix<T>(g: Seq<Seq<Option<T>>>, r: int, c: int)
    requires
        0 <= r < g.len(),
        0 <= c <= g[r].len(),
    ensures
        row_occupied_count(left_row(g, r).take(c)) == row_occupied_count(g[r].take(c)) + (if
        moved_left(g, r, c) {
            1int
        } else {
            0int
        }),
    decreases c,
{
    if c == 0 {
        assert(left_row(g, r).take(0) =~= Seq::<Option<T>>::empty());
        assert(g[r].take(0) =~= Seq::<Option<T>>::empty());
    } else {
        lemma_left_row_count_prefix(g, r, c - 1);
        assert(left_row(g, r).take(c).drop_last() =~= left_row(g, r).take(c - 1));
        assert(g[r].take(c).drop_last() =~= g[r].take(c - 1));
        assert(left_row(g, r).take(c).last() == left_cell(g, r, c - 1));
        assert(g[r].take(c).last() == g[r][c - 1]);
    }
}

/// Within one row, the right-shift pass conserves the number of occupied
/// cells over every prefix, up to the one block that may be about to cross
/// the prefix boundary to the right.
proof fn lemma_right_row_count_prefix<T>(g: Seq<Seq<Option<T>>>, r: int, c: int)
    requires
        0 <= r < g.len(),
        0 <= c <= g[r].len(),
    ensures
        row_occupied_count(right_row(g, r).take(c)) == row_occupied_count(g[r].take(c)) - (if c > 0
            && moved_right(g, r, c - 1) {
            1int
        } else {
            0int
        }),
    decreases c,
{
    if c == 0 {
        assert(right_row(g, r).take(0) =~= Seq::<Option<T>>::empty());
        assert(g[r].take(0) =~= Seq::<Option<T>>::empty());
    } else {
        lemma_right_row_count_prefix(g, r, c - 1);
        assert(right_row(g, r).take(c).drop_last() =~= right_row(g, r).take(c - 1));
        assert(g[r].take(c).drop_last() =~= g[r].take(c - 1));
        assert(right_row(g, r).take(c).last() == right_cell(g, r, c - 1));
        assert(g[r].take(c).last() == g[r][c - 1]);
    }
}

/// Two grids whose rows hold the same number of occupied cells, row by row,
/// hold the same number of occupied cells in all.
proof fn lemma_grid_count_rowwise<T>(a: Seq<Seq<Option<T>>>, b: Seq<Seq<Option<T>>>)
    requires
        a.len() == b.len(),
        forall|r: int|
            0 <= r < a.len() ==> row_occupied_count(#[trigger] a[r]) == row_occupied_count(b[r]),
    ensures
        grid_occupied_count(a) == grid_occupied_count(b),
    decreases a.len(),
{
    if a.len() > 0 {
        assert(row_occupied_count(a.last()) == row_occupied_count(b.last()));
        lemma_grid_count_rowwise(a.drop_last(), b.drop_last());
    }
}

/// A left-shift pass conserves the total number of occupied cells: no block
/// is created or destroyed by moving the falling blocks one column left.
pub proof fn lemma_left_step_conserves_count<T>(g: Seq<Seq<Option<T>>>)
    ensures
        grid_occupied_count(left_step(g)) == grid_occupied_count(g),
{
    assert forall|r: int| 0 <= r < g.len() implies row_occupied_count(#[trigger] left_step(g)[r])
        == row_occupied_count(g[r]) by {
        let n = g[r].len() as int;
        lemma_left_row_count_prefix(g, r, n);
        assert(left_row(g, r).take(n) =~= left_row(g, r));
        assert(g[r].take(n) =~= g[r]);
    }
    lemma_grid_count_rowwise(left_step(g), g);
}

/// A right-shift pass conserves the total number of occupied cells: no block
/// is created or destroyed by moving the falling blocks one column right.
pub proof fn lemma_right_step_conserves_count<T>(g: Seq<Seq<Option<T>>>)
    ensures
        grid_occupied_count(right_step(g)) == grid_occupied_count(g),
{
    assert forall|r: int| 0 <= r < g.len() implies row_occupied_count(#[trigger] right_step(g)[r])
        == row_occupied_count(g[r]) by {
        let n = g[r].len() as int;
        lemma_right_row_count_prefix(g, r, n);
        assert(right_row(g, r).take(n) =~= right_row(g, r));
        assert(g[r].take(n) =~= g[r]);
    }
    lemma_grid_count_rowwise(right_step(g), g);
}

/// Gravity is a fixed point: once no cell has an empty cell directly beneath
/// it, a gravity tick leaves the grid unchanged.
pub proof fn lemma_gravity_fixed_point<T>(g: Seq<Seq<Option<T>>>)
    requires
        rows_uniform(g),
        forall|r: int, c: int|
            0 <= r < g.len() - 1 && 0 <= c < row_len(g) && #[trigger] g[r][c] is Some
                ==> g[r + 1][c] is Some,
    ensures
        gravity_step(g) =~~= g,
{
    assert forall|r: int, c: int|
        0 <= r < g.len() && 0 <= c < g[r].len() implies gravity_cell(g, r, c) == g[r][c] by {
        if empty_at_or_below(g, r, c) {
            if g[r][c] is Some {
                let r2 = choose|r2: int| r <= r2 < g.len() && g[r2][c] is None;
                lemma_solid_below(g, r, c, r2);
                assert(false);
            }
            if r > 0 && g[r - 1][c] is Some {
                assert(g[r][c] is Some);
            }
        }
    }
}

} // verus!
