//! Properties that hold of the simulation as a whole, stated over the spec
//! functions that the board's contracts use.
use crate::board::{overlay_tet, rotated, Board, TetrominoPosition};
use crate::physics::{gravity_step, lemma_gravity_fixed_point, row_len, rows_uniform};
use crate::tetrominos::{lemma_shape_extent, shape_left, shape_occupied, shape_right};
use vstd::prelude::*;

verus! {

/// Every occupied cell of a well-formed board lies within the grid: the
/// rendering snapshot has exactly `height` rows of `width` cells each, and
/// the active tetromino's occupied cells sit in columns within [0, width)
/// and at non-negative rows.
pub proof fn lemma_occupied_cells_in_bounds(b: &Board)
    requires
        b.wf(),
    ensures
        b.render().len() == b.height(),
        forall|r: int| 0 <= r < b.height() ==> #[trigger] b.render()[r].len() == b.width(),
        match b.tetromino {
            Some(t) => forall|r: int, c: int|
                #[trigger] shape_occupied(t.index as int, t.orientation as int, r, c) ==> 0 <= t.col
                    + c < b.width() && 0 <= t.row + r,
            None => true,
        },
{
    match b.tetromino {
        Some(t) => {
            lemma_shape_extent(t.index as int, t.orientation as int);
        },
        None => {},
    }
}

/// Rotating four times returns the tetromino to its original orientation,
/// kind and row, whatever wall clamps occurred along the way.
pub proof fn lemma_rotate_four_restores_orientation(t: TetrominoPosition, width: int)
    requires
        t.index < 7,
        t.orientation < 4,
    ensures
        ({
            let t4 = rotated(rotated(rotated(rotated(t, width), width), width), width);
            t4.orientation == t.orientation && t4.index == t.index && t4.row == t.row
        }),
{
}

/// When no wall clamp is needed in any of the four steps, rotating four
/// times returns the tetromino exactly to its original state, anchor
/// included.
pub proof fn lemma_rotate_four_restores_anchor(t: TetrominoPosition, width: int)
    requires
        t.index < 7,
        t.orientation < 4,
        forall|o: int| 0 <= o < 4 ==> t.col + #[trigger] shape_left(t.index as int, o) >= 0,
        forall|o: int| 0 <= o < 4 ==> t.col + #[trigger] shape_right(t.index as int, o) < width,
    ensures
        rotated(rotated(rotated(rotated(t, width), width), width), width) == t,
{
}

/// On a fully settled board, gravity is a fixed point: once no occupied
/// cell has an empty cell directly beneath it, the gravity tick inside
/// `advance` leaves the settled grid exactly as it is (and a tick with
/// nothing falling and no active tetromino only spawns, moving no cell).
pub proof fn lemma_settled_grid_is_stable(b: &Board)
    requires
        b.wf(),
        forall|r: int, c: int|
            0 <= r < b.height() - 1 && 0 <= c < b.width() && #[trigger] b.grid()[r][c] is Some
                ==> b.grid()[r + 1][c] is Some,
    ensures
        gravity_step(b.grid()) == b.grid(),
{
    let g = b.grid();
    assert(rows_uniform(g)) by {
        assert forall|r: int| 0 <= r < g.len() implies #[trigger] g[r].len() == row_len(g) by {
            assert(g[r] == b.cells@[r]@);
        }
    }
    assert(row_len(g) == b.width());
    lemma_gravity_fixed_point(g);
}

/// Dismantling is render-equivalent: merging the active tetromino's occupied
/// cells into the settled grid and then clearing it leaves the rendering
/// snapshot exactly as it was before the dismantle.
pub proof fn lemma_dismantle_render_equivalent(before: &Board, after: &Board)
    requires
        before.wf(),
        before.tetromino is Some,
        after.tetromino is None,
        after.grid() == overlay_tet(before.grid(), before.tetromino->Some_0),
    ensures
        after.render() == before.render(),
{
}

} // verus!
