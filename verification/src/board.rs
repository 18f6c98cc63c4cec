//! The board: a fixed-size grid of settled blocks, at most one active
//! tetromino, and a seeded random source used only to pick the kind of a
//! freshly spawned tetromino. All state changes go through `advance`, `left`,
//! `right` and `rotate`; `cells` produces the composite rendering snapshot.
use crate::physics::{
    any_cell_falling, cell_falling, empty_at_or_below, gravity_partial, gravity_step, left_cell,
    left_step, lemma_falling_depends_below, moved_left, moved_right, overlay, right_cell,
    right_step, tet_covers,
};
use crate::tetrominos::{
    lemma_shape_extent, lemma_shape_nonempty, leftmost_col, rightmost_col, shape_cell, shape_left,
    shape_occupied, shape_right, SHAPE_COUNT,
};
use rand::RngCore;
use vstd::prelude::*;

verus! {

/// One cell of the grid: empty, or a settled block of one color.
pub type Block = Option<Color>;

/// The display tag a block carries; each tetromino kind has a fixed color.
#[derive(Hash, Eq, PartialEq, Copy, Clone, Debug, Structural)]
pub enum Color {
    Cyan,
    Blue,
    Magenta,
    Yellow,
    Orange,
    Green,
    Red,
}

/// The color bound to tetromino kind `kind`.
pub open spec fn color_of_kind(kind: int) -> Color {
    if kind == 0 {
        Color::Cyan
    } else if kind == 1 {
        Color::Blue
    } else if kind == 2 {
        Color::Magenta
    } else if kind == 3 {
        Color::Yellow
    } else if kind == 4 {
        Color::Orange
    } else if kind == 5 {
        Color::Green
    } else {
        Color::Red
    }
}

/// Reads the catalog's color table.
pub fn kind_color(kind: usize) -> (c: Color)
    ensures
        c == color_of_kind(kind as int),
{
    if kind == 0 {
        Color::Cyan
    } else if kind == 1 {
        Color::Blue
    } else if kind == 2 {
        Color::Magenta
    } else if kind == 3 {
        Color::Yellow
    } else if kind == 4 {
        Color::Orange
    } else if kind == 5 {
        Color::Green
    } else {
        Color::Red
    }
}

/// The active tetromino: a catalog index, an orientation, and the anchor of
/// its 4x4 bounding box. The anchor column is signed because the box's empty
/// left padding may hang over the left wall.
#[derive(Copy, Clone, Debug)]
pub struct TetrominoPosition {
    pub index: usize,
    pub col: isize,
    pub row: isize,
    pub orientation: usize,
}

/// Declares rand's `StdRng` so a board can hold its random source; the type
/// stays opaque to the verifier.
#[verifier::external_type_specification]
#[verifier::external_body]
pub struct ExStdRng(rand::rngs::StdRng);

/// Relies on rand's `RngCore::next_u32` for `StdRng`: draws one value from
/// the generator, advancing its state. Nothing is promised of the value.
#[verifier::external_body]
fn draw_u32(rng: &mut rand::rngs::StdRng) -> u32 {
    rng.next_u32()
}

/// The tetromino is falling on grid `g`: every one of its occupied cells is
/// falling there. It is blocked the instant any occupied cell has no empty
/// cell beneath it.
pub open spec fn tet_falling(g: Seq<Seq<Block>>, t: TetrominoPosition) -> bool {
    forall|r: int, c: int|
        shape_occupied(t.index as int, t.orientation as int, r, c) ==> cell_falling(
            g,
            t.row + r,
            t.col + c,
        )
}

/// The active tetromino one row further down.
pub open spec fn shifted_down(t: TetrominoPosition) -> TetrominoPosition {
    TetrominoPosition { row: (t.row + 1) as isize, ..t }
}

/// The optional active tetromino one row further down.
pub open spec fn shift_down_opt(t: Option<TetrominoPosition>) -> Option<TetrominoPosition> {
    match t {
        Some(t) => Some(shifted_down(t)),
        None => None,
    }
}

/// Position (r, c) is strictly before (lr, lc) in row-major order.
spec fn lex_before(r: int, c: int, lr: int, lc: int) -> bool {
    r < lr || (r == lr && c < lc)
}

/// The grid in the middle of a dismantle: the tetromino's occupied cells
/// whose local position comes before (lr, lc) in row-major order have been
/// merged in; the rest of the grid still holds `g0`.
spec fn dismantle_partial(
    g0: Seq<Seq<Block>>,
    t: TetrominoPosition,
    lr: int,
    lc: int,
    r: int,
    c: int,
) -> Block {
    if tet_covers(t.index as int, t.orientation as int, t.row as int, t.col as int, r, c)
        && lex_before(r - t.row, c - t.col, lr, lc) {
        Some(color_of_kind(t.index as int))
    } else {
        g0[r][c]
    }
}

/// The grid with the tetromino's occupied cells merged in, carrying its
/// kind's color.
pub open spec fn overlay_tet(g: Seq<Seq<Block>>, t: TetrominoPosition) -> Seq<Seq<Block>> {
    overlay(
        g,
        color_of_kind(t.index as int),
        t.index as int,
        t.orientation as int,
        t.row as int,
        t.col as int,
    )
}

/// The tetromino after one rotation step: the orientation cycles, then the
/// anchor column is clamped so that the new orientation's occupied cells fit
/// inside a board `width` columns wide. If the leftmost occupied cell would
/// land left of the wall, the anchor shifts right by exactly the deficit; if
/// the rightmost would pass the right wall, it shifts left by exactly the
/// excess.
pub open spec fn rotated(t: TetrominoPosition, width: int) -> TetrominoPosition {
    let o2 = (t.orientation as int + 1) % 4;
    let c1: int = if t.col + shape_left(t.index as int, o2) < 0 {
        -shape_left(t.index as int, o2)
    } else {
        t.col as int
    };
    let c2: int = if c1 + shape_right(t.index as int, o2) >= width {
        width - 1 - shape_right(t.index as int, o2)
    } else {
        c1
    };
    TetrominoPosition {
        index: t.index,
        orientation: o2 as usize,
        row: t.row,
        col: c2 as isize,
    }
}

/// The whole simulation state.
#[derive(Debug)]
pub struct Board {
    pub cells: Vec<Vec<Block>>,
    pub tetromino: Option<TetrominoPosition>,
    pub rng: rand::rngs::StdRng,
}

impl Board {
    /// The number of rows.
    pub open spec fn height(&self) -> int {
        self.cells@.len() as int
    }

    /// The number of columns.
    pub open spec fn width(&self) -> int {
        self.cells@[0]@.len() as int
    }

    /// The settled grid as a sequence of rows.
    pub open spec fn grid(&self) -> Seq<Seq<Block>> {
        Seq::new(self.cells@.len(), |r: int| self.cells@[r]@)
    }

    /// The grid's shape never changes after construction. The bounds keep
    /// anchor coordinates well inside `isize` on every target.
    pub open spec fn grid_wf(&self) -> bool {
        &&& 1 <= self.height() <= 0x1000_0000
        &&& 4 <= self.width() <= 0x1000_0000
        &&& forall|r: int| 0 <= r < self.height() ==> self.cells@[r]@.len() == self.width()
    }

    /// While a tetromino is active, its occupied cells lie within the grid's
    /// columns, and its anchor row has not run past the floor row.
    pub open spec fn tet_wf(&self, t: TetrominoPosition) -> bool {
        &&& t.index < 7
        &&& t.orientation < 4
        &&& 0 <= t.row <= self.height()
        &&& t.col + shape_left(t.index as int, t.orientation as int) >= 0
        &&& t.col + shape_right(t.index as int, t.orientation as int) < self.width()
    }

    /// The board's invariant: established by `new`, preserved by every
    /// command.
    pub open spec fn wf(&self) -> bool {
        &&& self.grid_wf()
        &&& match self.tetromino {
            Some(t) => self.tet_wf(t),
            None => true,
        }
    }

    /// The rendering snapshot: the settled grid with the active tetromino's
    /// occupied cells overlaid, carrying its kind's color.
    pub open spec fn render(&self) -> Seq<Seq<Block>> {
        match self.tetromino {
            Some(t) => overlay(
                self.grid(),
                color_of_kind(t.index as int),
                t.index as int,
                t.orientation as int,
                t.row as int,
                t.col as int,
            ),
            None => self.grid(),
        }
    }

    /// Like `tet_wf`, but with the anchor row allowed one past its resting
    /// bound: the state in the middle of a tick, after the descent and
    /// before the landing check.
    pub open spec fn tet_wf_descended(&self, t: TetrominoPosition) -> bool {
        &&& t.index < 7
        &&& t.orientation < 4
        &&& 0 <= t.row <= self.height() + 1
        &&& t.col + shape_left(t.index as int, t.orientation as int) >= 0
        &&& t.col + shape_right(t.index as int, t.orientation as int) < self.width()
    }

    /// Builds a board from its initial settled cells and a seeded random
    /// source; no tetromino is active. The grid must be rectangular, at
    /// least 1 row high and 4 columns wide.
    pub fn new(cells: Vec<Vec<Block>>, rng: rand::rngs::StdRng) -> (b: Board)
        requires
            1 <= cells@.len() <= 0x1000_0000,
            4 <= cells@[0]@.len() <= 0x1000_0000,
            forall|r: int| 0 <= r < cells@.len() ==> #[trigger] cells@[r]@.len() == cells@[0]@.len(),
        ensures
            b.wf(),
            b.cells@ == cells@,
            b.tetromino is None,
    {
        Board { cells, tetromino: None, rng }
    }

    /// The settled block at (row, col) is falling: some cell strictly below
    /// it in its column is empty.
    fn is_falling(&self, row: usize, col: usize) -> (b: bool)
        requires
            self.grid_wf(),
            col < self.width(),
            row <= self.height() + 4,
        ensures
            b == cell_falling(self.grid(), row as int, col as int),
    {
        let height: usize = self.cells.len();
        let mut r: usize = row + 1;
        while r < height
            invariant
                self.grid_wf(),
                col < self.width(),
                row < r,
                height == self.height(),
                forall|r2: int| row < r2 < r ==> !(self.grid()[r2][col as int] is None),
            decreases height - r,
        {
            if self.cells[r][col].is_none() {
                assert(self.grid()[r as int] == self.cells@[r as int]@);
                assert(self.grid()[r as int][col as int] is None);
                return true;
            }
            r += 1;
        }
        false
    }

    /// Some settled block of the grid is falling.
    fn falling_blocks(&self) -> (b: bool)
        requires
            self.grid_wf(),
        ensures
            b == any_cell_falling(self.grid()),
    {
        let height: usize = self.cells.len();
        let width: usize = self.cells[0].len();
        let mut row: usize = 0;
        while row < height
            invariant
                self.grid_wf(),
                width == self.width(),
                row <= height,
                height == self.height(),
                forall|r: int, c: int|
                    0 <= r < row && 0 <= c < width ==> !(#[trigger] self.grid()[r][c] is Some
                        && cell_falling(self.grid(), r, c)),
            decreases height - row,
        {
            let mut col: usize = 0;
            while col < width
                invariant
                    self.grid_wf(),
                    width == self.width(),
                    row < height,
                    col <= width,
                    height == self.height(),
                    forall|r: int, c: int|
                        0 <= r < row && 0 <= c < width ==> !(#[trigger] self.grid()[r][c] is Some
                            && cell_falling(self.grid(), r, c)),
                    forall|c: int|
                        0 <= c < col ==> !(#[trigger] self.grid()[row as int][c] is Some
                            && cell_falling(self.grid(), row as int, c)),
                decreases width - col,
            {
                if self.cells[row][col].is_some() && self.is_falling(row, col) {
                    return true;
                }
                col += 1;
            }
            row += 1;
        }
        false
    }

    /// A tetromino is active.
    fn falling_tetromino(&self) -> (b: bool)
        ensures
            b == (self.tetromino is Some),
    {
        match self.tetromino {
            Some(_) => true,
            None => false,
        }
    }

    /// The active tetromino is falling: all of its occupied cells are.
    fn is_tetromino_falling(&self) -> (b: bool)
        requires
            self.grid_wf(),
            match self.tetromino {
                Some(t) => self.tet_wf_descended(t),
                None => true,
            },
        ensures
            b == match self.tetromino {
                Some(t) => tet_falling(self.grid(), t),
                None => false,
            },
    {
        match self.tetromino {
            Some(t) => {
                proof {
                    lemma_shape_extent(t.index as int, t.orientation as int);
                }
                let mut col: usize = 0;
                while col < 4
                    invariant
                        self.grid_wf(),
                        self.tetromino == Some(t),
                        self.tet_wf_descended(t),
                        col <= 4,
                        forall|r2: int, c2: int|
                            #[trigger] shape_occupied(t.index as int, t.orientation as int, r2, c2)
                                && c2 < col ==> cell_falling(self.grid(), t.row + r2, t.col + c2),
                    decreases 4 - col,
                {
                    let mut row: usize = 0;
                    while row < 4
                        invariant
                            self.grid_wf(),
                            self.tetromino == Some(t),
                            self.tet_wf_descended(t),
                            col < 4,
                            row <= 4,
                            forall|r2: int, c2: int|
                                #[trigger] shape_occupied(
                                    t.index as int,
                                    t.orientation as int,
                                    r2,
                                    c2,
                                ) && c2 < col ==> cell_falling(self.grid(), t.row + r2, t.col + c2),
                            forall|r2: int|
                                #[trigger] shape_occupied(
                                    t.index as int,
                                    t.orientation as int,
                                    r2,
                                    col as int,
                                ) && r2 < row ==> cell_falling(
                                    self.grid(),
                                    t.row + r2,
                                    t.col + col as int,
                                ),
                        decreases 4 - row,
                    {
                        if shape_cell(t.index, t.orientation, row, col) {
                            proof {
                                lemma_shape_extent(t.index as int, t.orientation as int);
                            }
                            let ar: isize = t.row + row as isize;
                            let ac: isize = t.col + col as isize;
                            if !self.is_falling(ar as usize, ac as usize) {
                                proof {
                                    assert(ar as usize as int == t.row + row as int);
                                    assert(ac as usize as int == t.col + col as int);
                                    assert(shape_occupied(
                                        t.index as int,
                                        t.orientation as int,
                                        row as int,
                                        col as int,
                                    ) && !cell_falling(
                                        self.grid(),
                                        t.row + row as int,
                                        t.col + col as int,
                                    ));
                                    assert(self.tetromino == Some(t));
                                    assert(!tet_falling(self.grid(), t));
                                }
                                return false;
                            }
                        }
                        row += 1;
                    }
                    col += 1;
                }
                true
            },
            None => false,
        }
    }

    /// The rendering snapshot: a copy of the settled grid with the active
    /// tetromino's occupied cells overlaid, carrying its kind's color.
    /// Positions of the tetromino outside the grid are skipped.
    /// The content of one cell of the rendering snapshot: the settled block
    /// there, unless the active tetromino covers the position.
    fn rendered_cell(&self, row: usize, col: usize) -> (v: Block)
        requires
            row < self.cells@.len(),
            col < self.cells@[row as int]@.len(),
        ensures
            v == self.render()[row as int][col as int],
    {
        let mut cell: Block = self.cells[row][col];
        match self.tetromino {
            Some(t) => {
                let lr: i128 = row as i128 - t.row as i128;
                let lc: i128 = col as i128 - t.col as i128;
                if 0 <= lr && lr < 4 && 0 <= lc && lc < 4 && shape_cell(
                    t.index,
                    t.orientation,
                    lr as usize,
                    lc as usize,
                ) {
                    cell = Some(kind_color(t.index));
                }
            },
            None => {},
        }
        cell
    }

    pub fn cells(&self) -> (out: Vec<Vec<Block>>)
        requires
            self.wf(),
        ensures
            out@.len() == self.render().len(),
            forall|r: int| 0 <= r < out@.len() ==> #[trigger] out@[r]@ == self.render()[r],
    {
        let height: usize = self.cells.len();
        let width: usize = self.cells[0].len();
        let mut out: Vec<Vec<Block>> = Vec::new();
        let mut row: usize = 0;
        while row < height
            invariant
                self.wf(),
                height == self.height(),
                width == self.width(),
                row <= height,
                out@.len() == row,
                forall|r: int| 0 <= r < row ==> #[trigger] out@[r]@ == self.render()[r],
            decreases height - row,
        {
            let mut line: Vec<Block> = Vec::new();
            let mut col: usize = 0;
            while col < width
                invariant
                    self.wf(),
                    height == self.height(),
                    width == self.width(),
                    row < height,
                    col <= width,
                    line@.len() == col,
                    forall|c: int| 0 <= c < col ==> #[trigger] line@[c] == self.render()[row as int][c],
                decreases width - col,
            {
                let cell: Block = self.rendered_cell(row, col);
                proof {
                    assert(self.render()[row as int].len() == width);
                }
                line.push(cell);
                col += 1;
            }
            proof {
                assert(line@ =~= self.render()[row as int]);
            }
            out.push(line);
            row += 1;
        }
        out
    }

    /// One gravity tick for the settled blocks: a single bottom-to-top sweep
    /// in which every block whose cell directly beneath is empty moves down
    /// one row. A stack above a gap closes on it one row per tick.
    fn blocks_down(&mut self)
        requires
            old(self).grid_wf(),
        ensures
            final(self).grid_wf(),
            final(self).grid() == gravity_step(old(self).grid()),
            final(self).tetromino == old(self).tetromino,
            final(self).rng == old(self).rng,
    {
        let ghost g0 = old(self).grid();
        let height: usize = self.cells.len();
        let width: usize = self.cells[0].len();
        let mut row: usize = height - 1;
        proof {
            assert forall|c: int| 0 <= c < width implies self.grid()[row as int][c]
                == gravity_partial(g0, row as int, row as int, c) by {
                if empty_at_or_below(g0, row as int, c) {
                    let r2 = choose|r2: int| row <= r2 < g0.len() && g0[r2][c] is None;
                    assert(g0[row as int][c] is None);
                }
            }
        }
        while row > 0
            invariant
                self.grid_wf(),
                height == self.height(),
                width == self.width(),
                row <= height - 1,
                g0 == old(self).grid(),
                g0.len() == height,
                forall|r: int| 0 <= r < height ==> #[trigger] g0[r].len() == width,
                self.tetromino == old(self).tetromino,
                self.rng == old(self).rng,
                forall|r: int, c: int|
                    0 <= r < row && 0 <= c < width ==> self.grid()[r][c] == g0[r][c],
                forall|r: int, c: int|
                    row <= r < height && 0 <= c < width ==> self.grid()[r][c] == gravity_partial(
                        g0,
                        row as int,
                        r,
                        c,
                    ),
            decreases row,
        {
            row -= 1;
            let mut col: usize = 0;
            while col < width
                invariant
                    self.grid_wf(),
                    height == self.height(),
                    width == self.width(),
                    row <= height - 2,
                    col <= width,
                    g0 == old(self).grid(),
                    g0.len() == height,
                    forall|r: int| 0 <= r < height ==> #[trigger] g0[r].len() == width,
                    self.tetromino == old(self).tetromino,
                    self.rng == old(self).rng,
                    forall|r: int, c: int|
                        0 <= r < row && 0 <= c < width ==> self.grid()[r][c] == g0[r][c],
                    forall|r: int, c: int|
                        row <= r < height && 0 <= c < col ==> self.grid()[r][c] == gravity_partial(
                            g0,
                            row as int,
                            r,
                            c,
                        ),
                    forall|c: int|
                        col <= c < width ==> self.grid()[row as int][c] == g0[row as int][c],
                    forall|r: int, c: int|
                        row + 1 <= r < height && col <= c < width ==> self.grid()[r][c]
                            == gravity_partial(g0, row as int + 1, r, c),
                decreases width - col,
            {
                let ghost gpre = self.grid();
                let occupied_here = self.cells[row][col].is_some();
                let empty_below = self.cells[row + 1][col].is_none();
                if occupied_here && empty_below {
                    let v: Block = self.cells[row][col];
                    self.cells[row + 1][col] = v;
                    self.cells[row][col] = None;
                }
                proof {
                    let r0 = row as int;
                    let c0 = col as int;
                    // the settled state of the two touched cells matches the
                    // sweep having reached this row in this column
                    if gpre[r0][c0] is Some && gpre[r0 + 1][c0] is None {
                        if !empty_at_or_below(g0, r0 + 1, c0) {
                            assert(gpre[r0 + 1][c0] == g0[r0 + 1][c0]);
                            assert(empty_at_or_below(g0, r0 + 1, c0));
                        }
                        let r2 = choose|r2: int| r0 + 1 <= r2 < g0.len() && g0[r2][c0] is None;
                        assert(r0 <= r2 < g0.len() && g0[r2][c0] is None);
                        assert(empty_at_or_below(g0, r0, c0));
                    } else {
                        if gpre[r0][c0] is None {
                            assert(g0[r0][c0] is None);
                            assert(empty_at_or_below(g0, r0, c0));
                        } else {
                            assert(!empty_at_or_below(g0, r0 + 1, c0));
                            if empty_at_or_below(g0, r0, c0) {
                                let r2 = choose|r2: int|
                                    r0 <= r2 < g0.len() && g0[r2][c0] is None;
                                if r2 == r0 {
                                    assert(g0[r0][c0] is None);
                                } else {
                                    assert(empty_at_or_below(g0, r0 + 1, c0));
                                }
                                assert(false);
                            }
                        }
                    }
                    assert forall|r: int, c: int|
                        row <= r < height && 0 <= c < col + 1 implies self.grid()[r][c]
                        == gravity_partial(g0, row as int, r, c) by {
                        if c == c0 {
                            if r > r0 + 1 {
                                assert(self.grid()[r][c] == gpre[r][c]);
                            }
                        } else {
                            assert(self.grid()[r][c] == gpre[r][c]);
                        }
                    }
                    assert forall|r: int, c: int|
                        0 <= r < row && 0 <= c < width implies self.grid()[r][c] == g0[r][c] by {
                        assert(self.grid()[r][c] == gpre[r][c]);
                    }
                    assert forall|c: int|
                        col + 1 <= c < width implies self.grid()[row as int][c] == g0[row as int][c]
                        by {
                        assert(self.grid()[row as int][c] == gpre[row as int][c]);
                    }
                    assert forall|r: int, c: int|
                        row + 1 <= r < height && col + 1 <= c < width implies self.grid()[r][c]
                        == gravity_partial(g0, row as int + 1, r, c) by {
                        assert(self.grid()[r][c] == gpre[r][c]);
                    }
                }
                col += 1;
            }
        }
        proof {
            assert forall|r: int| 0 <= r < height implies self.grid()[r] == gravity_step(g0)[r] by {
                assert(self.grid()[r] =~= gravity_step(g0)[r]);
            }
            assert(self.grid() =~= gravity_step(g0));
        }
    }

    /// One left-shift pass over the settled blocks: every falling block whose
    /// left neighbour is empty (or has just moved itself) moves one column to
    /// the left; columns are visited in increasing order so no block moves
    /// twice. Blocks in the leftmost column and settled blocks never move.
    fn blocks_left(&mut self)
        requires
            old(self).grid_wf(),
        ensures
            final(self).grid_wf(),
            final(self).grid() == left_step(old(self).grid()),
            final(self).tetromino == old(self).tetromino,
            final(self).rng == old(self).rng,
    {
        let ghost g0 = old(self).grid();
        let height: usize = self.cells.len();
        let width: usize = self.cells[0].len();
        let mut row: usize = 0;
        while row < height
            invariant
                self.grid_wf(),
                height == self.height(),
                width == self.width(),
                row <= height,
                g0 == old(self).grid(),
                g0.len() == height,
                forall|r: int| 0 <= r < height ==> #[trigger] g0[r].len() == width,
                self.tetromino == old(self).tetromino,
                self.rng == old(self).rng,
                forall|r: int, c: int|
                    0 <= r < row && 0 <= c < width ==> self.grid()[r][c] == left_cell(g0, r, c),
                forall|r: int, c: int|
                    row <= r < height && 0 <= c < width ==> self.grid()[r][c] == g0[r][c],
            decreases height - row,
        {
            let mut col: usize = 0;
            while col < width
                invariant
                    self.grid_wf(),
                    height == self.height(),
                    width == self.width(),
                    row < height,
                    col <= width,
                    g0 == old(self).grid(),
                    g0.len() == height,
                    forall|r: int| 0 <= r < height ==> #[trigger] g0[r].len() == width,
                    self.tetromino == old(self).tetromino,
                    self.rng == old(self).rng,
                    forall|r: int, c: int|
                        0 <= r < row && 0 <= c < width ==> self.grid()[r][c] == left_cell(g0, r, c),
                    forall|r: int, c: int|
                        row < r < height && 0 <= c < width ==> self.grid()[r][c] == g0[r][c],
                    forall|c: int|
                        0 <= c < width ==> self.grid()[row as int][c] == (if c + 1 < col {
                            left_cell(g0, row as int, c)
                        } else if c + 1 == col {
                            if moved_left(g0, row as int, c) {
                                None
                            } else {
                                g0[row as int][c]
                            }
                        } else {
                            g0[row as int][c]
                        }),
                decreases width - col,
            {
                if col != 0 {
                    let ghost gpre = self.grid();
                    proof {
                        assert forall|r2: int| row < r2 < g0.len() implies gpre[r2][col as int]
                            == g0[r2][col as int] by {}
                        lemma_falling_depends_below(gpre, g0, row as int, col as int);
                        assert(gpre[row as int] == self.cells@[row as int]@);
                        assert(gpre[row as int][col as int] == g0[row as int][col as int]);
                        assert(gpre[row as int][col as int - 1] == (if moved_left(
                            g0,
                            row as int,
                            col as int - 1,
                        ) {
                            None
                        } else {
                            g0[row as int][col as int - 1]
                        }));
                    }
                    if self.is_falling(row, col) {
                        let occupied_here = self.cells[row][col].is_some();
                        let left_empty = self.cells[row][col - 1].is_none();
                        if occupied_here && left_empty {
                            proof {
                                assert(g0[row as int][col as int] is Some);
                                assert(cell_falling(g0, row as int, col as int));
                                assert(g0[row as int][col as int - 1] is None || moved_left(
                                    g0,
                                    row as int,
                                    col as int - 1,
                                ));
                                assert(moved_left(g0, row as int, col as int));
                            }
                            let v: Block = self.cells[row][col];
                            self.cells[row][col - 1] = v;
                            self.cells[row][col] = None;
                        } else {
                            proof {
                                assert(!moved_left(g0, row as int, col as int));
                            }
                        }
                    } else {
                        proof {
                            assert(!cell_falling(g0, row as int, col as int));
                            assert(!moved_left(g0, row as int, col as int));
                        }
                    }
                }
                proof {
                    assert forall|c: int|
                        0 <= c < width implies self.grid()[row as int][c] == (if c + 1 < col + 1 {
                            left_cell(g0, row as int, c)
                        } else if c + 1 == col + 1 {
                            if moved_left(g0, row as int, c) {
                                None
                            } else {
                                g0[row as int][c]
                            }
                        } else {
                            g0[row as int][c]
                        }) by {}
                }
                col += 1;
            }
            proof {
                assert forall|c: int|
                    0 <= c < width implies self.grid()[row as int][c] == left_cell(
                    g0,
                    row as int,
                    c,
                ) by {}
            }
            row += 1;
        }
        proof {
            assert forall|r: int| 0 <= r < height implies self.grid()[r] == left_step(g0)[r] by {
                assert(self.grid()[r] =~= left_step(g0)[r]);
            }
            assert(self.grid() =~= left_step(g0));
        }
    }

    /// One right-shift pass over the settled blocks: every falling block
    /// whose right neighbour is empty (or has just moved itself) moves one
    /// column to the right; columns are visited in decreasing order so no
    /// block moves twice. Blocks in the rightmost column and settled blocks
    /// never move.
    fn blocks_right(&mut self)
        requires
            old(self).grid_wf(),
        ensures
            final(self).grid_wf(),
            final(self).grid() == right_step(old(self).grid()),
            final(self).tetromino == old(self).tetromino,
            final(self).rng == old(self).rng,
    {
        let ghost g0 = old(self).grid();
        let height: usize = self.cells.len();
        let width: usize = self.cells[0].len();
        let mut row: usize = 0;
        while row < height
            invariant
                self.grid_wf(),
                height == self.height(),
                width == self.width(),
                row <= height,
                g0 == old(self).grid(),
                g0.len() == height,
                forall|r: int| 0 <= r < height ==> #[trigger] g0[r].len() == width,
                self.tetromino == old(self).tetromino,
                self.rng == old(self).rng,
                forall|r: int, c: int|
                    0 <= r < row && 0 <= c < width ==> self.grid()[r][c] == right_cell(g0, r, c),
                forall|r: int, c: int|
                    row <= r < height && 0 <= c < width ==> self.grid()[r][c] == g0[r][c],
            decreases height - row,
        {
            let mut col: usize = width;
            while col > 0
                invariant
                    self.grid_wf(),
                    height == self.height(),
                    width == self.width(),
                    row < height,
                    col <= width,
                    g0 == old(self).grid(),
                    g0.len() == height,
                    forall|r: int| 0 <= r < height ==> #[trigger] g0[r].len() == width,
                    self.tetromino == old(self).tetromino,
                    self.rng == old(self).rng,
                    forall|r: int, c: int|
                        0 <= r < row && 0 <= c < width ==> self.grid()[r][c] == right_cell(
                            g0,
                            r,
                            c,
                        ),
                    forall|r: int, c: int|
                        row < r < height && 0 <= c < width ==> self.grid()[r][c] == g0[r][c],
                    forall|c: int|
                        0 <= c < width ==> self.grid()[row as int][c] == (if c >= col + 1 {
                            right_cell(g0, row as int, c)
                        } else if c == col {
                            if moved_right(g0, row as int, c) {
                                None
                            } else {
                                g0[row as int][c]
                            }
                        } else {
                            g0[row as int][c]
                        }),
                decreases col,
            {
                col -= 1;
                if col != width - 1 {
                    let ghost gpre = self.grid();
                    proof {
                        assert forall|r2: int| row < r2 < g0.len() implies gpre[r2][col as int]
                            == g0[r2][col as int] by {}
                        lemma_falling_depends_below(gpre, g0, row as int, col as int);
                        assert(gpre[row as int] == self.cells@[row as int]@);
                        assert(gpre[row as int][col as int] == g0[row as int][col as int]);
                        assert(gpre[row as int][col as int + 1] == (if moved_right(
                            g0,
                            row as int,
                            col as int + 1,
                        ) {
                            None
                        } else {
                            g0[row as int][col as int + 1]
                        }));
                    }
                    if self.is_falling(row, col) {
                        let occupied_here = self.cells[row][col].is_some();
                        let right_empty = self.cells[row][col + 1].is_none();
                        if occupied_here && right_empty {
                            proof {
                                assert(g0[row as int][col as int] is Some);
                                assert(cell_falling(g0, row as int, col as int));
                                assert(g0[row as int][col as int + 1] is None || moved_right(
                                    g0,
                                    row as int,
                                    col as int + 1,
                                ));
                                assert(moved_right(g0, row as int, col as int));
                            }
                            let v: Block = self.cells[row][col];
                            self.cells[row][col + 1] = v;
                            self.cells[row][col] = None;
                        } else {
                            proof {
                                assert(!moved_right(g0, row as int, col as int));
                            }
                        }
                    } else {
                        proof {
                            assert(!cell_falling(g0, row as int, col as int));
                            assert(!moved_right(g0, row as int, col as int));
                        }
                    }
                }
                proof {
                    assert forall|c: int|
                        0 <= c < width implies self.grid()[row as int][c] == (if c >= col + 1 {
                            right_cell(g0, row as int, c)
                        } else if c == col {
                            if moved_right(g0, row as int, c) {
                                None
                            } else {
                                g0[row as int][c]
                            }
                        } else {
                            g0[row as int][c]
                        }) by {}
                }
            }
            proof {
                assert forall|c: int|
                    0 <= c < width implies self.grid()[row as int][c] == right_cell(
                    g0,
                    row as int,
                    c,
                ) by {}
            }
            row += 1;
        }
        proof {
            assert forall|r: int| 0 <= r < height implies self.grid()[r] == right_step(g0)[r] by {
                assert(self.grid()[r] =~= right_step(g0)[r]);
            }
            assert(self.grid() =~= right_step(g0));
        }
    }

    /// The active tetromino descends one row, unconditionally. A no-op when
    /// none is active.
    fn tetromino_down(&mut self)
        requires
            old(self).grid_wf(),
            match old(self).tetromino {
                Some(t) => old(self).tet_wf(t),
                None => true,
            },
        ensures
            final(self).cells@ == old(self).cells@,
            final(self).rng == old(self).rng,
            final(self).tetromino == shift_down_opt(old(self).tetromino),
    {
        match self.tetromino {
            Some(t) => {
                self.tetromino = Some(
                    TetrominoPosition {
                        index: t.index,
                        col: t.col,
                        row: t.row + 1,
                        orientation: t.orientation,
                    },
                );
            },
            None => {},
        }
    }

    /// Merges every occupied cell of the active tetromino into the settled
    /// grid, carrying its color, then clears the active tetromino. Computed
    /// positions outside the grid are silently skipped. A no-op when none is
    /// active.
    fn dismantle_tetromino(&mut self)
        requires
            old(self).grid_wf(),
            match old(self).tetromino {
                Some(t) => old(self).tet_wf_descended(t),
                None => true,
            },
        ensures
            final(self).grid_wf(),
            final(self).rng == old(self).rng,
            match old(self).tetromino {
                Some(t) => final(self).grid() == overlay_tet(old(self).grid(), t)
                    && final(self).tetromino is None,
                None => *final(self) == *old(self),
            },
    {
        let ghost g0 = old(self).grid();
        match self.tetromino {
            Some(t) => {
                let ghost k = t.index as int;
                let ghost o = t.orientation as int;
                let height: usize = self.cells.len();
                let width: usize = self.cells[0].len();
                let color: Color = kind_color(t.index);
                let mut lr: usize = 0;
                while lr < 4
                    invariant
                        self.grid_wf(),
                        height == self.height(),
                        width == self.width(),
                        lr <= 4,
                        g0 == old(self).grid(),
                        g0.len() == height,
                        forall|r: int| 0 <= r < height ==> #[trigger] g0[r].len() == width,
                        self.tetromino == Some(t),
                        k == t.index as int,
                        o == t.orientation as int,
                        t.index < 7,
                        t.orientation < 4,
                        0 <= t.row <= height + 1,
                        -4 <= t.col <= width,
                        color == color_of_kind(k),
                        self.rng == old(self).rng,
                        forall|r: int, c: int|
                            0 <= r < height && 0 <= c < width ==> self.grid()[r][c]
                                == dismantle_partial(g0, t, lr as int, 0, r, c),
                    decreases 4 - lr,
                {
                    let mut lc: usize = 0;
                    while lc < 4
                        invariant
                            self.grid_wf(),
                            height == self.height(),
                            width == self.width(),
                            lr < 4,
                            lc <= 4,
                            g0 == old(self).grid(),
                            g0.len() == height,
                            forall|r: int| 0 <= r < height ==> #[trigger] g0[r].len() == width,
                            self.tetromino == Some(t),
                            k == t.index as int,
                            o == t.orientation as int,
                            t.index < 7,
                            t.orientation < 4,
                            0 <= t.row <= height + 1,
                            -4 <= t.col <= width,
                            color == color_of_kind(k),
                            self.rng == old(self).rng,
                            forall|r: int, c: int|
                                0 <= r < height && 0 <= c < width ==> self.grid()[r][c]
                                    == dismantle_partial(g0, t, lr as int, lc as int, r, c),
                        decreases 4 - lc,
                    {
                        let ghost gpre = self.grid();
                        if shape_cell(t.index, t.orientation, lr, lc) {
                            let br: isize = t.row + lr as isize;
                            let bc: isize = t.col + lc as isize;
                            if br >= 0 && bc >= 0 && br < height as isize && bc < width as isize {
                                self.cells[br as usize][bc as usize] = Some(color);
                                proof {
                                    assert(self.grid()[t.row + lr as int][t.col + lc as int]
                                        == Some(color));
                                }
                            }
                        }
                        proof {
                            assert forall|r: int, c: int|
                                0 <= r < height && 0 <= c < width implies self.grid()[r][c]
                                == dismantle_partial(g0, t, lr as int, lc as int + 1, r, c) by {
                                if r == t.row + lr as int && c == t.col + lc as int {
                                    if shape_occupied(k, o, lr as int, lc as int) {
                                        assert(self.grid()[r][c] == Some(color));
                                        assert(tet_covers(k, o, t.row as int, t.col as int, r, c));
                                        assert(lex_before(
                                            r - t.row,
                                            c - t.col,
                                            lr as int,
                                            lc as int + 1,
                                        ));
                                    } else {
                                        assert(self.grid()[r][c] == gpre[r][c]);
                                        assert(gpre[r][c] == dismantle_partial(
                                            g0,
                                            t,
                                            lr as int,
                                            lc as int,
                                            r,
                                            c,
                                        ));
                                        assert(!tet_covers(k, o, t.row as int, t.col as int, r, c));
                                    }
                                } else {
                                    assert(self.grid()[r][c] == gpre[r][c]);
                                    assert(gpre[r][c] == dismantle_partial(
                                        g0,
                                        t,
                                        lr as int,
                                        lc as int,
                                        r,
                                        c,
                                    ));
                                    assert(lex_before(
                                        r - t.row,
                                        c - t.col,
                                        lr as int,
                                        lc as int + 1,
                                    ) == lex_before(r - t.row, c - t.col, lr as int, lc as int));
                                }
                            }
                        }
                        lc += 1;
                    }
                    proof {
                        assert forall|r: int, c: int|
                            0 <= r < height && 0 <= c < width implies self.grid()[r][c]
                            == dismantle_partial(g0, t, lr as int + 1, 0, r, c) by {
                            assert(self.grid()[r][c] == dismantle_partial(
                                g0,
                                t,
                                lr as int,
                                4,
                                r,
                                c,
                            ));
                            if tet_covers(k, o, t.row as int, t.col as int, r, c) {
                                assert(0 <= c - t.col < 4);
                            }
                        }
                    }
                    lr += 1;
                }
                self.tetromino = None;
                proof {
                    assert forall|r: int| 0 <= r < height implies self.grid()[r] == overlay_tet(
                        g0,
                        t,
                    )[r] by {
                        assert forall|c: int|
                            0 <= c < width implies self.grid()[r][c] == overlay_tet(g0, t)[r][c] by {
                            assert(self.grid()[r][c] == dismantle_partial(g0, t, 4, 0, r, c));
                            if tet_covers(k, o, t.row as int, t.col as int, r, c) {
                                assert(0 <= r - t.row < 4);
                            }
                        }
                        assert(self.grid()[r] =~= overlay_tet(g0, t)[r]);
                    }
                    assert(self.grid() =~= overlay_tet(g0, t));
                }
            },
            None => {},
        }
    }

    /// Spawns a fresh tetromino: a kind drawn from the random source, in its
    /// first orientation, at the top row, horizontally centered (anchor
    /// column WIDTH / 2 - 2 for the 4-wide bounding box). The random source
    /// advances by exactly one draw.
    fn spawn_tetromino(&mut self)
        requires
            old(self).grid_wf(),
        ensures
            final(self).wf(),
            final(self).cells@ == old(self).cells@,
            final(self).grid() == old(self).grid(),
            final(self).tetromino matches Some(t) && t.index < 7 && t.orientation == 0 && t.row
                == 0 && t.col == old(self).width() / 2 - 2,
    {
        let drawn = draw_u32(&mut self.rng);
        let index: usize = (drawn as usize) % SHAPE_COUNT;
        let width: usize = self.cells[0].len();
        let start: usize = width / 2 - 2;
        self.tetromino = Some(
            TetrominoPosition { index, col: start as isize, row: 0, orientation: 0 },
        );
        proof {
            lemma_shape_extent(index as int, 0);
            assert(self.grid() =~= old(self).grid());
        }
    }

    /// Moves the active tetromino one column to the left, unless its
    /// leftmost occupied cell already touches the left wall. Only the wall
    /// bounds the move; settled blocks do not. A no-op when none is active.
    fn tetromino_left(&mut self)
        requires
            old(self).wf(),
        ensures
            final(self).wf(),
            final(self).cells@ == old(self).cells@,
            final(self).grid() == old(self).grid(),
            final(self).rng == old(self).rng,
            final(self).tetromino == match old(self).tetromino {
                Some(t) => if t.col + shape_left(t.index as int, t.orientation as int) > 0 {
                    Some(
                        (TetrominoPosition {
                            index: t.index,
                            col: (t.col - 1) as isize,
                            row: t.row,
                            orientation: t.orientation,
                        }),
                    )
                } else {
                    Some(t)
                },
                None => None,
            },
    {
        proof {
            assert(self.grid() =~= old(self).grid());
        }
        match self.tetromino {
            Some(t) => {
                let most_left: usize = leftmost_col(t.index, t.orientation);
                let position: isize = t.col + most_left as isize;
                if position > 0 {
                    self.tetromino = Some(
                        TetrominoPosition {
                            index: t.index,
                            col: t.col - 1,
                            row: t.row,
                            orientation: t.orientation,
                        },
                    );
                }
            },
            None => {},
        }
    }

    /// Moves the active tetromino one column to the right, unless its
    /// rightmost occupied cell already touches the right wall. Only the wall
    /// bounds the move; settled blocks do not. A no-op when none is active.
    fn tetromino_right(&mut self)
        requires
            old(self).wf(),
        ensures
            final(self).wf(),
            final(self).cells@ == old(self).cells@,
            final(self).grid() == old(self).grid(),
            final(self).rng == old(self).rng,
            final(self).tetromino == match old(self).tetromino {
                Some(t) => if t.col + shape_right(t.index as int, t.orientation as int)
                    < old(self).width() - 1 {
                    Some(
                        (TetrominoPosition {
                            index: t.index,
                            col: (t.col + 1) as isize,
                            row: t.row,
                            orientation: t.orientation,
                        }),
                    )
                } else {
                    Some(t)
                },
                None => None,
            },
    {
        proof {
            assert(self.grid() =~= old(self).grid());
        }
        match self.tetromino {
            Some(t) => {
                proof {
                    lemma_shape_extent(t.index as int, t.orientation as int);
                }
                let width: usize = self.cells[0].len();
                let most_right: usize = rightmost_col(t.index, t.orientation);
                let position: isize = t.col + most_right as isize;
                if (position as usize) < width - 1 {
                    self.tetromino = Some(
                        TetrominoPosition {
                            index: t.index,
                            col: t.col + 1,
                            row: t.row,
                            orientation: t.orientation,
                        },
                    );
                }
            },
            None => {},
        }
    }

    /// Cycles the active tetromino to its next orientation and clamps its
    /// anchor so the new footprint stays inside the grid's columns. This is a
    /// plain fit-inside-the-walls clamp, not a collision-aware kick against
    /// settled blocks. A no-op when none is active.
    pub fn rotate(&mut self)
        requires
            old(self).wf(),
        ensures
            final(self).wf(),
            final(self).cells@ == old(self).cells@,
            final(self).grid() == old(self).grid(),
            final(self).rng == old(self).rng,
            final(self).tetromino == match old(self).tetromino {
                Some(t) => Some(rotated(t, old(self).width())),
                None => None,
            },
    {
        proof {
            assert(self.grid() =~= old(self).grid());
        }
        match self.tetromino {
            Some(t) => {
                let width: usize = self.cells[0].len();
                let next_orientation: usize = (t.orientation + 1) % 4;
                let most_left: usize = leftmost_col(t.index, next_orientation);
                let most_right: usize = rightmost_col(t.index, next_orientation);
                proof {
                    lemma_shape_extent(t.index as int, next_orientation as int);
                }
                let mut new_col: isize = t.col;
                if new_col + (most_left as isize) < 0 {
                    new_col = -(most_left as isize);
                }
                if new_col + (most_right as isize) >= width as isize {
                    new_col = width as isize - 1 - most_right as isize;
                }
                self.tetromino = Some(
                    TetrominoPosition {
                        index: t.index,
                        col: new_col,
                        row: t.row,
                        orientation: next_orientation,
                    },
                );
            },
            None => {},
        }
    }

    /// One gravity tick: the active tetromino descends one row, every
    /// falling settled block descends one row, and if the tetromino is no
    /// longer falling afterwards it dismantles into the settled grid.
    fn down(&mut self)
        requires
            old(self).wf(),
        ensures
            final(self).wf(),
            final(self).rng == old(self).rng,
            ({
                let g1 = gravity_step(old(self).grid());
                match shift_down_opt(old(self).tetromino) {
                    Some(t) => if !tet_falling(g1, t) {
                        final(self).grid() == overlay_tet(g1, t) && final(self).tetromino is None
                    } else {
                        final(self).grid() == g1 && final(self).tetromino == Some(t)
                    },
                    None => final(self).grid() == g1 && final(self).tetromino is None,
                }
            }),
    {
        self.tetromino_down();
        self.blocks_down();
        proof {
            let g0 = old(self).grid();
            assert(self.grid() == gravity_step(g0));
            assert(self.grid().len() == g0.len());
            assert(self.grid()[0].len() == g0[0].len());
            assert(self.height() == old(self).height());
            assert(self.width() == old(self).width());
            match old(self).tetromino {
                Some(t0) => {
                    let t1 = shifted_down(t0);
                    assert(t1.row == t0.row + 1);
                    assert(self.tet_wf_descended(t1));
                },
                None => {},
            }
        }
        if !self.is_tetromino_falling() {
            self.dismantle_tetromino();
        } else {
            proof {
                let t = self.tetromino->Some_0;
                lemma_shape_nonempty(t.index as int, t.orientation as int);
                let (r, c) = choose|r: int, c: int|
                    shape_occupied(t.index as int, t.orientation as int, r, c);
                assert(cell_falling(self.grid(), t.row + r, t.col + c));
                let r2 = choose|r2: int|
                    t.row + r < r2 < self.grid().len() && self.grid()[r2][t.col + c] is None;
                assert(t.row <= self.height());
            }
        }
    }

    /// One simulation tick. While anything is falling (a settled block or
    /// the active tetromino) the board performs one gravity tick; otherwise
    /// the board is fully settled and a new tetromino spawns, with no cell
    /// movement on that tick.
    pub fn advance(&mut self)
        requires
            old(self).wf(),
        ensures
            final(self).wf(),
            ({
                let g0 = old(self).grid();
                if any_cell_falling(g0) || old(self).tetromino is Some {
                    let g1 = gravity_step(g0);
                    &&& final(self).rng == old(self).rng
                    &&& match shift_down_opt(old(self).tetromino) {
                        Some(t) => if !tet_falling(g1, t) {
                            final(self).grid() == overlay_tet(g1, t)
                                && final(self).tetromino is None
                        } else {
                            final(self).grid() == g1 && final(self).tetromino == Some(t)
                        },
                        None => final(self).grid() == g1 && final(self).tetromino is None,
                    }
                } else {
                    &&& final(self).grid() == g0
                    &&& final(self).tetromino matches Some(t) && t.index < 7 && t.orientation == 0
                        && t.row == 0 && t.col == old(self).width() / 2 - 2
                }
            }),
    {
        if self.falling_blocks() || self.falling_tetromino() {
            self.down();
        } else {
            self.spawn_tetromino();
        }
    }

    /// Moves the active tetromino one column to the left (wall-bounded),
    /// then runs one left-shift pass over the falling settled blocks.
    pub fn left(&mut self)
        requires
            old(self).wf(),
        ensures
            final(self).wf(),
            final(self).rng == old(self).rng,
            final(self).grid() == left_step(old(self).grid()),
            final(self).tetromino == match old(self).tetromino {
                Some(t) => if t.col + shape_left(t.index as int, t.orientation as int) > 0 {
                    Some(
                        (TetrominoPosition {
                            index: t.index,
                            col: (t.col - 1) as isize,
                            row: t.row,
                            orientation: t.orientation,
                        }),
                    )
                } else {
                    Some(t)
                },
                None => None,
            },
    {
        self.tetromino_left();
        self.blocks_left();
        proof {
            let g0 = old(self).grid();
            assert(self.grid() == left_step(g0));
            assert(self.grid().len() == g0.len());
            assert(self.grid()[0].len() == g0[0].len());
            assert(self.height() == old(self).height());
            assert(self.width() == old(self).width());
        }
    }

    /// Moves the active tetromino one column to the right (wall-bounded),
    /// then runs one right-shift pass over the falling settled blocks.
    pub fn right(&mut self)
        requires
            old(self).wf(),
        ensures
            final(self).wf(),
            final(self).rng == old(self).rng,
            final(self).grid() == right_step(old(self).grid()),
            final(self).tetromino == match old(self).tetromino {
                Some(t) => if t.col + shape_right(t.index as int, t.orientation as int)
                    < old(self).width() - 1 {
                    Some(
                        (TetrominoPosition {
                            index: t.index,
                            col: (t.col + 1) as isize,
                            row: t.row,
                            orientation: t.orientation,
                        }),
                    )
                } else {
                    Some(t)
                },
                None => None,
            },
    {
        self.tetromino_right();
        self.blocks_right();
        proof {
            let g0 = old(self).grid();
            assert(self.grid() == right_step(g0));
            assert(self.grid().len() == g0.len());
            assert(self.grid()[0].len() == g0[0].len());
            assert(self.height() == old(self).height());
            assert(self.width() == old(self).width());
        }
    }
}

/// Whether two cells hold the same content.
fn block_eq(a: Block, b: Block) -> (r: bool)
    ensures
        r == (a == b),
{
    match (a, b) {
        (None, None) => true,
        (Some(x), Some(y)) => x == y,
        _ => false,
    }
}

impl PartialEq for Board {
    /// Two boards are equal when their rendering snapshots are: the settled
    /// grid with the active tetromino overlaid, compared cell by cell.
    fn eq(&self, other: &Board) -> (r: bool) {
        let height: usize = self.cells.len();
        if height != other.cells.len() {
            proof {
                assert(self.render().len() != other.render().len());
            }
            return false;
        }
        let mut row: usize = 0;
        while row < height
            invariant
                height == self.cells@.len(),
                height == other.cells@.len(),
                row <= height,
                forall|r: int| 0 <= r < row ==> #[trigger] self.render()[r] == other.render()[r],
            decreases height - row,
        {
            let width: usize = self.cells[row].len();
            if width != other.cells[row].len() {
                proof {
                    assert(self.render()[row as int].len() != other.render()[row as int].len());
                }
                return false;
            }
            let mut col: usize = 0;
            while col < width
                invariant
                    height == self.cells@.len(),
                    height == other.cells@.len(),
                    row < height,
                    width == self.cells@[row as int]@.len(),
                    width == other.cells@[row as int]@.len(),
                    col <= width,
                    forall|c: int|
                        0 <= c < col ==> #[trigger] self.render()[row as int][c]
                            == other.render()[row as int][c],
                decreases width - col,
            {
                if !block_eq(self.rendered_cell(row, col), other.rendered_cell(row, col)) {
                    proof {
                        assert(self.render()[row as int][col as int]
                            != other.render()[row as int][col as int]);
                        assert(self.render()[row as int].len() == width);
                        if self.render() == other.render() {
                            assert(self.render()[row as int] == other.render()[row as int]);
                        }
                    }
                    return false;
                }
                col += 1;
            }
            proof {
                assert(self.render()[row as int] =~= other.render()[row as int]);
            }
            row += 1;
        }
        proof {
            assert(self.render() =~= other.render());
        }
        true
    }
}

impl vstd::std_specs::cmp::PartialEqSpecImpl for Board {
    open spec fn obeys_eq_spec() -> bool {
        true
    }

    open spec fn eq_spec(&self, other: &Board) -> bool {
        self.render() == other.render()
    }
}

} // verus!
