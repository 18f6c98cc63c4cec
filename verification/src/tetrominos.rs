//! The tetromino catalog: 7 shapes, each with 4 pre-tabulated orientation
//! matrices inside a uniform 4x4 bounding box. Orientations are fixed data,
//! never computed by rotation at runtime, so every orientation's exact
//! footprint (including asymmetric offsets) is pinned down here.
use vstd::prelude::*;

verus! {

/// How many shapes the catalog holds.
pub const SHAPE_COUNT: usize = 7;

/// Occupancy of the 4x4 bounding box of shape `kind` in orientation
/// `orientation`, at local row `r` and local column `c`. Outside the box the
/// shape occupies nothing. Kinds are, in order: I, O, T, L, J, S, Z.
pub open spec fn shape_occupied(kind: int, orientation: int, r: int, c: int) -> bool {
    0 <= r < 4 && 0 <= c < 4 && {
        if kind == 0 {
            // I: a 1x4 bar
            if orientation == 0 {
                r == 1
            } else if orientation == 1 {
                c == 2
            } else if orientation == 2 {
                r == 2
            } else {
                c == 1
            }
        } else if kind == 1 {
            // O: a 2x2 square, identical in every orientation
            (r == 1 || r == 2) && (c == 1 || c == 2)
        } else if kind == 2 {
            // T
            if orientation == 0 {
                (r == 0 && c == 2) || (r == 1 && 1 <= c <= 3)
            } else if orientation == 1 {
                (r == 0 && c == 2) || (r == 1 && (c == 2 || c == 3)) || (r == 2 && c == 2)
            } else if orientation == 2 {
                (r == 1 && 1 <= c <= 3) || (r == 2 && c == 2)
            } else {
                (r == 0 && c == 2) || (r == 1 && (c == 1 || c == 2)) || (r == 2 && c == 2)
            }
        } else if kind == 3 {
            // L
            if orientation == 0 {
                (r == 0 && c == 3) || (r == 1 && 1 <= c <= 3)
            } else if orientation == 1 {
                (r == 0 && c == 2) || (r == 1 && c == 2) || (r == 2 && (c == 2 || c == 3))
            } else if orientation == 2 {
                (r == 1 && 1 <= c <= 3) || (r == 2 && c == 1)
            } else {
                (r == 0 && (c == 1 || c == 2)) || (r == 1 && c == 2) || (r == 2 && c == 2)
            }
        } else if kind == 4 {
            // J
            if orientation == 0 {
                (r == 0 && c == 1) || (r == 1 && 1 <= c <= 3)
            } else if orientation == 1 {
                (r == 0 && (c == 2 || c == 3)) || (r == 1 && c == 2) || (r == 2 && c == 2)
            } else if orientation == 2 {
                (r == 1 && 1 <= c <= 3) || (r == 2 && c == 3)
            } else {
                (r == 0 && c == 2) || (r == 1 && c == 2) || (r == 2 && (c == 1 || c == 2))
            }
        } else if kind == 5 {
            // S
            if orientation == 0 {
                (r == 0 && (c == 2 || c == 3)) || (r == 1 && (c == 1 || c == 2))
            } else if orientation == 1 {
                (r == 0 && c == 2) || (r == 1 && (c == 2 || c == 3)) || (r == 2 && c == 3)
            } else if orientation == 2 {
                (r == 1 && (c == 2 || c == 3)) || (r == 2 && (c == 1 || c == 2))
            } else {
                (r == 0 && c == 1) || (r == 1 && (c == 1 || c == 2)) || (r == 2 && c == 2)
            }
        } else {
            // Z
            if orientation == 0 {
                (r == 0 && (c == 1 || c == 2)) || (r == 1 && (c == 2 || c == 3))
            } else if orientation == 1 {
                (r == 0 && c == 3) || (r == 1 && (c == 2 || c == 3)) || (r == 2 && c == 2)
            } else if orientation == 2 {
                (r == 1 && (c == 1 || c == 2)) || (r == 2 && (c == 2 || c == 3))
            } else {
                (r == 0 && c == 2) || (r == 1 && (c == 1 || c == 2)) || (r == 2 && c == 1)
            }
        }
    }
}

/// The leftmost occupied column offset of shape `kind` in `orientation`.
pub open spec fn shape_left(kind: int, orientation: int) -> int {
    if kind == 0 {
        if orientation == 0 {
            0
        } else if orientation == 1 {
            2
        } else if orientation == 2 {
            0
        } else {
            1
        }
    } else if kind == 1 {
        1
    } else if orientation == 1 {
        2
    } else {
        1
    }
}

/// The rightmost occupied column offset of shape `kind` in `orientation`.
pub open spec fn shape_right(kind: int, orientation: int) -> int {
    if kind == 0 {
        if orientation == 0 {
            3
        } else if orientation == 1 {
            2
        } else if orientation == 2 {
            3
        } else {
            1
        }
    } else if kind == 1 {
        2
    } else if orientation == 3 {
        2
    } else {
        3
    }
}

/// `shape_left` and `shape_right` are exactly the extreme occupied column
/// offsets: every occupied cell lies between them, and each of the two is
/// attained by some occupied cell.
pub proof fn lemma_shape_extent(kind: int, orientation: int)
    requires
        0 <= kind < 7,
        0 <= orientation < 4,
    ensures
        forall|r: int, c: int|
            shape_occupied(kind, orientation, r, c) ==> shape_left(kind, orientation) <= c
                <= shape_right(kind, orientation),
        exists|r: int, c: int|
            shape_occupied(kind, orientation, r, c) && c == shape_left(kind, orientation),
        exists|r: int, c: int|
            shape_occupied(kind, orientation, r, c) && c == shape_right(kind, orientation),
        0 <= shape_left(kind, orientation) <= shape_right(kind, orientation) <= 3,
{
    if kind == 0 {
        if orientation == 0 {
            assert(shape_occupied(kind, orientation, 1, 0));
            assert(shape_occupied(kind, orientation, 1, 3));
        } else if orientation == 1 {
            assert(shape_occupied(kind, orientation, 0, 2));
        } else if orientation == 2 {
            assert(shape_occupied(kind, orientation, 2, 0));
            assert(shape_occupied(kind, orientation, 2, 3));
        } else {
            assert(shape_occupied(kind, orientation, 0, 1));
        }
    } else if kind == 1 {
        assert(shape_occupied(kind, orientation, 1, 1));
        assert(shape_occupied(kind, orientation, 1, 2));
    } else if kind == 2 {
        if orientation == 0 {
            assert(shape_occupied(kind, orientation, 1, 1));
            assert(shape_occupied(kind, orientation, 1, 3));
        } else if orientation == 1 {
            assert(shape_occupied(kind, orientation, 0, 2));
            assert(shape_occupied(kind, orientation, 1, 3));
        } else if orientation == 2 {
            assert(shape_occupied(kind, orientation, 1, 1));
            assert(shape_occupied(kind, orientation, 1, 3));
        } else {
            assert(shape_occupied(kind, orientation, 1, 1));
            assert(shape_occupied(kind, orientation, 1, 2));
        }
    } else if kind == 3 {
        if orientation == 0 {
            assert(shape_occupied(kind, orientation, 1, 1));
            assert(shape_occupied(kind, orientation, 0, 3));
        } else if orientation == 1 {
            assert(shape_occupied(kind, orientation, 0, 2));
            assert(shape_occupied(kind, orientation, 2, 3));
        } else if orientation == 2 {
            assert(shape_occupied(kind, orientation, 1, 1));
            assert(shape_occupied(kind, orientation, 1, 3));
        } else {
            assert(shape_occupied(kind, orientation, 0, 1));
            assert(shape_occupied(kind, orientation, 0, 2));
        }
    } else if kind == 4 {
        if orientation == 0 {
            assert(shape_occupied(kind, orientation, 0, 1));
            assert(shape_occupied(kind, orientation, 1, 3));
        } else if orientation == 1 {
            assert(shape_occupied(kind, orientation, 0, 2));
            assert(shape_occupied(kind, orientation, 0, 3));
        } else if orientation == 2 {
            assert(shape_occupied(kind, orientation, 1, 1));
            assert(shape_occupied(kind, orientation, 2, 3));
        } else {
            assert(shape_occupied(kind, orientation, 2, 1));
            assert(shape_occupied(kind, orientation, 0, 2));
        }
    } else if kind == 5 {
        if orientation == 0 {
            assert(shape_occupied(kind, orientation, 1, 1));
            assert(shape_occupied(kind, orientation, 0, 3));
        } else if orientation == 1 {
            assert(shape_occupied(kind, orientation, 0, 2));
            assert(shape_occupied(kind, orientation, 1, 3));
        } else if orientation == 2 {
            assert(shape_occupied(kind, orientation, 2, 1));
            assert(shape_occupied(kind, orientation, 1, 3));
        } else {
            assert(shape_occupied(kind, orientation, 0, 1));
            assert(shape_occupied(kind, orientation, 2, 2));
        }
    } else {
        if orientation == 0 {
            assert(shape_occupied(kind, orientation, 0, 1));
            assert(shape_occupied(kind, orientation, 1, 3));
        } else if orientation == 1 {
            assert(shape_occupied(kind, orientation, 1, 2));
            assert(shape_occupied(kind, orientation, 0, 3));
        } else if orientation == 2 {
            assert(shape_occupied(kind, orientation, 1, 1));
            assert(shape_occupied(kind, orientation, 2, 3));
        } else {
            assert(shape_occupied(kind, orientation, 1, 1));
            assert(shape_occupied(kind, orientation, 0, 2));
        }
    }
}

/// Every shape has at least one occupied cell in every orientation.
pub proof fn lemma_shape_nonempty(kind: int, orientation: int)
    requires
        0 <= kind < 7,
        0 <= orientation < 4,
    ensures
        exists|r: int, c: int| shape_occupied(kind, orientation, r, c),
{
    lemma_shape_extent(kind, orientation);
}

/// Reads the catalog's occupancy table.
pub fn shape_cell(kind: usize, orientation: usize, r: usize, c: usize) -> (b: bool)
    ensures
        b == shape_occupied(kind as int, orientation as int, r as int, c as int),
{
    r < 4 && c < 4 && {
        if kind == 0 {
            if orientation == 0 {
                r == 1
            } else if orientation == 1 {
                c == 2
            } else if orientation == 2 {
                r == 2
            } else {
                c == 1
            }
        } else if kind == 1 {
            (r == 1 || r == 2) && (c == 1 || c == 2)
        } else if kind == 2 {
            if orientation == 0 {
                (r == 0 && c == 2) || (r == 1 && 1 <= c && c <= 3)
            } else if orientation == 1 {
                (r == 0 && c == 2) || (r == 1 && (c == 2 || c == 3)) || (r == 2 && c == 2)
            } else if orientation == 2 {
                (r == 1 && 1 <= c && c <= 3) || (r == 2 && c == 2)
            } else {
                (r == 0 && c == 2) || (r == 1 && (c == 1 || c == 2)) || (r == 2 && c == 2)
            }
        } else if kind == 3 {
            if orientation == 0 {
                (r == 0 && c == 3) || (r == 1 && 1 <= c && c <= 3)
            } else if orientation == 1 {
                (r == 0 && c == 2) || (r == 1 && c == 2) || (r == 2 && (c == 2 || c == 3))
            } else if orientation == 2 {
                (r == 1 && 1 <= c && c <= 3) || (r == 2 && c == 1)
            } else {
                (r == 0 && (c == 1 || c == 2)) || (r == 1 && c == 2) || (r == 2 && c == 2)
            }
        } else if kind == 4 {
            if orientation == 0 {
                (r == 0 && c == 1) || (r == 1 && 1 <= c && c <= 3)
            } else if orientation == 1 {
                (r == 0 && (c == 2 || c == 3)) || (r == 1 && c == 2) || (r == 2 && c == 2)
            } else if orientation == 2 {
                (r == 1 && 1 <= c && c <= 3) || (r == 2 && c == 3)
            } else {
                (r == 0 && c == 2) || (r == 1 && c == 2) || (r == 2 && (c == 1 || c == 2))
            }
        } else if kind == 5 {
            if orientation == 0 {
                (r == 0 && (c == 2 || c == 3)) || (r == 1 && (c == 1 || c == 2))
            } else if orientation == 1 {
                (r == 0 && c == 2) || (r == 1 && (c == 2 || c == 3)) || (r == 2 && c == 3)
            } else if orientation == 2 {
                (r == 1 && (c == 2 || c == 3)) || (r == 2 && (c == 1 || c == 2))
            } else {
                (r == 0 && c == 1) || (r == 1 && (c == 1 || c == 2)) || (r == 2 && c == 2)
            }
        } else {
            if orientation == 0 {
                (r == 0 && (c == 1 || c == 2)) || (r == 1 && (c == 2 || c == 3))
            } else if orientation == 1 {
                (r == 0 && c == 3) || (r == 1 && (c == 2 || c == 3)) || (r == 2 && c == 2)
            } else if orientation == 2 {
                (r == 1 && (c == 1 || c == 2)) || (r == 2 && (c == 2 || c == 3))
            } else {
                (r == 0 && c == 2) || (r == 1 && (c == 1 || c == 2)) || (r == 2 && c == 1)
            }
        }
    }
}

/// Reads the leftmost occupied column offset.
pub fn leftmost_col(kind: usize, orientation: usize) -> (l: usize)
    requires
        kind < 7,
        orientation < 4,
    ensures
        l == shape_left(kind as int, orientation as int),
{
    if kind == 0 {
        if orientation == 0 {
            0
        } else if orientation == 1 {
            2
        } else if orientation == 2 {
            0
        } else {
            1
        }
    } else if kind == 1 {
        1
    } else if orientation == 1 {
        2
    } else {
        1
    }
}

/// Reads the rightmost occupied column offset.
pub fn rightmost_col(kind: usize, orientation: usize) -> (r: usize)
    requires
        kind < 7,
        orientation < 4,
    ensures
        r == shape_right(kind as int, orientation as int),
{
    if kind == 0 {
        if orientation == 0 {
            3
        } else if orientation == 1 {
            2
        } else if orientation == 2 {
            3
        } else {
            1
        }
    } else if kind == 1 {
        2
    } else if orientation == 3 {
        2
    } else {
        3
    }
}

} // verus!
