//! The shape of the world: its two dimensions, and how an index steps
//! around an axis that closes on itself.

use vstd::prelude::*;

verus! {

/// Number of rows of the world.
pub const ROWS: usize = 40;

/// Number of columns of the world.
pub const COLUMNS: usize = 40;

/// The index that lies `offset` steps from `index` on an axis of `len`
/// cells whose last cell is followed by its first.
pub open spec fn wrap(index: int, offset: int, len: int) -> int {
    (index + offset) % len
}

/// One step along an axis: forward when `sign` holds, backward otherwise.
pub open spec fn step_of(sign: bool) -> int {
    if sign {
        1
    } else {
        -1
    }
}

/// What `inc` returns, for every `digit`: one step from it, and the far end
/// of the axis where the step would leave the axis.
pub open spec fn inc_spec(digit: usize, sign: bool) -> usize {
    if sign {
        if digit < ROWS - 1 {
            (digit + 1) as usize
        } else {
            0
        }
    } else {
        if digit > 0 {
            (digit - 1) as usize
        } else {
            (ROWS - 1) as usize
        }
    }
}

/// Steps `digit` one cell forward (`sign`) or backward (`!sign`) on an axis
/// of `ROWS` cells, wrapping at both ends. The world has as many columns as
/// rows, so the same function steps along a row and along a column.
pub fn inc(digit: &usize, sign: bool) -> (result: usize)
    ensures
        result == inc_spec(*digit, sign),
        *digit < ROWS ==> result == wrap(*digit as int, step_of(sign), ROWS as int),
        *digit < ROWS ==> result < ROWS,
{
    let result: usize;
    if sign {
        if *digit < ROWS - 1 {
            result = *digit + 1;
        } else {
            result = 0;
        }
    } else {
        if *digit > 0 {
            result = *digit - 1;
        } else {
            result = ROWS - 1;
        }
    }
    result
}

/// `x` is `mid`, the index before it or the index after it, on an axis of
/// `len` cells that closes on itself.
pub open spec fn beside(mid: int, x: int, len: int) -> bool {
    x == wrap(mid, -1, len) || x == mid || x == wrap(mid, 1, len)
}

/// The cells `(row, col)` and `(other_row, other_col)` touch, by a side or
/// by a corner, on the torus: they are different cells, at most one row and
/// at most one column apart, where the last row is one row from the first
/// and the last column one column from the first.
pub open spec fn adjacent(row: int, col: int, other_row: int, other_col: int) -> bool {
    &&& beside(row, other_row, ROWS as int)
    &&& beside(col, other_col, COLUMNS as int)
    &&& (row != other_row || col != other_col)
}

/// If one index is beside another, the other is beside it.
proof fn lemma_beside_is_symmetric(a: int, b: int, len: int)
    requires
        len == ROWS || len == COLUMNS,
        0 <= a < len,
        0 <= b < len,
    ensures
        beside(a, b, len) == beside(b, a, len),
{
}

/// If one cell touches another, the other touches it.
pub proof fn lemma_adjacent_is_symmetric(row: int, col: int, other_row: int, other_col: int)
    requires
        0 <= row < ROWS,
        0 <= col < COLUMNS,
        0 <= other_row < ROWS,
        0 <= other_col < COLUMNS,
    ensures
        adjacent(row, col, other_row, other_col) == adjacent(other_row, other_col, row, col),
{
    lemma_beside_is_symmetric(row, other_row, ROWS as int);
    lemma_beside_is_symmetric(col, other_col, COLUMNS as int);
}

/// The world has no edge: every cell of the first row touches the cell of
/// the last row in its column, every cell of the first column touches the
/// cell of the last column in its row, and each corner touches the corner
/// across from it.
pub proof fn lemma_adjacent_across_edges(row: int, col: int)
    requires
        0 <= row < ROWS,
        0 <= col < COLUMNS,
    ensures
        adjacent(0, col, ROWS - 1, col),
        adjacent(ROWS - 1, col, 0, col),
        adjacent(row, 0, row, COLUMNS - 1),
        adjacent(row, COLUMNS - 1, row, 0),
        adjacent(0, 0, ROWS - 1, COLUMNS - 1),
        adjacent(0, COLUMNS - 1, ROWS - 1, 0),
        adjacent(ROWS - 1, 0, 0, COLUMNS - 1),
        adjacent(ROWS - 1, COLUMNS - 1, 0, 0),
{
}

} // verus!
