//! The rule of the game as mathematics: which cells lie around a cell on
//! the torus, how many of them are alive, and what the cell becomes.

use crate::grid::{grid_of, is_grid, lemma_grid_of_cell, live, on_grid, Grid};
use crate::torus::{adjacent, wrap, COLUMNS, ROWS};
use vstd::prelude::*;

verus! {

/// State of the cell that lies `dr` rows and `dc` columns from
/// `(row, col)`, going around the torus where the grid ends.
pub open spec fn cell_near(g: Grid, row: int, col: int, dr: int, dc: int) -> bool {
    g[wrap(row, dr, ROWS as int)][wrap(col, dc, COLUMNS as int)]
}

/// Number of live cells among the eight cells around `(row, col)`.
pub open spec fn neighbours(g: Grid, row: int, col: int) -> nat {
    live(cell_near(g, row, col, -1, -1)) + live(cell_near(g, row, col, -1, 0)) + live(
        cell_near(g, row, col, -1, 1),
    ) + live(cell_near(g, row, col, 0, -1)) + live(cell_near(g, row, col, 0, 1)) + live(
        cell_near(g, row, col, 1, -1),
    ) + live(cell_near(g, row, col, 1, 0)) + live(cell_near(g, row, col, 1, 1))
}

/// Whether a cell is alive in the next generation: a live cell stays alive
/// with two or three live cells around it, a dead cell comes to life with
/// exactly three.
pub open spec fn lives_on(alive: bool, around: nat) -> bool {
    if alive {
        around == 2 || around == 3
    } else {
        around == 3
    }
}

/// State of the cell `(row, col)` in the generation after `g`.
pub open spec fn next_cell(g: Grid, row: int, col: int) -> bool {
    lives_on(g[row][col], neighbours(g, row, col))
}

/// The row `row` of the generation after `g`.
pub open spec fn next_row(g: Grid, row: int) -> Seq<bool> {
    Seq::new(COLUMNS as nat, |col: int| next_cell(g, row, col))
}

/// The generation after `g`. Every cell of it is computed from `g` alone.
pub open spec fn next_generation(g: Grid) -> Grid {
    Seq::new(ROWS as nat, |row: int| next_row(g, row))
}

/// The generation after a grid is a grid.
pub proof fn lemma_next_generation_is_grid(g: Grid)
    ensures
        is_grid(next_generation(g)),
{
}

/// A grid whose every cell is what the cell of `g` becomes is the generation
/// after `g`.
pub proof fn lemma_next_generation_by_cells(g: Grid, h: Grid)
    requires
        is_grid(h),
        forall|row: int, col: int|
            on_grid(row, col) ==> h[row][col] == #[trigger] next_cell(g, row, col),
    ensures
        next_generation(g) == h,
{
    assert forall|row: int| 0 <= row < ROWS implies next_generation(g)[row] =~= h[row] by {
        assert forall|col: int| 0 <= col < COLUMNS implies next_row(g, row)[col] == h[row][col] by {
            assert(on_grid(row, col));
        }
    }
    assert(next_generation(g) =~= h);
}

/// No cell has more than eight live cells around it.
pub proof fn lemma_neighbours_bounded(g: Grid, row: int, col: int)
    ensures
        neighbours(g, row, col) <= 8,
{
}

/// What a cell becomes depends on nothing but the cell and the eight cells
/// around it: two grids that agree there agree on the cell's next state.
pub proof fn lemma_next_cell_is_local(g: Grid, h: Grid, row: int, col: int)
    requires
        is_grid(g),
        is_grid(h),
        on_grid(row, col),
        forall|dr: int, dc: int|
            -1 <= dr <= 1 && -1 <= dc <= 1 ==> #[trigger] cell_near(g, row, col, dr, dc)
                == cell_near(h, row, col, dr, dc),
    ensures
        next_cell(g, row, col) == next_cell(h, row, col),
{
    assert(cell_near(g, row, col, 0, 0) == cell_near(h, row, col, 0, 0));
    assert(cell_near(g, row, col, 0, 0) == g[row][col]);
    assert(cell_near(h, row, col, 0, 0) == h[row][col]);
}

/// The next generation is a function of the grid: the same cells give the
/// same next generation, whatever was computed before.
pub proof fn lemma_next_generation_is_deterministic(g: Grid, h: Grid)
    requires
        g == h,
    ensures
        next_generation(g) == next_generation(h),
{
}

/// A live cell that touches a cell is counted among the cells around it.
pub proof fn lemma_live_adjacent_is_counted(
    g: Grid,
    row: int,
    col: int,
    other_row: int,
    other_col: int,
)
    requires
        is_grid(g),
        on_grid(row, col),
        on_grid(other_row, other_col),
        adjacent(row, col, other_row, other_col),
        g[other_row][other_col],
    ensures
        neighbours(g, row, col) >= 1,
{
    assert(wrap(row, 0, ROWS as int) == row);
    assert(wrap(col, 0, COLUMNS as int) == col);
    let dr: int = if other_row == wrap(row, -1, ROWS as int) {
        -1
    } else if other_row == row {
        0
    } else {
        1
    };
    let dc: int = if other_col == wrap(col, -1, COLUMNS as int) {
        -1
    } else if other_col == col {
        0
    } else {
        1
    };
    assert(cell_near(g, row, col, dr, dc));
}

/// `g` moved around the torus by `down` rows and `right` columns: the cell
/// `(row, col)` of the result is the cell of `g` that lies as many rows
/// above and as many columns to the left.
pub open spec fn shifted(g: Grid, down: int, right: int) -> Grid {
    grid_of(|row: int, col: int| cell_near(g, row, col, -down, -right))
}

/// Stepping from an index and stepping back by `shift` can be done in
/// either order.
proof fn lemma_wrap_commutes(x: int, step: int, shift: int, len: int)
    requires
        len == ROWS || len == COLUMNS,
        0 <= x < len,
        -1 <= step <= 1,
    ensures
        0 <= wrap(x, step, len) < len,
        0 <= wrap(x, -shift, len) < len,
        wrap(wrap(x, step, len), -shift, len) == wrap(wrap(x, -shift, len), step, len),
{
}

/// The cell that lies `dr` rows and `dc` columns from a cell of a moved
/// grid is the cell that lies as far from where that cell came from.
proof fn lemma_shifted_cell_near(g: Grid, down: int, right: int, row: int, col: int)
    requires
        is_grid(g),
        on_grid(row, col),
    ensures
        on_grid(wrap(row, -down, ROWS as int), wrap(col, -right, COLUMNS as int)),
        forall|dr: int, dc: int|
            -1 <= dr <= 1 && -1 <= dc <= 1 ==> #[trigger] cell_near(
                shifted(g, down, right),
                row,
                col,
                dr,
                dc,
            ) == cell_near(
                g,
                wrap(row, -down, ROWS as int),
                wrap(col, -right, COLUMNS as int),
                dr,
                dc,
            ),
{
    lemma_wrap_commutes(row, 0, down, ROWS as int);
    lemma_wrap_commutes(col, 0, right, COLUMNS as int);
    assert forall|dr: int, dc: int| -1 <= dr <= 1 && -1 <= dc <= 1 implies #[trigger] cell_near(
        shifted(g, down, right),
        row,
        col,
        dr,
        dc,
    ) == cell_near(
        g,
        wrap(row, -down, ROWS as int),
        wrap(col, -right, COLUMNS as int),
        dr,
        dc,
    ) by {
        lemma_wrap_commutes(row, dr, down, ROWS as int);
        lemma_wrap_commutes(col, dc, right, COLUMNS as int);
        lemma_grid_of_cell(
            |row: int, col: int| cell_near(g, row, col, -down, -right),
            wrap(row, dr, ROWS as int),
            wrap(col, dc, COLUMNS as int),
        );
    }
}

/// The world has no edge and no middle: moving a grid around the torus and
/// then computing the next generation gives what computing the next
/// generation and then moving it gives.
pub proof fn lemma_next_generation_of_shifted(g: Grid, down: int, right: int)
    requires
        is_grid(g),
    ensures
        next_generation(shifted(g, down, right)) == shifted(next_generation(g), down, right),
{
    let moved = shifted(g, down, right);
    let after = shifted(next_generation(g), down, right);
    assert forall|row: int, col: int| on_grid(row, col) implies after[row][col]
        == #[trigger] next_cell(moved, row, col) by {
        let from_row: int = wrap(row, -down, ROWS as int);
        let from_col: int = wrap(col, -right, COLUMNS as int);
        lemma_shifted_cell_near(g, down, right, row, col);
        lemma_grid_of_cell(
            |row: int, col: int| cell_near(next_generation(g), row, col, -down, -right),
            row,
            col,
        );
        assert(after[row][col] == next_cell(g, from_row, from_col));
        assert(moved[row][col] == cell_near(moved, row, col, 0, 0));
        assert(g[from_row][from_col] == cell_near(g, from_row, from_col, 0, 0));
        assert(neighbours(moved, row, col) == neighbours(g, from_row, from_col));
    }
    lemma_grid_of_cell(
        |row: int, col: int| cell_near(next_generation(g), row, col, -down, -right),
        0,
        0,
    );
    lemma_next_generation_by_cells(moved, after);
}

} // verus!
