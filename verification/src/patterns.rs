//! Worlds whose fate is known: the empty and the full world, a cell on its
//! own, the block that stands still, and the blinker that turns.

use crate::grid::{
    alive_count, grid_of, is_grid, lemma_alive_count_extremes, lemma_alive_count_uniform,
    lemma_grid_of_cell, live, on_grid, uniform_grid, Grid,
};
use crate::rules::{
    cell_near, lemma_next_generation_by_cells, lives_on, neighbours, next_cell, next_generation,
};
use crate::torus::{adjacent, beside, wrap, COLUMNS, ROWS};
use vstd::prelude::*;

verus! {

/// `x` is `first` or the index after it, on an axis of `len` cells.
pub open spec fn in_pair(first: int, x: int, len: int) -> bool {
    x == first || x == wrap(first, 1, len)
}

/// The world whose only live cell is `(i, j)`.
pub open spec fn lone_cell(i: int, j: int) -> Grid {
    grid_of(|row: int, col: int| row == i && col == j)
}

/// `(row, col)` belongs to the block of two by two cells whose first cell
/// is `(i, j)`.
pub open spec fn in_block(i: int, j: int, row: int, col: int) -> bool {
    in_pair(i, row, ROWS as int) && in_pair(j, col, COLUMNS as int)
}

/// The world whose only live cells are the block at `(i, j)`.
pub open spec fn block(i: int, j: int) -> Grid {
    grid_of(|row: int, col: int| in_block(i, j, row, col))
}

/// `(row, col)` belongs to the blinker that lies in the row `i`, with the
/// cell `(i, j)` in its middle.
pub open spec fn in_row_blinker(i: int, j: int, row: int, col: int) -> bool {
    row == i && beside(j, col, COLUMNS as int)
}

/// `(row, col)` belongs to the blinker that stands in the column `j`, with
/// the cell `(i, j)` in its middle.
pub open spec fn in_column_blinker(i: int, j: int, row: int, col: int) -> bool {
    beside(i, row, ROWS as int) && col == j
}

/// The world whose only live cells are three in the row `i`, around
/// `(i, j)`.
pub open spec fn row_blinker(i: int, j: int) -> Grid {
    grid_of(|row: int, col: int| in_row_blinker(i, j, row, col))
}

/// The world whose only live cells are three in the column `j`, around
/// `(i, j)`.
pub open spec fn column_blinker(i: int, j: int) -> Grid {
    grid_of(|row: int, col: int| in_column_blinker(i, j, row, col))
}

/// How far `x` lies after `from` on an axis of `len` cells.
spec fn offset(from: int, x: int, len: int) -> int {
    wrap(x, -from, len)
}

/// Where the index `x` and the two beside it lie with respect to the pair
/// that starts at `first`.
proof fn lemma_pair_around(first: int, x: int, len: int)
    requires
        len == ROWS || len == COLUMNS,
        0 <= first < len,
        0 <= x < len,
    ensures
        0 <= offset(first, x, len) < len,
        0 <= wrap(x, -1, len) < len,
        0 <= wrap(x, 1, len) < len,
        wrap(x, 0, len) == x,
        in_pair(first, wrap(x, -1, len), len) <==> 1 <= offset(first, x, len) <= 2,
        in_pair(first, x, len) <==> 0 <= offset(first, x, len) <= 1,
        in_pair(first, wrap(x, 1, len), len) <==> offset(first, x, len) == len - 1 || offset(
            first,
            x,
            len,
        ) == 0,
{
}

/// Where the index `x` and the two beside it lie with respect to `mid` and
/// to the three indices around `mid`.
proof fn lemma_triple_around(mid: int, x: int, len: int)
    requires
        len == ROWS || len == COLUMNS,
        0 <= mid < len,
        0 <= x < len,
    ensures
        0 <= offset(mid, x, len) < len,
        0 <= wrap(x, -1, len) < len,
        0 <= wrap(x, 1, len) < len,
        wrap(x, 0, len) == x,
        beside(mid, wrap(x, -1, len), len) <==> 0 <= offset(mid, x, len) <= 2,
        beside(mid, x, len) <==> offset(mid, x, len) == len - 1 || 0 <= offset(mid, x, len) <= 1,
        beside(mid, wrap(x, 1, len), len) <==> offset(mid, x, len) >= len - 2 || offset(
            mid,
            x,
            len,
        ) == 0,
        beside(x, mid, len) <==> beside(mid, x, len),
        wrap(x, -1, len) == mid <==> offset(mid, x, len) == 1,
        x == mid <==> offset(mid, x, len) == 0,
        wrap(x, 1, len) == mid <==> offset(mid, x, len) == len - 1,
{
}

/// Number of marked places among the eight around the middle of three rows
/// and three columns, where a place is marked if its row and its column
/// are.
spec fn around_in_product(rows: (bool, bool, bool), cols: (bool, bool, bool)) -> nat {
    live(rows.0 && cols.0) + live(rows.0 && cols.1) + live(rows.0 && cols.2) + live(
        rows.1 && cols.0,
    ) + live(rows.1 && cols.2) + live(rows.2 && cols.0) + live(rows.2 && cols.1) + live(
        rows.2 && cols.2,
    )
}

/// The live cells around a cell, where each of the eight is alive exactly
/// if its row and its column are marked: `rows` marks the row above, the
/// cell's own row and the row below, `cols` the column to the left, the
/// cell's own and the column to the right.
proof fn lemma_neighbours_of_product(
    g: Grid,
    row: int,
    col: int,
    rows: (bool, bool, bool),
    cols: (bool, bool, bool),
)
    requires
        cell_near(g, row, col, -1, -1) == (rows.0 && cols.0),
        cell_near(g, row, col, -1, 0) == (rows.0 && cols.1),
        cell_near(g, row, col, -1, 1) == (rows.0 && cols.2),
        cell_near(g, row, col, 0, -1) == (rows.1 && cols.0),
        cell_near(g, row, col, 0, 1) == (rows.1 && cols.2),
        cell_near(g, row, col, 1, -1) == (rows.2 && cols.0),
        cell_near(g, row, col, 1, 0) == (rows.2 && cols.1),
        cell_near(g, row, col, 1, 1) == (rows.2 && cols.2),
    ensures
        neighbours(g, row, col) == around_in_product(rows, cols),
{
}

/// The nine cells around and at `(row, col)` in a grid that is given by a
/// predicate.
proof fn lemma_grid_of_around(alive: spec_fn(int, int) -> bool, row: int, col: int)
    requires
        on_grid(row, col),
    ensures
        forall|dr: int, dc: int|
            -1 <= dr <= 1 && -1 <= dc <= 1 ==> #[trigger] cell_near(
                grid_of(alive),
                row,
                col,
                dr,
                dc,
            ) == alive(wrap(row, dr, ROWS as int), wrap(col, dc, COLUMNS as int)),
{
    assert forall|dr: int, dc: int| -1 <= dr <= 1 && -1 <= dc <= 1 implies #[trigger] cell_near(
        grid_of(alive),
        row,
        col,
        dr,
        dc,
    ) == alive(wrap(row, dr, ROWS as int), wrap(col, dc, COLUMNS as int)) by {
        lemma_grid_of_cell(alive, wrap(row, dr, ROWS as int), wrap(col, dc, COLUMNS as int));
    }
}

/// In a world with one live cell, a cell has one live cell around it if it
/// touches the live cell, and none if it does not: the cells around a cell
/// are the cells that touch it, each counted once.
pub proof fn lemma_neighbours_of_lone_cell(i: int, j: int, row: int, col: int)
    requires
        on_grid(i, j),
        on_grid(row, col),
    ensures
        neighbours(lone_cell(i, j), row, col) == live(adjacent(row, col, i, j)),
{
    let above: int = wrap(row, -1, ROWS as int);
    let below: int = wrap(row, 1, ROWS as int);
    let left: int = wrap(col, -1, COLUMNS as int);
    let right: int = wrap(col, 1, COLUMNS as int);
    lemma_triple_around(i, row, ROWS as int);
    lemma_triple_around(j, col, COLUMNS as int);
    lemma_grid_of_around(|row: int, col: int| row == i && col == j, row, col);
    let rows = (above == i, row == i, below == i);
    let cols = (left == j, col == j, right == j);
    lemma_neighbours_of_product(lone_cell(i, j), row, col, rows, cols);
}

/// In the empty world every cell stays dead, and in the full world every
/// cell has eight live cells around it and dies: the generation after
/// either is the empty world.
pub proof fn lemma_uniform_worlds_die(alive: bool)
    ensures
        is_grid(uniform_grid(alive)),
        alive_count(uniform_grid(alive)) == ROWS * COLUMNS * live(alive),
        forall|row: int, col: int|
            on_grid(row, col) ==> #[trigger] neighbours(uniform_grid(alive), row, col) == 8 * live(
                alive,
            ),
        next_generation(uniform_grid(alive)) == uniform_grid(false),
        alive_count(next_generation(uniform_grid(alive))) == 0,
{
    lemma_alive_count_uniform(alive);
    lemma_alive_count_uniform(false);
    let g = uniform_grid(alive);
    assert forall|row: int, col: int| on_grid(row, col) implies #[trigger] neighbours(g, row, col)
        == 8 * live(alive) && uniform_grid(false)[row][col] == next_cell(g, row, col) by {
        lemma_triple_around(0, row, ROWS as int);
        lemma_triple_around(0, col, COLUMNS as int);
        lemma_neighbours_of_product(g, row, col, (alive, true, alive), (alive, true, alive));
    }
    lemma_next_generation_by_cells(g, uniform_grid(false));
}

/// A world in which every cell is alive is dead a generation later, and so
/// is a world in which no cell is alive.
pub proof fn lemma_crowded_and_empty_worlds_die(g: Grid)
    requires
        is_grid(g),
        alive_count(g) == ROWS * COLUMNS || alive_count(g) == 0,
    ensures
        alive_count(next_generation(g)) == 0,
{
    lemma_alive_count_extremes(g);
    lemma_uniform_worlds_die(true);
    lemma_uniform_worlds_die(false);
}

/// What becomes of a cell that lies `a` rows and `b` columns after the
/// first cell of a block: it is alive exactly if it belongs to the block.
proof fn lemma_block_case(a: int, b: int, rows: (bool, bool, bool), cols: (bool, bool, bool))
    requires
        0 <= a < ROWS,
        0 <= b < COLUMNS,
        rows.0 <==> 1 <= a <= 2,
        rows.1 <==> 0 <= a <= 1,
        rows.2 <==> a == ROWS - 1 || a == 0,
        cols.0 <==> 1 <= b <= 2,
        cols.1 <==> 0 <= b <= 1,
        cols.2 <==> b == COLUMNS - 1 || b == 0,
    ensures
        lives_on(rows.1 && cols.1, around_in_product(rows, cols)) == (rows.1 && cols.1),
{
}

/// What becomes of one cell of a world that holds a block and nothing else.
proof fn lemma_block_cell(i: int, j: int, row: int, col: int)
    requires
        on_grid(i, j),
        on_grid(row, col),
    ensures
        next_cell(block(i, j), row, col) == block(i, j)[row][col],
{
    let above: int = wrap(row, -1, ROWS as int);
    let below: int = wrap(row, 1, ROWS as int);
    let left: int = wrap(col, -1, COLUMNS as int);
    let right: int = wrap(col, 1, COLUMNS as int);
    lemma_pair_around(i, row, ROWS as int);
    lemma_pair_around(j, col, COLUMNS as int);
    lemma_grid_of_around(|row: int, col: int| in_block(i, j, row, col), row, col);
    let rows = (
        in_pair(i, above, ROWS as int),
        in_pair(i, row, ROWS as int),
        in_pair(i, below, ROWS as int),
    );
    let cols = (
        in_pair(j, left, COLUMNS as int),
        in_pair(j, col, COLUMNS as int),
        in_pair(j, right, COLUMNS as int),
    );
    assert(block(i, j)[row][col] == cell_near(block(i, j), row, col, 0, 0));
    lemma_neighbours_of_product(block(i, j), row, col, rows, cols);
    lemma_block_case(offset(i, row, ROWS as int), offset(j, col, COLUMNS as int), rows, cols);
}

/// A block alone in the world is a still life: the generation after it is
/// the same world, wherever the block lies, also across the edges.
pub proof fn lemma_block_is_still(i: int, j: int)
    requires
        on_grid(i, j),
    ensures
        next_generation(block(i, j)) == block(i, j),
{
    let g = block(i, j);
    assert forall|row: int, col: int| on_grid(row, col) implies g[row][col] == #[trigger] next_cell(
        g,
        row,
        col,
    ) by {
        lemma_block_cell(i, j, row, col);
    }
    lemma_next_generation_by_cells(g, g);
}

/// The block at `(i, j)` stands clear in `g`: its four cells are alive, and
/// every other cell that lies no more than `margin` cells from it, in rows
/// and in columns, is dead. What lies farther away is left open.
pub open spec fn block_stands_clear(g: Grid, i: int, j: int, margin: int) -> bool {
    forall|dr: int, dc: int|
        -margin <= dr <= 1 + margin && -margin <= dc <= 1 + margin ==> #[trigger] cell_near(
            g,
            i,
            j,
            dr,
            dc,
        ) == (0 <= dr <= 1 && 0 <= dc <= 1)
}

/// Going `d` steps from an index and then one more step, or none, leads
/// where going all the steps at once leads.
proof fn lemma_wrap_again(x: int, d: int, len: int)
    requires
        len == ROWS || len == COLUMNS,
        0 <= x < len,
        -1 <= d <= 2,
    ensures
        0 <= wrap(x, d, len) < len,
        wrap(wrap(x, d, len), -1, len) == wrap(x, d - 1, len),
        wrap(wrap(x, d, len), 0, len) == wrap(x, d, len),
        wrap(wrap(x, d, len), 1, len) == wrap(x, d + 1, len),
{
}

/// Whether a row or column that lies `d` after the first of a block, and
/// the ones before and after it, belong to the block.
spec fn block_lines(d: int) -> (bool, bool, bool) {
    (0 <= d - 1 <= 1, 0 <= d <= 1, 0 <= d + 1 <= 1)
}

/// What becomes of the cell that lies `dr` rows and `dc` columns from the
/// first cell of a block that stands clear by two cells.
proof fn lemma_clear_block_cell(g: Grid, i: int, j: int, dr: int, dc: int)
    requires
        is_grid(g),
        on_grid(i, j),
        block_stands_clear(g, i, j, 2),
        -1 <= dr <= 2,
        -1 <= dc <= 2,
    ensures
        cell_near(next_generation(g), i, j, dr, dc) == (0 <= dr <= 1 && 0 <= dc <= 1),
{
    let row: int = wrap(i, dr, ROWS as int);
    let col: int = wrap(j, dc, COLUMNS as int);
    lemma_wrap_again(i, dr, ROWS as int);
    lemma_wrap_again(j, dc, COLUMNS as int);
    assert forall|er: int, ec: int| -1 <= er <= 1 && -1 <= ec <= 1 implies #[trigger] cell_near(
        g,
        row,
        col,
        er,
        ec,
    ) == (0 <= dr + er <= 1 && 0 <= dc + ec <= 1) by {
        assert(cell_near(g, row, col, er, ec) == cell_near(g, i, j, dr + er, dc + ec));
    }
    assert(g[row][col] == cell_near(g, row, col, 0, 0));
    lemma_neighbours_of_product(g, row, col, block_lines(dr), block_lines(dc));
    assert(next_generation(g)[row][col] == next_cell(g, row, col));
}

/// A block stays as long as it stands clear: if nothing else is alive
/// within two cells of it, then in the next generation its four cells are
/// alive again and the cells next to it are dead again, whatever else the
/// world holds.
pub proof fn lemma_block_stays(g: Grid, i: int, j: int)
    requires
        is_grid(g),
        on_grid(i, j),
        block_stands_clear(g, i, j, 2),
    ensures
        block_stands_clear(next_generation(g), i, j, 1),
{
    assert forall|dr: int, dc: int| -1 <= dr <= 2 && -1 <= dc <= 2 implies #[trigger] cell_near(
        next_generation(g),
        i,
        j,
        dr,
        dc,
    ) == (0 <= dr <= 1 && 0 <= dc <= 1) by {
        lemma_clear_block_cell(g, i, j, dr, dc);
    }
}

/// What becomes of a cell that lies `a` cells after the middle of a blinker
/// across it and `b` cells after the middle along it: it is alive exactly
/// if it lies in the line that crosses the blinker in its middle, on the
/// middle or next to it. `across` marks which of the three lines through
/// and beside the cell is the blinker's, `along` which of the three places
/// the blinker covers.
proof fn lemma_blinker_case(
    a: int,
    b: int,
    len: int,
    across: (bool, bool, bool),
    along: (bool, bool, bool),
)
    requires
        len == ROWS || len == COLUMNS,
        0 <= a < len,
        0 <= b < len,
        across.0 <==> a == 1,
        across.1 <==> a == 0,
        across.2 <==> a == len - 1,
        along.0 <==> 0 <= b <= 2,
        along.1 <==> b == len - 1 || 0 <= b <= 1,
        along.2 <==> b >= len - 2 || b == 0,
    ensures
        lives_on(across.1 && along.1, around_in_product(across, along)) == ((across.0 || across.1
            || across.2) && b == 0),
        around_in_product(along, across) == around_in_product(across, along),
{
}

/// What becomes of one cell of a world that holds a blinker in a row and
/// nothing else.
proof fn lemma_row_blinker_cell(i: int, j: int, row: int, col: int)
    requires
        on_grid(i, j),
        on_grid(row, col),
    ensures
        next_cell(row_blinker(i, j), row, col) == column_blinker(i, j)[row][col],
{
    let above: int = wrap(row, -1, ROWS as int);
    let below: int = wrap(row, 1, ROWS as int);
    let left: int = wrap(col, -1, COLUMNS as int);
    let right: int = wrap(col, 1, COLUMNS as int);
    lemma_triple_around(i, row, ROWS as int);
    lemma_triple_around(j, col, COLUMNS as int);
    lemma_grid_of_around(|row: int, col: int| in_row_blinker(i, j, row, col), row, col);
    lemma_grid_of_cell(|row: int, col: int| in_column_blinker(i, j, row, col), row, col);
    let rows = (above == i, row == i, below == i);
    let cols = (
        beside(j, left, COLUMNS as int),
        beside(j, col, COLUMNS as int),
        beside(j, right, COLUMNS as int),
    );
    assert(row_blinker(i, j)[row][col] == cell_near(row_blinker(i, j), row, col, 0, 0));
    lemma_neighbours_of_product(row_blinker(i, j), row, col, rows, cols);
    lemma_blinker_case(
        offset(i, row, ROWS as int),
        offset(j, col, COLUMNS as int),
        ROWS as int,
        rows,
        cols,
    );
}

/// What becomes of one cell of a world that holds a blinker in a column
/// and nothing else.
proof fn lemma_column_blinker_cell(i: int, j: int, row: int, col: int)
    requires
        on_grid(i, j),
        on_grid(row, col),
    ensures
        next_cell(column_blinker(i, j), row, col) == row_blinker(i, j)[row][col],
{
    let above: int = wrap(row, -1, ROWS as int);
    let below: int = wrap(row, 1, ROWS as int);
    let left: int = wrap(col, -1, COLUMNS as int);
    let right: int = wrap(col, 1, COLUMNS as int);
    lemma_triple_around(i, row, ROWS as int);
    lemma_triple_around(j, col, COLUMNS as int);
    lemma_grid_of_around(|row: int, col: int| in_column_blinker(i, j, row, col), row, col);
    lemma_grid_of_cell(|row: int, col: int| in_row_blinker(i, j, row, col), row, col);
    let rows = (
        beside(i, above, ROWS as int),
        beside(i, row, ROWS as int),
        beside(i, below, ROWS as int),
    );
    let cols = (left == j, col == j, right == j);
    assert(column_blinker(i, j)[row][col] == cell_near(column_blinker(i, j), row, col, 0, 0));
    lemma_neighbours_of_product(column_blinker(i, j), row, col, rows, cols);
    lemma_blinker_case(
        offset(j, col, COLUMNS as int),
        offset(i, row, ROWS as int),
        COLUMNS as int,
        cols,
        rows,
    );
}

/// A blinker alone in the world turns about its middle with every
/// generation: from lying in a row to standing in a column and back, so
/// that it is the same again after two generations.
pub proof fn lemma_blinker_turns(i: int, j: int)
    requires
        on_grid(i, j),
    ensures
        next_generation(row_blinker(i, j)) == column_blinker(i, j),
        next_generation(column_blinker(i, j)) == row_blinker(i, j),
        next_generation(next_generation(row_blinker(i, j))) == row_blinker(i, j),
        next_generation(next_generation(column_blinker(i, j))) == column_blinker(i, j),
{
    let lying = row_blinker(i, j);
    let standing = column_blinker(i, j);
    assert forall|row: int, col: int| on_grid(row, col) implies standing[row][col]
        == #[trigger] next_cell(lying, row, col) by {
        lemma_row_blinker_cell(i, j, row, col);
    }
    lemma_next_generation_by_cells(lying, standing);
    assert forall|row: int, col: int| on_grid(row, col) implies lying[row][col]
        == #[trigger] next_cell(standing, row, col) by {
        lemma_column_blinker_cell(i, j, row, col);
    }
    lemma_next_generation_by_cells(standing, lying);
}

} // verus!
