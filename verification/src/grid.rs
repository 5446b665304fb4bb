//! The world as a mathematical value: rows of cells, each alive or dead,
//! and the number of cells that are alive.

use crate::torus::{COLUMNS, ROWS};
use vstd::prelude::*;

verus! {

/// A world as a value: one sequence per row, one `bool` per cell, `true`
/// for a cell that is alive.
pub type Grid = Seq<Seq<bool>>;

/// A grid has `ROWS` rows of `COLUMNS` cells each.
pub open spec fn is_grid(g: Grid) -> bool {
    &&& g.len() == ROWS
    &&& forall|row: int| 0 <= row < ROWS ==> (#[trigger] g[row]).len() == COLUMNS
}

/// The cell `(row, col)` lies on the grid.
pub open spec fn on_grid(row: int, col: int) -> bool {
    0 <= row < ROWS && 0 <= col < COLUMNS
}

/// The grid whose cells all have the state `alive`.
pub open spec fn uniform_grid(alive: bool) -> Grid {
    Seq::new(ROWS as nat, |row: int| Seq::new(COLUMNS as nat, |col: int| alive))
}

/// The grid whose cell `(row, col)` is alive exactly where `alive(row,
/// col)` holds.
pub open spec fn grid_of(alive: spec_fn(int, int) -> bool) -> Grid {
    Seq::new(ROWS as nat, |row: int| Seq::new(COLUMNS as nat, |col: int| alive(row, col)))
}

/// `g` with the cell `(row, col)` put into the state `alive`.
pub open spec fn with_cell(g: Grid, row: int, col: int, alive: bool) -> Grid {
    g.update(row, g[row].update(col, alive))
}

/// One for a cell that is alive, nothing for a dead one.
pub open spec fn live(alive: bool) -> nat {
    if alive {
        1
    } else {
        0
    }
}

/// Number of cells of `cells` that are alive.
pub open spec fn row_alive(cells: Seq<bool>) -> nat
    decreases cells.len(),
{
    if cells.len() == 0 {
        0
    } else {
        row_alive(cells.drop_last()) + live(cells.last())
    }
}

/// Number of cells in all the rows of `g` that are alive.
pub open spec fn alive_count(g: Grid) -> nat
    decreases g.len(),
{
    if g.len() == 0 {
        0
    } else {
        alive_count(g.drop_last()) + row_alive(g.last())
    }
}

/// A grid that is given by a predicate is a grid, and each of its cells is
/// what the predicate says.
pub proof fn lemma_grid_of_cell(alive: spec_fn(int, int) -> bool, row: int, col: int)
    requires
        on_grid(row, col),
    ensures
        is_grid(grid_of(alive)),
        grid_of(alive)[row][col] == alive(row, col),
{
}

/// A row holds no more live cells than it has cells.
pub proof fn lemma_row_alive_bounded(cells: Seq<bool>)
    ensures
        row_alive(cells) <= cells.len(),
    decreases cells.len(),
{
    if cells.len() > 0 {
        lemma_row_alive_bounded(cells.drop_last());
    }
}

/// Rows of at most `width` cells each hold no more than `width` live cells
/// per row.
pub proof fn lemma_alive_count_bounded_by(g: Grid, width: nat)
    requires
        forall|row: int| 0 <= row < g.len() ==> (#[trigger] g[row]).len() <= width,
    ensures
        alive_count(g) <= g.len() * width,
    decreases g.len(),
{
    if g.len() > 0 {
        lemma_alive_count_bounded_by(g.drop_last(), width);
        lemma_row_alive_bounded(g.last());
        assert(g.len() * width == g.drop_last().len() * width + width) by (nonlinear_arith)
            requires
                g.drop_last().len() == g.len() - 1,
        ;
    }
}

/// The number of live cells of a grid lies between nothing and the number
/// of its cells.
pub proof fn lemma_alive_count_bounded(g: Grid)
    requires
        is_grid(g),
    ensures
        0 <= alive_count(g) <= ROWS * COLUMNS,
{
    lemma_alive_count_bounded_by(g, COLUMNS as nat);
}

/// Counting one more cell of a row adds that cell.
pub proof fn lemma_row_alive_step(cells: Seq<bool>, n: int)
    requires
        0 <= n < cells.len(),
    ensures
        row_alive(cells.take(n + 1)) == row_alive(cells.take(n)) + live(cells[n]),
{
    assert(cells.take(n + 1).drop_last() =~= cells.take(n));
}

/// Counting one more row of a grid adds that row.
pub proof fn lemma_alive_count_step(g: Grid, n: int)
    requires
        0 <= n < g.len(),
    ensures
        alive_count(g.take(n + 1)) == alive_count(g.take(n)) + row_alive(g[n]),
{
    assert(g.take(n + 1).drop_last() =~= g.take(n));
}

/// A row without a live cell counts nothing, and only such a row does.
pub proof fn lemma_row_alive_zero(cells: Seq<bool>)
    ensures
        row_alive(cells) == 0 <==> forall|col: int| 0 <= col < cells.len() ==> !cells[col],
    decreases cells.len(),
{
    if cells.len() > 0 {
        let front = cells.drop_last();
        lemma_row_alive_zero(front);
        if row_alive(cells) == 0 {
            assert forall|col: int| 0 <= col < cells.len() implies !cells[col] by {
                if col < cells.len() - 1 {
                    assert(!front[col]);
                }
            }
        } else {
            if row_alive(front) != 0 {
                let col = choose|col: int| 0 <= col < front.len() && front[col];
                assert(cells[col]);
            } else {
                assert(cells[cells.len() - 1]);
            }
        }
    }
}

/// A grid counts no live cell exactly when every one of its cells is dead.
pub proof fn lemma_alive_count_zero(g: Grid)
    ensures
        alive_count(g) == 0 <==> forall|row: int, col: int|
            0 <= row < g.len() && 0 <= col < g[row].len() ==> !g[row][col],
    decreases g.len(),
{
    if g.len() > 0 {
        let front = g.drop_last();
        let last: int = g.len() - 1;
        lemma_alive_count_zero(front);
        lemma_row_alive_zero(g.last());
        if alive_count(g) == 0 {
            assert forall|row: int, col: int|
                0 <= row < g.len() && 0 <= col < g[row].len() implies !g[row][col] by {
                if row < last {
                    assert(!front[row][col]);
                }
            }
        } else {
            if alive_count(front) != 0 {
                let (row, col) = choose|row: int, col: int|
                    0 <= row < front.len() && 0 <= col < front[row].len() && front[row][col];
                assert(g[row][col]);
            } else {
                let col = choose|col: int| 0 <= col < g.last().len() && g.last()[col];
                assert(g[last][col]);
            }
        }
    }
}

/// A row counts all of its cells exactly when every one of them is alive.
pub proof fn lemma_row_alive_full(cells: Seq<bool>)
    ensures
        row_alive(cells) == cells.len() <==> forall|col: int| 0 <= col < cells.len() ==> cells[col],
    decreases cells.len(),
{
    if cells.len() > 0 {
        let front = cells.drop_last();
        lemma_row_alive_full(front);
        lemma_row_alive_bounded(front);
        if row_alive(cells) == cells.len() {
            assert forall|col: int| 0 <= col < cells.len() implies cells[col] by {
                if col < cells.len() - 1 {
                    assert(front[col]);
                }
            }
        } else {
            if row_alive(front) != front.len() {
                let col = choose|col: int| 0 <= col < front.len() && !front[col];
                assert(!cells[col]);
            } else {
                assert(!cells[cells.len() - 1]);
            }
        }
    }
}

/// Rows of `width` cells each count all of their cells exactly when every
/// cell is alive.
pub proof fn lemma_alive_count_full_rows(g: Grid, width: nat)
    requires
        forall|row: int| 0 <= row < g.len() ==> (#[trigger] g[row]).len() == width,
    ensures
        alive_count(g) == g.len() * width <==> forall|row: int, col: int|
            0 <= row < g.len() && 0 <= col < width ==> g[row][col],
    decreases g.len(),
{
    if g.len() > 0 {
        let front = g.drop_last();
        let last: int = g.len() - 1;
        lemma_alive_count_full_rows(front, width);
        lemma_alive_count_bounded_by(front, width);
        lemma_row_alive_bounded(g.last());
        lemma_row_alive_full(g.last());
        assert(g.len() * width == front.len() * width + width) by (nonlinear_arith)
            requires
                front.len() == g.len() - 1,
        ;
        if alive_count(g) == g.len() * width {
            assert forall|row: int, col: int| 0 <= row < g.len() && 0 <= col < width implies g[row][col] by {
                if row < last {
                    assert(front[row][col]);
                }
            }
        } else {
            if alive_count(front) != front.len() * width {
                let (row, col) = choose|row: int, col: int|
                    0 <= row < front.len() && 0 <= col < width && !front[row][col];
                assert(!g[row][col]);
            } else {
                let col = choose|col: int| 0 <= col < g.last().len() && !g.last()[col];
                assert(!g[last][col]);
            }
        }
    }
}

/// A grid counts all of its cells exactly when it is the grid of live
/// cells, and none exactly when it is the grid of dead cells.
pub proof fn lemma_alive_count_extremes(g: Grid)
    requires
        is_grid(g),
    ensures
        alive_count(g) == ROWS * COLUMNS <==> g == uniform_grid(true),
        alive_count(g) == 0 <==> g == uniform_grid(false),
{
    lemma_alive_count_full_rows(g, COLUMNS as nat);
    lemma_alive_count_zero(g);
    lemma_alive_count_uniform(true);
    lemma_alive_count_uniform(false);
    if alive_count(g) == ROWS * COLUMNS {
        assert(g =~~= uniform_grid(true));
    }
    if alive_count(g) == 0 {
        assert(g =~~= uniform_grid(false));
    }
}

/// Changing one cell of a row changes the count by that cell alone.
pub proof fn lemma_row_alive_update(cells: Seq<bool>, col: int, alive: bool)
    requires
        0 <= col < cells.len(),
    ensures
        row_alive(cells.update(col, alive)) + live(cells[col]) == row_alive(cells) + live(alive),
    decreases cells.len(),
{
    let changed = cells.update(col, alive);
    if col == cells.len() - 1 {
        assert(changed.drop_last() =~= cells.drop_last());
    } else {
        lemma_row_alive_update(cells.drop_last(), col, alive);
        assert(changed.drop_last() =~= cells.drop_last().update(col, alive));
    }
}

/// Replacing one row of a grid changes the count by that row alone.
pub proof fn lemma_alive_count_update(g: Grid, row: int, cells: Seq<bool>)
    requires
        0 <= row < g.len(),
    ensures
        alive_count(g.update(row, cells)) + row_alive(g[row]) == alive_count(g) + row_alive(cells),
    decreases g.len(),
{
    let changed = g.update(row, cells);
    if row == g.len() - 1 {
        assert(changed.drop_last() =~= g.drop_last());
    } else {
        lemma_alive_count_update(g.drop_last(), row, cells);
        assert(changed.drop_last() =~= g.drop_last().update(row, cells));
    }
}

/// Putting one cell of a grid into a state changes the count by that cell
/// alone.
pub proof fn lemma_alive_count_with_cell(g: Grid, row: int, col: int, alive: bool)
    requires
        0 <= row < g.len(),
        0 <= col < g[row].len(),
    ensures
        alive_count(with_cell(g, row, col, alive)) + live(g[row][col]) == alive_count(g) + live(
            alive,
        ),
{
    lemma_row_alive_update(g[row], col, alive);
    lemma_alive_count_update(g, row, g[row].update(col, alive));
}

/// A row of `width` cells that are all in the state `alive` counts all of
/// them or none.
pub proof fn lemma_row_alive_uniform(cells: Seq<bool>, alive: bool)
    requires
        forall|col: int| 0 <= col < cells.len() ==> cells[col] == alive,
    ensures
        row_alive(cells) == cells.len() * live(alive),
    decreases cells.len(),
{
    if cells.len() > 0 {
        lemma_row_alive_uniform(cells.drop_last(), alive);
        assert(cells.len() * live(alive) == cells.drop_last().len() * live(alive) + live(alive))
            by (nonlinear_arith)
            requires
                cells.drop_last().len() == cells.len() - 1,
        ;
    }
}

/// Rows of `width` cells that are all in the state `alive` count all of
/// their cells or none.
pub proof fn lemma_alive_count_uniform_rows(g: Grid, width: nat, alive: bool)
    requires
        forall|row: int| 0 <= row < g.len() ==> (#[trigger] g[row]).len() == width,
        forall|row: int, col: int| 0 <= row < g.len() && 0 <= col < width ==> g[row][col] == alive,
    ensures
        alive_count(g) == g.len() * width * live(alive),
    decreases g.len(),
{
    if g.len() > 0 {
        lemma_alive_count_uniform_rows(g.drop_last(), width, alive);
        lemma_row_alive_uniform(g.last(), alive);
        assert(g.len() * width * live(alive) == g.drop_last().len() * width * live(alive) + width
            * live(alive)) by (nonlinear_arith)
            requires
                g.drop_last().len() == g.len() - 1,
        ;
    }
}

/// The grid of dead cells counts nothing; the grid of live cells counts
/// every cell.
pub proof fn lemma_alive_count_uniform(alive: bool)
    ensures
        is_grid(uniform_grid(alive)),
        alive_count(uniform_grid(alive)) == ROWS * COLUMNS * live(alive),
{
    lemma_alive_count_uniform_rows(uniform_grid(alive), COLUMNS as nat, alive);
}

} // verus!
