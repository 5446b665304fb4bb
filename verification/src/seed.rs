//! Seeding: a world with a given number of live cells at random places.
//!
//! A place is drawn at random and taken if its cell is dead. A draw that
//! lands on a live cell is rejected and made again. So that seeding ends
//! however full the world is, the number of draws in a row that may be
//! rejected is limited; past that limit the cell is chosen by a random rank
//! among the cells that are still dead, which cannot land on a live cell.

use crate::grid::{
    alive_count, is_grid, lemma_alive_count_step, lemma_alive_count_uniform, lemma_row_alive_step,
    live, on_grid, row_alive, with_cell, Grid,
};
use crate::torus::{COLUMNS, ROWS};
use crate::world::World;
use vstd::pervasive::unreached;
use vstd::prelude::*;

verus! {

/// Number of draws in a row that may land on a live cell before the cell is
/// chosen by rank instead.
pub const MAX_DRAWS: usize = 64;

/// Draws an index below `bound`: `rand::Rng::gen_range(0, bound)` on the
/// generator that `rand::thread_rng()` keeps for the calling thread.
///
/// Trusted, not proved. The contract claims only what holds of every draw:
/// the index is less than `bound`. Which index comes out is up to the
/// generator, and two calls with one `bound` may differ. `gen_range` panics
/// on an empty range, so `bound` must not be zero. `thread_rng` panics if
/// the operating system has no seed to give when a thread first asks.
#[verifier::external_body]
fn random_below(bound: usize) -> (index: usize)
    requires
        0 < bound,
    ensures
        index < bound,
{
    rand::Rng::gen_range(&mut rand::thread_rng(), 0, bound)
}

/// Number of live cells that come before `(row, col)` when the grid is read
/// row by row, each row from its first cell.
pub open spec fn alive_before(g: Grid, row: int, col: int) -> nat {
    alive_count(g.take(row)) + row_alive(g[row].take(col))
}

/// Number of dead cells that come before `(row, col)` in the same order.
pub open spec fn dead_before(g: Grid, row: int, col: int) -> int {
    row * COLUMNS + col - alive_before(g, row, col)
}

/// `(row, col)` is the dead cell of `g` with exactly `rank` dead cells
/// before it.
pub open spec fn is_dead_cell_of_rank(g: Grid, row: int, col: int, rank: int) -> bool {
    &&& on_grid(row, col)
    &&& !g[row][col]
    &&& dead_before(g, row, col) == rank
}

/// Along a row, the number of dead cells before a place grows by one with
/// every dead cell that is passed and stays with every live one.
proof fn lemma_dead_before_along_row(g: Grid, row: int, col: int, later: int)
    requires
        is_grid(g),
        0 <= row < ROWS,
        0 <= col <= later <= COLUMNS,
    ensures
        dead_before(g, row, col) <= dead_before(g, row, later),
        col < later && !g[row][col] ==> dead_before(g, row, col) < dead_before(g, row, later),
    decreases later - col,
{
    if col < later {
        lemma_row_alive_step(g[row], col);
        lemma_dead_before_along_row(g, row, col + 1, later);
    }
}

/// From one row to a later one, the number of dead cells before the start
/// of the row does not shrink.
proof fn lemma_dead_before_down_rows(g: Grid, row: int, later: int)
    requires
        is_grid(g),
        0 <= row <= later < ROWS,
    ensures
        dead_before(g, row, 0) <= dead_before(g, later, 0),
        row < later ==> dead_before(g, row, COLUMNS as int) <= dead_before(g, later, 0),
    decreases later - row,
{
    if row < later {
        lemma_dead_before_along_row(g, row, 0, COLUMNS as int);
        lemma_alive_count_step(g, row);
        assert(g[row].take(COLUMNS as int) =~= g[row]);
        lemma_dead_before_down_rows(g, row + 1, later);
    }
}

/// A rank names one cell: no two dead cells of a grid have the same number
/// of dead cells before them.
pub proof fn lemma_rank_names_one_cell(
    g: Grid,
    rank: int,
    row: int,
    col: int,
    other_row: int,
    other_col: int,
)
    requires
        is_grid(g),
        is_dead_cell_of_rank(g, row, col, rank),
        is_dead_cell_of_rank(g, other_row, other_col, rank),
    ensures
        row == other_row,
        col == other_col,
{
    if row == other_row {
        if col < other_col {
            lemma_dead_before_along_row(g, row, col, other_col);
        } else if other_col < col {
            lemma_dead_before_along_row(g, row, other_col, col);
        }
    } else if row < other_row {
        lemma_dead_before_along_row(g, row, col, COLUMNS as int);
        lemma_dead_before_down_rows(g, row, other_row);
        lemma_dead_before_along_row(g, other_row, 0, other_col);
    } else {
        lemma_dead_before_along_row(g, other_row, other_col, COLUMNS as int);
        lemma_dead_before_down_rows(g, other_row, row);
        lemma_dead_before_along_row(g, row, 0, col);
    }
}

/// Brings the cell `(row, col)` to life if it is dead, and says whether it
/// did. A cell that is alive already stays as it is, and so does every
/// other cell.
pub fn seed_cell(world: &mut World, row: usize, col: usize) -> (placed: bool)
    requires
        old(world).wf(),
        row < ROWS,
        col < COLUMNS,
    ensures
        final(world).wf(),
        placed == !old(world)@[row as int][col as int],
        final(world)@ == with_cell(old(world)@, row as int, col as int, true),
        alive_count(final(world)@) == alive_count(old(world)@) + live(placed),
{
    if world.get(row, col) {
        assert(world@[row as int].update(col as int, true) =~= world@[row as int]);
        assert(world@ =~= with_cell(world@, row as int, col as int, true));
        false
    } else {
        world.set(row, col, true);
        true
    }
}

/// Brings to life the dead cell that has exactly `rank` dead cells before
/// it in reading order, and returns its place. `rank` must be less than the
/// number of dead cells.
pub fn seed_dead_cell(world: &mut World, rank: usize) -> (place: (usize, usize))
    requires
        old(world).wf(),
        rank + alive_count(old(world)@) < ROWS * COLUMNS,
    ensures
        final(world).wf(),
        is_dead_cell_of_rank(old(world)@, place.0 as int, place.1 as int, rank as int),
        final(world)@ == with_cell(old(world)@, place.0 as int, place.1 as int, true),
        alive_count(final(world)@) == alive_count(old(world)@) + 1,
{
    let mut seen: usize = 0;
    let mut i: usize = 0;
    while i < ROWS
        invariant
            world.wf(),
            *world == *old(world),
            i <= ROWS,
            seen <= rank,
            seen == dead_before(world@, i as int, 0),
            rank + alive_count(world@) < ROWS * COLUMNS,
        decreases ROWS - i,
    {
        let mut j: usize = 0;
        while j < COLUMNS
            invariant
                world.wf(),
                *world == *old(world),
                i < ROWS,
                j <= COLUMNS,
                seen <= rank,
                seen == dead_before(world@, i as int, j as int),
                rank + alive_count(world@) < ROWS * COLUMNS,
            decreases COLUMNS - j,
        {
            proof {
                lemma_row_alive_step(world@[i as int], j as int);
            }
            if !world.get(i, j) {
                if seen == rank {
                    world.set(i, j, true);
                    return (i, j);
                }
                seen = seen + 1;
            }
            j = j + 1;
        }
        proof {
            assert(world@[i as int].take(COLUMNS as int) =~= world@[i as int]);
            lemma_alive_count_step(world@, i as int);
        }
        i = i + 1;
    }
    proof {
        assert(world@.take(ROWS as int) =~= world@);
    }
    unreached()
}

/// A world with exactly `count` live cells, at places drawn at random; all
/// other cells are dead. No place is seeded twice: a draw that lands on a
/// live cell is made again. `count` must not be more than the world holds.
pub fn create_world(count: usize) -> (world: World)
    requires
        count <= ROWS * COLUMNS,
    ensures
        world.wf(),
        alive_count(world@) == count,
{
    let mut world = World::new();
    proof {
        lemma_alive_count_uniform(false);
    }
    let mut placed: usize = 0;
    while placed < count
        invariant
            world.wf(),
            placed <= count <= ROWS * COLUMNS,
            alive_count(world@) == placed,
        decreases count - placed,
    {
        let mut draws: usize = 0;
        let mut done: bool = false;
        while !done && draws < MAX_DRAWS
            invariant
                world.wf(),
                placed < count <= ROWS * COLUMNS,
                draws <= MAX_DRAWS,
                alive_count(world@) == placed + live(done),
            decreases MAX_DRAWS - draws,
        {
            let row: usize = random_below(ROWS);
            let col: usize = random_below(COLUMNS);
            done = seed_cell(&mut world, row, col);
            draws = draws + 1;
        }
        if !done {
            let rank: usize = random_below(ROWS * COLUMNS - placed);
            seed_dead_cell(&mut world, rank);
        }
        placed = placed + 1;
    }
    world
}

} // verus!
