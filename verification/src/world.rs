//! The world that the simulation runs on: a grid of fixed size that can be
//! read and changed cell by cell.

use crate::grid::{
    alive_count, is_grid, lemma_alive_count_step, lemma_alive_count_with_cell,
    lemma_alive_count_zero, lemma_row_alive_step, live, row_alive, uniform_grid, with_cell, Grid,
};
use crate::torus::{COLUMNS, ROWS};
use vstd::prelude::*;

verus! {

/// A world of `ROWS` by `COLUMNS` cells.
#[derive(Clone, Debug, PartialEq, Eq)]
pub struct World {
    cells: Vec<Vec<bool>>,
}

impl View for World {
    type V = Grid;

    /// The world as rows of cells.
    closed spec fn view(&self) -> Grid {
        Seq::new(self.cells@.len(), |row: int| self.cells@[row]@)
    }
}

impl World {
    /// The world has its fixed size. Every world that this library hands
    /// out has it, and every operation keeps it.
    pub open spec fn wf(&self) -> bool {
        is_grid(self@)
    }

    /// A world in which every cell is dead.
    pub fn new() -> (world: World)
        ensures
            world.wf(),
            world@ == uniform_grid(false),
    {
        let mut cells: Vec<Vec<bool>> = Vec::new();
        let mut row: usize = 0;
        while row < ROWS
            invariant
                row <= ROWS,
                cells@.len() == row,
                forall|r: int| 0 <= r < row ==> (#[trigger] cells@[r])@ == uniform_grid(false)[r],
            decreases ROWS - row,
        {
            let mut line: Vec<bool> = Vec::new();
            let mut col: usize = 0;
            while col < COLUMNS
                invariant
                    col <= COLUMNS,
                    line@.len() == col,
                    forall|c: int| 0 <= c < col ==> !line@[c],
                decreases COLUMNS - col,
            {
                line.push(false);
                col = col + 1;
            }
            assert(line@ =~= uniform_grid(false)[row as int]);
            cells.push(line);
            row = row + 1;
        }
        let world = World { cells };
        assert(world@ =~= uniform_grid(false));
        world
    }

    /// Whether the cell `(row, col)` is alive. The cell must lie in the
    /// world.
    pub fn get(&self, row: usize, col: usize) -> (alive: bool)
        requires
            self.wf(),
            row < ROWS,
            col < COLUMNS,
        ensures
            alive == self@[row as int][col as int],
    {
        assert(self@[row as int].len() == COLUMNS);
        self.cells[row][col]
    }

    /// Puts the cell `(row, col)` into the state `alive` and leaves every
    /// other cell as it is. The cell must lie in the world.
    pub fn set(&mut self, row: usize, col: usize, alive: bool)
        requires
            old(self).wf(),
            row < ROWS,
            col < COLUMNS,
        ensures
            final(self).wf(),
            final(self)@ == with_cell(old(self)@, row as int, col as int, alive),
            alive_count(final(self)@) + live(old(self)@[row as int][col as int]) == alive_count(
                old(self)@,
            ) + live(alive),
    {
        assert(self@[row as int].len() == COLUMNS);
        self.cells[row][col] = alive;
        assert(self@ =~= with_cell(old(self)@, row as int, col as int, alive));
        proof {
            lemma_alive_count_with_cell(old(self)@, row as int, col as int, alive);
        }
    }
}

/// Number of cells of `world` that are alive.
pub fn count_alive(world: &World) -> (count: usize)
    requires
        world.wf(),
    ensures
        count == alive_count(world@),
        count <= ROWS * COLUMNS,
{
    let mut counter: usize = 0;
    let mut i: usize = 0;
    while i < ROWS
        invariant
            world.wf(),
            i <= ROWS,
            counter == alive_count(world@.take(i as int)),
            counter <= i * COLUMNS,
        decreases ROWS - i,
    {
        let ghost cells = world@[i as int];
        let mut in_row: usize = 0;
        let mut j: usize = 0;
        while j < COLUMNS
            invariant
                world.wf(),
                i < ROWS,
                j <= COLUMNS,
                cells == world@[i as int],
                in_row == row_alive(cells.take(j as int)),
                in_row <= j,
            decreases COLUMNS - j,
        {
            proof {
                lemma_row_alive_step(cells, j as int);
            }
            if world.get(i, j) {
                in_row = in_row + 1;
            }
            j = j + 1;
        }
        proof {
            assert(cells.take(COLUMNS as int) =~= cells);
            lemma_alive_count_step(world@, i as int);
        }
        counter = counter + in_row;
        i = i + 1;
    }
    proof {
        assert(world@.take(ROWS as int) =~= world@);
    }
    counter
}

/// Whether no cell of `world` is alive.
pub fn is_dead(world: &World) -> (dead: bool)
    requires
        world.wf(),
    ensures
        dead <==> alive_count(world@) == 0,
        dead <==> world@ == uniform_grid(false),
{
    let mut dead: bool = true;
    let mut i: usize = 0;
    while i < ROWS
        invariant
            world.wf(),
            i <= ROWS,
            dead <==> forall|row: int, col: int|
                0 <= row < i && 0 <= col < COLUMNS ==> !world@[row][col],
        decreases ROWS - i,
    {
        let mut j: usize = 0;
        while j < COLUMNS
            invariant
                world.wf(),
                i < ROWS,
                j <= COLUMNS,
                dead <==> forall|row: int, col: int|
                    (0 <= row < i && 0 <= col < COLUMNS) || (row == i && 0 <= col < j)
                        ==> !world@[row][col],
            decreases COLUMNS - j,
        {
            if world.get(i, j) {
                dead = false;
            }
            j = j + 1;
        }
        i = i + 1;
    }
    proof {
        lemma_alive_count_zero(world@);
        if dead {
            assert(world@ =~~= uniform_grid(false));
        }
    }
    dead
}

} // verus!
