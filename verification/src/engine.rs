//! The generation engine: computes the next generation of a world from the
//! current one, row by row, reading only the current world and writing only
//! the next.

use crate::rules::{lives_on, neighbours, next_cell, next_generation, next_row};
use crate::torus::{inc, COLUMNS, ROWS};
use crate::world::World;
use vstd::prelude::*;

verus! {

/// Number of live cells among the eight cells around `(row, col)`, with the
/// last row next to the first and the last column next to the first.
pub fn count_neighbours(world: &World, row: usize, col: usize) -> (counter: u8)
    requires
        world.wf(),
        row < ROWS,
        col < COLUMNS,
    ensures
        counter == neighbours(world@, row as int, col as int),
        counter <= 8,
{
    let above: usize = inc(&row, false);
    let below: usize = inc(&row, true);
    let left: usize = inc(&col, false);
    let right: usize = inc(&col, true);
    let mut counter: u8 = 0;
    if world.get(above, left) {
        counter = counter + 1;
    }
    if world.get(above, col) {
        counter = counter + 1;
    }
    if world.get(above, right) {
        counter = counter + 1;
    }
    if world.get(row, left) {
        counter = counter + 1;
    }
    if world.get(row, right) {
        counter = counter + 1;
    }
    if world.get(below, left) {
        counter = counter + 1;
    }
    if world.get(below, col) {
        counter = counter + 1;
    }
    if world.get(below, right) {
        counter = counter + 1;
    }
    counter
}

/// State of a cell in the next generation, from its state now and the
/// number of live cells around it.
pub fn next_state(alive: bool, counter: u8) -> (next: bool)
    ensures
        next == lives_on(alive, counter as nat),
{
    if alive {
        !(counter > 3 || counter < 2)
    } else {
        counter == 3
    }
}

/// Computes the row `i` of the generation after `world` and writes it into
/// `temp_world`. Nothing is read from `temp_world`, and no other row of it
/// is written.
pub fn process_thread(i: usize, world: &World, temp_world: &mut World)
    requires
        world.wf(),
        old(temp_world).wf(),
        i < ROWS,
    ensures
        final(temp_world).wf(),
        final(temp_world)@ == old(temp_world)@.update(i as int, next_row(world@, i as int)),
{
    let mut j: usize = 0;
    while j < COLUMNS
        invariant
            world.wf(),
            old(temp_world).wf(),
            temp_world.wf(),
            i < ROWS,
            j <= COLUMNS,
            temp_world@ == old(temp_world)@.update(i as int, temp_world@[i as int]),
            forall|col: int|
                0 <= col < j ==> temp_world@[i as int][col] == next_cell(world@, i as int, col),
        decreases COLUMNS - j,
    {
        let counter: u8 = count_neighbours(world, i, j);
        let next: bool = next_state(world.get(i, j), counter);
        temp_world.set(i, j, next);
        j = j + 1;
    }
    assert(temp_world@[i as int] =~= next_row(world@, i as int));
}

/// The generation after `world`: every cell is computed from `world` as it
/// was handed in.
pub fn process_day(world: World) -> (next: World)
    requires
        world.wf(),
    ensures
        next.wf(),
        next@ == next_generation(world@),
{
    let mut temp_world = World::new();
    let mut i: usize = 0;
    while i < ROWS
        invariant
            world.wf(),
            temp_world.wf(),
            i <= ROWS,
            forall|row: int| 0 <= row < i ==> temp_world@[row] == next_row(world@, row),
        decreases ROWS - i,
    {
        process_thread(i, &world, &mut temp_world);
        i = i + 1;
    }
    assert(temp_world@ =~= next_generation(world@));
    temp_world
}

} // verus!
