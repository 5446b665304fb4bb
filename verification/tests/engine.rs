use game_of_life::engine::{count_neighbours, next_state, process_day, process_thread};
use game_of_life::seed::create_world;
use game_of_life::torus::{inc, COLUMNS, ROWS};
use game_of_life::world::{count_alive, is_dead, World};

fn world_with(cells: &[(usize, usize)]) -> World {
    let mut world = World::new();
    for &(row, col) in cells {
        world.set(row, col, true);
    }
    world
}

fn moved(world: &World, down: usize, right: usize) -> World {
    let mut result = World::new();
    for row in 0..ROWS {
        for col in 0..COLUMNS {
            result.set((row + down) % ROWS, (col + right) % COLUMNS, world.get(row, col));
        }
    }
    result
}

#[test]
fn moving_the_world_and_computing_the_next_day_commute() {
    let world = create_world(600);
    for &(down, right) in [(0usize, 1usize), (1, 0), (7, 33), (39, 39), (20, 0)].iter() {
        let moved_first = process_day(moved(&world, down, right));
        let moved_after = moved(&process_day(world.clone()), down, right);
        assert_eq!(moved_first, moved_after);
    }
}

#[test]
fn inc_steps_forward_and_backward() {
    assert_eq!(inc(&5, true), 6);
    assert_eq!(inc(&5, false), 4);
    assert_eq!(inc(&0, true), 1);
    assert_eq!(inc(&38, true), 39);
    assert_eq!(inc(&39, false), 38);
    assert_eq!(inc(&1, false), 0);
}

#[test]
fn inc_wraps_at_both_ends() {
    assert_eq!(inc(&39, true), 0);
    assert_eq!(inc(&0, false), 39);
}

#[test]
fn inc_of_an_index_off_the_axis() {
    assert_eq!(inc(&40, true), 0);
    assert_eq!(inc(&100, true), 0);
    assert_eq!(inc(&100, false), 99);
    assert_eq!(inc(&usize::MAX, true), 0);
    assert_eq!(inc(&usize::MAX, false), usize::MAX - 1);
}

#[test]
fn inc_there_and_back_is_the_identity() {
    for digit in 0..ROWS {
        assert_eq!(inc(&inc(&digit, true), false), digit);
        assert_eq!(inc(&inc(&digit, false), true), digit);
    }
}

#[test]
fn next_state_follows_the_rule() {
    let survives = [false, false, true, true, false, false, false, false, false];
    let is_born = [false, false, false, true, false, false, false, false, false];
    for counter in 0..=8u8 {
        assert_eq!(next_state(true, counter), survives[counter as usize]);
        assert_eq!(next_state(false, counter), is_born[counter as usize]);
    }
}

#[test]
fn corner_counts_the_opposite_corner() {
    let world = world_with(&[(ROWS - 1, COLUMNS - 1)]);
    assert_eq!(count_neighbours(&world, 0, 0), 1);
    let world = world_with(&[(0, 0)]);
    assert_eq!(count_neighbours(&world, ROWS - 1, COLUMNS - 1), 1);
    let world = world_with(&[(ROWS - 1, 0)]);
    assert_eq!(count_neighbours(&world, 0, COLUMNS - 1), 1);
    let world = world_with(&[(0, COLUMNS - 1)]);
    assert_eq!(count_neighbours(&world, ROWS - 1, 0), 1);
}

#[test]
fn edges_count_the_cells_across() {
    for col in 0..COLUMNS {
        let world = world_with(&[(ROWS - 1, col)]);
        assert_eq!(count_neighbours(&world, 0, col), 1);
        let world = world_with(&[(0, col)]);
        assert_eq!(count_neighbours(&world, ROWS - 1, col), 1);
    }
    for row in 0..ROWS {
        let world = world_with(&[(row, COLUMNS - 1)]);
        assert_eq!(count_neighbours(&world, row, 0), 1);
        let world = world_with(&[(row, 0)]);
        assert_eq!(count_neighbours(&world, row, COLUMNS - 1), 1);
    }
}

#[test]
fn lone_cell_is_counted_by_the_eight_cells_that_touch_it() {
    for &(row, col) in [(0usize, 0usize), (0, 39), (39, 0), (39, 39), (0, 17), (22, 39), (9, 9)]
        .iter()
    {
        let world = world_with(&[(row, col)]);
        let mut counting = 0;
        for r in 0..ROWS {
            for c in 0..COLUMNS {
                let down = (r + ROWS - row) % ROWS;
                let right = (c + COLUMNS - col) % COLUMNS;
                let near_row = down == 0 || down == 1 || down == ROWS - 1;
                let near_col = right == 0 || right == 1 || right == COLUMNS - 1;
                let touches = near_row && near_col && !(r == row && c == col);
                assert_eq!(count_neighbours(&world, r, c), if touches { 1 } else { 0 });
                counting += count_neighbours(&world, r, c) as usize;
            }
        }
        assert_eq!(counting, 8);
    }
}

#[test]
fn count_neighbours_leaves_the_cell_itself_out() {
    let mut world = World::new();
    for row in 4..7 {
        for col in 4..7 {
            world.set(row, col, true);
        }
    }
    assert_eq!(count_neighbours(&world, 5, 5), 8);
    world.set(5, 5, false);
    assert_eq!(count_neighbours(&world, 5, 5), 8);
    assert_eq!(count_neighbours(&world, 4, 4), 2);
    assert_eq!(count_neighbours(&world, 3, 3), 1);
    assert_eq!(count_neighbours(&world, 5, 7), 3);
}

#[test]
fn block_is_a_still_life() {
    let block = world_with(&[(10, 10), (10, 11), (11, 10), (11, 11)]);
    let next = process_day(block.clone());
    assert_eq!(next, block);
    assert_eq!(count_alive(&next), 4);
}

#[test]
fn block_across_the_edges_is_a_still_life() {
    let block = world_with(&[(39, 39), (39, 0), (0, 39), (0, 0)]);
    assert_eq!(process_day(block.clone()), block);
}

#[test]
fn block_stays_beside_other_life_two_cells_away() {
    let mut world = world_with(&[(10, 10), (10, 11), (11, 10), (11, 11)]);
    world.set(14, 10, true);
    world.set(14, 11, true);
    world.set(14, 12, true);
    let next = process_day(world);
    for row in 9..13 {
        for col in 9..13 {
            let in_block = (row == 10 || row == 11) && (col == 10 || col == 11);
            assert_eq!(next.get(row, col), in_block);
        }
    }
}

#[test]
fn blinker_turns_with_period_two() {
    let lying = world_with(&[(5, 4), (5, 5), (5, 6)]);
    let standing = world_with(&[(4, 5), (5, 5), (6, 5)]);
    let first = process_day(lying.clone());
    assert_eq!(first, standing);
    let second = process_day(first);
    assert_eq!(second, lying);
}

#[test]
fn blinker_turns_across_the_edge() {
    let lying = world_with(&[(0, 39), (0, 0), (0, 1)]);
    let standing = world_with(&[(39, 0), (0, 0), (1, 0)]);
    assert_eq!(process_day(lying.clone()), standing);
    assert_eq!(process_day(standing), lying);
}

#[test]
fn glider_moves_as_expected() {
    let glider = world_with(&[(1, 2), (2, 3), (3, 1), (3, 2), (3, 3)]);
    let next = process_day(glider);
    assert_eq!(next, world_with(&[(2, 1), (2, 3), (3, 2), (3, 3), (4, 2)]));
}

#[test]
fn lonely_cells_die() {
    let world = world_with(&[(3, 3), (20, 20), (20, 21)]);
    assert!(is_dead(&process_day(world)));
}

#[test]
fn dead_world_stays_dead() {
    assert_eq!(process_day(World::new()), World::new());
}

#[test]
fn full_world_dies_in_one_generation() {
    let full = create_world(ROWS * COLUMNS);
    assert_eq!(count_alive(&full), 1600);
    for row in 0..ROWS {
        for col in 0..COLUMNS {
            assert_eq!(count_neighbours(&full, row, col), 8);
        }
    }
    let next = process_day(full);
    assert!(is_dead(&next));
    assert_eq!(count_alive(&next), 0);
}

#[test]
fn process_day_gives_the_same_result_twice() {
    let world = create_world(700);
    let first = process_day(world.clone());
    let second = process_day(world.clone());
    assert_eq!(first, second);
}

#[test]
fn process_day_applies_the_rule_to_every_cell() {
    let world = create_world(500);
    let next = process_day(world.clone());
    for row in 0..ROWS {
        for col in 0..COLUMNS {
            let counter = count_neighbours(&world, row, col);
            assert_eq!(next.get(row, col), next_state(world.get(row, col), counter));
        }
    }
}

#[test]
fn process_thread_writes_its_row_only() {
    let world = world_with(&[(5, 4), (5, 5), (5, 6)]);
    let mut target = create_world(ROWS * COLUMNS);
    process_thread(4, &world, &mut target);
    for row in 0..ROWS {
        for col in 0..COLUMNS {
            let expected = if row == 4 { col == 5 } else { true };
            assert_eq!(target.get(row, col), expected);
        }
    }
}

#[test]
fn process_thread_row_by_row_is_process_day() {
    let world = create_world(600);
    let mut target = World::new();
    for row in 0..ROWS {
        process_thread(row, &world, &mut target);
    }
    assert_eq!(target, process_day(world));
}
