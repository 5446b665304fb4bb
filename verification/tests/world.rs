use game_of_life::torus::{COLUMNS, ROWS};
use game_of_life::world::{count_alive, is_dead, World};

#[test]
fn dimensions_are_forty_by_forty() {
    assert_eq!(ROWS, 40);
    assert_eq!(COLUMNS, 40);
}

#[test]
fn new_world_has_no_live_cell() {
    let world = World::new();
    for row in 0..ROWS {
        for col in 0..COLUMNS {
            assert!(!world.get(row, col));
        }
    }
    assert_eq!(count_alive(&world), 0);
    assert!(is_dead(&world));
}

#[test]
fn set_changes_one_cell_only() {
    let mut world = World::new();
    world.set(3, 7, true);
    for row in 0..ROWS {
        for col in 0..COLUMNS {
            assert_eq!(world.get(row, col), row == 3 && col == 7);
        }
    }
    world.set(3, 7, false);
    assert_eq!(world, World::new());
}

#[test]
fn count_alive_counts_each_live_cell_once() {
    let mut world = World::new();
    world.set(0, 0, true);
    assert_eq!(count_alive(&world), 1);
    world.set(39, 39, true);
    assert_eq!(count_alive(&world), 2);
    world.set(0, 0, true);
    assert_eq!(count_alive(&world), 2);
    world.set(17, 23, true);
    assert_eq!(count_alive(&world), 3);
    world.set(39, 39, false);
    assert_eq!(count_alive(&world), 2);
}

#[test]
fn count_alive_of_a_row_and_a_column() {
    let mut world = World::new();
    for col in 0..COLUMNS {
        world.set(12, col, true);
    }
    assert_eq!(count_alive(&world), 40);
    for row in 0..ROWS {
        world.set(row, 5, true);
    }
    assert_eq!(count_alive(&world), 79);
}

#[test]
fn count_alive_never_exceeds_the_number_of_cells() {
    let mut world = World::new();
    for row in 0..ROWS {
        for col in 0..COLUMNS {
            world.set(row, col, true);
            assert!(count_alive(&world) <= ROWS * COLUMNS);
        }
    }
    assert_eq!(count_alive(&world), 1600);
    assert!(!is_dead(&world));
}

#[test]
fn is_dead_sees_a_single_live_cell_anywhere() {
    for &(row, col) in [(0usize, 0usize), (0, 39), (39, 0), (39, 39), (20, 19)].iter() {
        let mut world = World::new();
        world.set(row, col, true);
        assert!(!is_dead(&world));
        world.set(row, col, false);
        assert!(is_dead(&world));
    }
}
