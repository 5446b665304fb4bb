use game_of_life::seed::{create_world, seed_cell, seed_dead_cell, MAX_DRAWS};
use game_of_life::torus::{COLUMNS, ROWS};
use game_of_life::world::{count_alive, is_dead, World};

#[test]
fn create_world_seeds_exactly_the_number_asked_for() {
    for &count in [0usize, 1, 2, 40, 799, 800, 1234, 1598, 1599, 1600].iter() {
        let world = create_world(count);
        assert_eq!(count_alive(&world), count);
    }
}

#[test]
fn create_world_of_nothing_is_dead() {
    let world = create_world(0);
    assert!(is_dead(&world));
    assert_eq!(world, World::new());
}

#[test]
fn create_world_of_everything_is_full() {
    let world = create_world(ROWS * COLUMNS);
    for row in 0..ROWS {
        for col in 0..COLUMNS {
            assert!(world.get(row, col));
        }
    }
}

#[test]
fn create_world_keeps_within_the_grid_over_many_draws() {
    for _ in 0..20 {
        let world = create_world(1500);
        assert_eq!(count_alive(&world), 1500);
    }
}

#[test]
fn create_world_places_cells_in_more_than_one_way() {
    let first = create_world(800);
    let mut differs = false;
    for _ in 0..8 {
        if create_world(800) != first {
            differs = true;
        }
    }
    assert!(differs);
}

#[test]
fn draws_are_limited() {
    assert_eq!(MAX_DRAWS, 64);
}

#[test]
fn seed_cell_takes_a_dead_cell() {
    let mut world = World::new();
    assert!(seed_cell(&mut world, 7, 9));
    assert!(world.get(7, 9));
    assert_eq!(count_alive(&world), 1);
}

#[test]
fn seed_cell_rejects_a_live_cell() {
    let mut world = World::new();
    world.set(7, 9, true);
    let before = world.clone();
    assert!(!seed_cell(&mut world, 7, 9));
    assert_eq!(world, before);
    assert_eq!(count_alive(&world), 1);
}

#[test]
fn seed_dead_cell_goes_by_rank_in_reading_order() {
    let mut world = World::new();
    assert_eq!(seed_dead_cell(&mut world, 0), (0, 0));
    assert_eq!(seed_dead_cell(&mut world, 0), (0, 1));
    assert_eq!(seed_dead_cell(&mut world, 0), (0, 2));
    assert_eq!(seed_dead_cell(&mut world, 1), (0, 4));
    assert_eq!(seed_dead_cell(&mut world, 0), (0, 3));
    assert_eq!(seed_dead_cell(&mut world, 35), (1, 0));
    assert_eq!(seed_dead_cell(&mut world, 1593), (39, 39));
    assert_eq!(count_alive(&world), 7);
    assert!(world.get(0, 4) && world.get(1, 0) && world.get(39, 39));
}

#[test]
fn seed_dead_cell_finds_the_last_dead_cell() {
    let mut world = World::new();
    for row in 0..ROWS {
        for col in 0..COLUMNS {
            world.set(row, col, !(row == 23 && col == 31));
        }
    }
    assert_eq!(count_alive(&world), 1599);
    assert_eq!(seed_dead_cell(&mut world, 0), (23, 31));
    assert_eq!(count_alive(&world), 1600);
}
