use game_of_life::driver::{Simulation, Step};
use game_of_life::seed::create_world;
use game_of_life::world::{count_alive, is_dead, World};

#[test]
fn simulation_starts_on_day_zero() {
    let world = create_world(321);
    let sim = Simulation::new(world.clone());
    assert_eq!(sim.day, 0);
    assert_eq!(sim.alive_at_start, 321);
    assert_eq!(sim.world, world);
}

#[test]
fn dead_world_ends_after_its_first_frame() {
    let sim = Simulation::new(create_world(0));
    assert!(is_dead(&sim.world));
    assert_eq!(sim.day, 0);
    assert!(sim.frame().ends_with("\nDay: 0, Alive at start: 0, Alive now: 0\n\n"));
    assert_eq!(sim.advance(), Step::Terminated);
}

#[test]
fn full_world_is_dead_on_day_one() {
    let sim = Simulation::new(create_world(1600));
    assert!(sim
        .frame()
        .ends_with("\nDay: 0, Alive at start: 1600, Alive now: 1600\n\n"));
    let next = match sim.advance() {
        Step::Running(next) => next,
        Step::Terminated => panic!("the full world is not dead"),
    };
    assert_eq!(next.day, 1);
    assert_eq!(next.alive_at_start, 1600);
    assert!(is_dead(&next.world));
    assert!(next
        .frame()
        .ends_with("\nDay: 1, Alive at start: 1600, Alive now: 0\n\n"));
    assert_eq!(next.advance(), Step::Terminated);
}

#[test]
fn blinker_runs_on_and_keeps_its_start() {
    let mut world = World::new();
    world.set(5, 4, true);
    world.set(5, 5, true);
    world.set(5, 6, true);
    let mut sim = Simulation::new(world.clone());
    for day in 1..=10u64 {
        sim = match sim.advance() {
            Step::Running(next) => next,
            Step::Terminated => panic!("a blinker does not die"),
        };
        assert_eq!(sim.day, day);
        assert_eq!(sim.alive_at_start, 3);
        assert_eq!(count_alive(&sim.world), 3);
        assert_eq!(sim.world == world, day % 2 == 0);
    }
}

#[test]
fn frame_is_the_world_then_the_status_line() {
    let mut world = World::new();
    world.set(0, 0, true);
    let sim = Simulation { world, day: 12, alive_at_start: 34 };
    let mut expected = String::from("\u{1b}[2J");
    for row in 0..40 {
        expected.push_str(if row == 0 { "0 " } else { "_ " });
        expected.push_str(&"_ ".repeat(39));
        expected.push('\n');
    }
    expected.push('\n');
    expected.push_str("\nDay: 12, Alive at start: 34, Alive now: 1\n\n");
    assert_eq!(sim.frame(), expected);
}
