//! The simulation as a state machine: a world ages by one generation per
//! step until no cell is alive. What is shown and how long to wait between
//! frames is the caller's affair; what happens next is decided here.

use crate::engine::process_day;
use crate::grid::alive_count;
use crate::render::{display_world, status_line, status_text, world_text};
use crate::rules::next_generation;
use crate::world::{count_alive, is_dead, World};
use vstd::prelude::*;
use vstd::string::StringExecFns;

verus! {

/// A running simulation.
#[derive(Clone, Debug, PartialEq, Eq)]
pub struct Simulation {
    /// The current generation.
    pub world: World,
    /// Number of generations computed so far.
    pub day: u64,
    /// Number of cells that were alive in the first generation.
    pub alive_at_start: usize,
}

/// What a step of the simulation leads to.
#[derive(Clone, Debug, PartialEq, Eq)]
pub enum Step {
    /// Some cell was alive: the simulation goes on with the next
    /// generation.
    Running(Simulation),
    /// No cell was alive: the simulation is over.
    Terminated,
}

impl Simulation {
    /// The world of the simulation has its fixed size.
    pub open spec fn wf(&self) -> bool {
        self.world.wf()
    }

    /// The simulation over.
    pub open spec fn is_over(&self) -> bool {
        alive_count(self.world@) == 0
    }

    /// A simulation that starts from `world`, on day 0.
    pub fn new(world: World) -> (sim: Simulation)
        requires
            world.wf(),
        ensures
            sim.wf(),
            sim.world == world,
            sim.day == 0,
            sim.alive_at_start == alive_count(world@),
    {
        let alive_at_start: usize = count_alive(&world);
        Simulation { world, day: 0, alive_at_start }
    }

    /// The frame that shows the simulation as it stands: the world, then
    /// the status line.
    pub fn frame(&self) -> (text: String)
        requires
            self.wf(),
        ensures
            text@ == world_text(self.world@) + status_text(
                self.day as nat,
                self.alive_at_start as nat,
                alive_count(self.world@),
            ),
    {
        let mut text = display_world(&self.world);
        let status = status_line(self.day, self.alive_at_start, count_alive(&self.world));
        text.append(status.as_str());
        text
    }

    /// One step. A simulation in whose world no cell is alive is over, and
    /// only such a one; any other goes on, a day later, with the next
    /// generation of its world. The day must not be the last that a `u64`
    /// can count.
    pub fn advance(self) -> (step: Step)
        requires
            self.wf(),
            self.day < u64::MAX,
        ensures
            step is Terminated <==> self.is_over(),
            step matches Step::Running(next) ==> next.wf() && next.world@ == next_generation(
                self.world@,
            ) && next.day == self.day + 1 && next.alive_at_start == self.alive_at_start,
    {
        if is_dead(&self.world) {
            Step::Terminated
        } else {
            Step::Running(
                Simulation {
                    world: process_day(self.world),
                    day: self.day + 1,
                    alive_at_start: self.alive_at_start,
                },
            )
        }
    }
}

} // verus!
