use rand::rngs::StdRng;
use vstd::prelude::*;

use crate::animal_simulation::config::Config;
use crate::animal_simulation::point::Point2;

verus! {

/// A piece of food on the plane.
#[derive(Copy, Clone, Debug)]
pub struct Food {
    pub position: Point2,
}

impl Food {
    pub fn position(&self) -> (position: Point2)
        ensures
            position == self.position,
    {
        self.position
    }

    /// Food at a random place of the arena.
    pub fn random(config: &Config, rng: &mut StdRng) -> (food: Self)
        ensures
            food.position.in_arena(),
    {
        Self { position: Point2::random(rng) }
    }
}

} // verus!
