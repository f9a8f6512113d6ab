use rand::rngs::StdRng;
use vstd::prelude::*;

use crate::animal_simulation::animal::Animal;
use crate::animal_simulation::config::Config;
use crate::animal_simulation::food::Food;

verus! {

/// The animals and the food on the plane.
pub struct World {
    pub animals: Vec<Animal>,
    pub foods: Vec<Food>,
}

/// Every piece of food lies in the arena.
pub open spec fn all_in_arena(foods: Seq<Food>) -> bool {
    forall|j: int| 0 <= j < foods.len() ==> (#[trigger] foods[j]).position.in_arena()
}

impl World {
    pub fn animals(&self) -> (animals: &[Animal])
        ensures
            animals@ == self.animals@,
    {
        self.animals.as_slice()
    }

    pub fn foods(&self) -> (foods: &[Food])
        ensures
            foods@ == self.foods@,
    {
        self.foods.as_slice()
    }

    /// A world without animals, with `world_foods` pieces of food at random
    /// places.
    pub fn random(config: &Config, rng: &mut StdRng) -> (world: Self)
        ensures
            world.animals@.len() == 0,
            world.foods@.len() == config.world_foods,
            all_in_arena(world.foods@),
    {
        let animals: Vec<Animal> = Vec::new();
        let mut foods: Vec<Food> = Vec::new();
        let mut j: usize = 0;
        while j < config.world_foods
            invariant
                j <= config.world_foods,
                foods@.len() == j,
                all_in_arena(foods@),
            decreases config.world_foods - j,
        {
            foods.push(Food::random(config, rng));
            j = j + 1;
        }
        Self { animals, foods }
    }
}

} // verus!
