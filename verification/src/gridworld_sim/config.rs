use vstd::prelude::*;

use crate::fixed::SCALE;
use crate::gridworld::consts::{INPUTS_SIZE, OUTPUTS_SIZE};

verus! {

/// The parameters of a run on the grid. Fitness, chance and coefficient are
/// in millionths.
#[derive(Clone, Copy, Debug)]
pub struct Config {
    pub start_fitness: i64,
    pub brain_neurons: usize,
    pub ga_mut_chance: u32,
    pub ga_mut_coeff: i32,
    pub sim_generation_length: usize,
    pub world_creatures: usize,
    pub world_foods: usize,
    pub world_lava: usize,
    pub enable_memory: bool,
}

impl Config {
    /// The chance is a probability, the coefficient is not negative, and the
    /// sizes of the network's layers and the generation's length can be
    /// counted in a machine word.
    pub open spec fn valid(&self) -> bool {
        &&& self.ga_mut_chance <= SCALE
        &&& self.ga_mut_coeff >= 0
        &&& INPUTS_SIZE * self.brain_neurons <= usize::MAX
        &&& self.brain_neurons * self.brain_neurons <= usize::MAX
        &&& self.brain_neurons * OUTPUTS_SIZE <= usize::MAX
        &&& self.sim_generation_length < usize::MAX
    }

    pub fn is_valid(&self) -> (valid: bool)
        ensures
            valid == self.valid(),
    {
        self.ga_mut_chance <= 1_000_000 && self.ga_mut_coeff >= 0
            && self.brain_neurons.checked_mul(INPUTS_SIZE).is_some()
            && self.brain_neurons.checked_mul(self.brain_neurons).is_some()
            && self.brain_neurons.checked_mul(OUTPUTS_SIZE).is_some() && self.sim_generation_length
            < usize::MAX
    }
}

impl Default for Config {
    fn default() -> (config: Self)
        ensures
            config.valid(),
            config.start_fitness == 0,
            config.brain_neurons == 128,
            config.ga_mut_chance == 25_000,
            config.ga_mut_coeff == 500_000,
            config.sim_generation_length == 500,
            config.world_creatures == 96,
            config.world_foods == 128,
            config.world_lava == 512,
            !config.enable_memory,
    {
        Self {
            start_fitness: 0,
            brain_neurons: 128,
            ga_mut_chance: 25_000,
            ga_mut_coeff: 500_000,
            sim_generation_length: 500,
            world_creatures: 96,
            world_foods: 128,
            world_lava: 512,
            enable_memory: false,
        }
    }
}

} // verus!
