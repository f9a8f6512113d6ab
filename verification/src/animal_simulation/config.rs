use vstd::prelude::*;

use crate::fixed::SCALE;
use crate::trig::FULL_TURN;

verus! {

/// The parameters of a run on the plane. Lengths, speeds, chances and costs
/// are in millionths; angles in millionths of a radian.
#[derive(Clone, Copy, Debug)]
pub struct Config {
    pub brain_neurons: usize,
    pub eye_fov_range: i32,
    pub eye_fov_angle: i32,
    pub eye_cells: usize,
    pub food_size: i32,
    pub animal_size: i32,
    pub arc_size: i32,
    /// Where this is 1, low fitness is bred for: at the end of a generation
    /// every fitness is replaced by its distance below the greatest
    /// satiation.
    pub ga_reverse: usize,
    pub ga_mut_chance: u32,
    pub ga_mut_coeff: i32,
    pub sim_speed_min: i32,
    pub sim_speed_max: i32,
    pub sim_speed_accel: i32,
    pub sim_rotation_accel: i32,
    pub sim_generation_length: usize,
    pub stun_duration: u8,
    pub stun_cooldown: u8,
    pub boost_cost: i32,
    pub world_animals: usize,
    pub world_foods: usize,
    pub window_size: usize,
}

impl Config {
    /// The chance is a probability; sizes, range and field of view are
    /// positive; the least speed is no greater than the greatest, and the
    /// accelerations are not negative, so that there is a speed between the
    /// two and a change within the acceleration either way; twice the
    /// greatest speed, twice the stun and the sizes of the network's layers
    /// can be held in the types that hold them.
    pub open spec fn valid(&self) -> bool {
        &&& self.ga_mut_chance <= SCALE
        &&& self.ga_mut_coeff >= 0
        &&& self.eye_fov_range > 0
        &&& 0 < self.eye_fov_angle <= FULL_TURN
        &&& self.eye_cells >= 1
        &&& self.food_size > 0
        &&& self.animal_size > 0
        &&& self.sim_speed_min <= self.sim_speed_max
        &&& i32::MIN <= self.sim_speed_max * 2 <= i32::MAX
        &&& self.sim_speed_accel >= 0
        &&& self.sim_rotation_accel >= 0
        &&& self.stun_duration * 2 <= u8::MAX
        &&& self.eye_cells * 4 + 1 <= usize::MAX
        &&& (self.eye_cells * 4 + 1) * self.brain_neurons <= usize::MAX
        &&& self.brain_neurons * 3 <= usize::MAX
        &&& self.sim_generation_length < usize::MAX
    }

    pub fn is_valid(&self) -> (valid: bool)
        ensures
            valid == self.valid(),
    {
        if !(self.ga_mut_chance <= 1_000_000 && self.ga_mut_coeff >= 0 && self.eye_fov_range > 0
            && 0 < self.eye_fov_angle && self.eye_fov_angle <= FULL_TURN && self.eye_cells >= 1
            && self.food_size > 0 && self.animal_size > 0 && self.sim_speed_min
            <= self.sim_speed_max && i32::MIN / 2 <= self.sim_speed_max && self.sim_speed_max
            <= i32::MAX / 2
            && self.sim_speed_accel >= 0 && self.sim_rotation_accel >= 0 && self.stun_duration
            <= u8::MAX / 2 && self.sim_generation_length < usize::MAX) {
            return false;
        }
        match self.eye_cells.checked_mul(4) {
            Some(slots) => match slots.checked_add(1) {
                Some(inputs) => inputs.checked_mul(self.brain_neurons).is_some()
                    && self.brain_neurons.checked_mul(3).is_some(),
                None => false,
            },
            None => false,
        }
    }
}

impl Default for Config {
    fn default() -> (config: Self)
        ensures
            config.valid(),
            config.brain_neurons == 27,
            config.eye_fov_range == 250_000,
            config.eye_fov_angle == 5_061_455,
            config.eye_cells == 9,
            config.food_size == 10_000,
            config.animal_size == 20_000,
            config.arc_size == 50_000,
            config.ga_reverse == 0,
            config.ga_mut_chance == 15_000,
            config.ga_mut_coeff == 300_000,
            config.sim_speed_min == 1_000,
            config.sim_speed_max == 4_000,
            config.sim_speed_accel == 200_000,
            config.sim_rotation_accel == 1_570_796,
            config.sim_generation_length == 2500,
            config.stun_duration == 15,
            config.stun_cooldown == 15,
            config.boost_cost == 15_000,
            config.world_animals == 20,
            config.world_foods == 20,
            config.window_size == 640,
    {
        Self {
            brain_neurons: 27,
            eye_fov_range: 250_000,
            eye_fov_angle: 5_061_455,
            eye_cells: 9,
            food_size: 10_000,
            animal_size: 20_000,
            arc_size: 50_000,
            ga_reverse: 0,
            ga_mut_chance: 15_000,
            ga_mut_coeff: 300_000,
            sim_speed_min: 1_000,
            sim_speed_max: 4_000,
            sim_speed_accel: 200_000,
            sim_rotation_accel: 1_570_796,
            sim_generation_length: 2500,
            stun_duration: 15,
            stun_cooldown: 15,
            boost_cost: 15_000,
            world_animals: 20,
            world_foods: 20,
            window_size: 640,
        }
    }
}

} // verus!
