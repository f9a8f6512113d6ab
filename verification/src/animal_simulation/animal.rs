use rand::rngs::StdRng;
use vstd::prelude::*;

use crate::animal_simulation::brain::{boost_of, speed_change, turn, Brain};
use crate::animal_simulation::config::Config;
use crate::animal_simulation::eye::{Eye, VisibleAnimal};
use crate::animal_simulation::food::Food;
use crate::animal_simulation::point::{distance_squared, wrap_unit, wrapped_unit, Point2};
use crate::fixed::{clamp, clamp_i32, floor_div, mul_i32, mul_scaled, saturate_i32, SCALE};
use crate::rng::uniform_between;
use crate::trig::{cosine, cosine_of, normal, normalize, sine, sine_of, HALF_TURN};

verus! {

/// An animal on the plane. `brain` is the number of its network among those
/// of the population.
pub struct Animal {
    pub position: Point2,
    /// The heading, in `[-HALF_TURN, HALF_TURN)`.
    pub rotation: i32,
    pub vision: Vec<i32>,
    pub speed: i32,
    pub eye: Eye,
    pub brain: usize,
    pub satiation: usize,
    pub boosts: usize,
    pub boosting: bool,
    /// Ticks for which the animal is still stunned.
    pub stunned: u8,
    /// Ticks for which the animal cannot be stunned again.
    pub stunned_cooldown: u8,
}

/// The least angle between two headings from which a meeting counts: a
/// twelfth of half a turn.
pub const MEETING_ANGLE: i32 = 261_799;

/// Satiation that changes hands where a boosting animal meets a stunned one.
pub const PREY: usize = 3;

/// The sum, stopping at the largest value.
pub open spec fn capped_sum(a: usize, b: int) -> usize {
    if a + b > usize::MAX {
        usize::MAX
    } else {
        (a + b) as usize
    }
}

/// Where an animal at `position`, heading `rotation`, is after a tick at
/// `speed`: the speed along the heading, which for heading zero is the
/// second axis, and around the edges of the arena.
pub open spec fn moved(position: Point2, rotation: i32, speed: i32) -> Point2 {
    Point2 {
        x: wrapped_unit(position.x - mul_scaled(speed as int, sine_of(rotation as int))) as i32,
        y: wrapped_unit(position.y + mul_scaled(speed as int, cosine_of(rotation as int))) as i32,
    }
}

/// The animal after `duration` ticks of stun are dealt to it: it takes them
/// unless it is stunned already or was so recently, stops, and boosts no
/// more.
pub open spec fn stunned_for(animal: Animal, duration: u8) -> Animal {
    if animal.stunned == 0 && animal.stunned_cooldown == 0 {
        Animal { stunned: duration, boosting: false, speed: 0, ..animal }
    } else {
        animal
    }
}

/// The animal after a tick of movement. One that is not stunned moves and
/// its cooldown runs down; one that is stunned stays and its stun runs
/// down, and where it ends, the cooldown begins.
pub open spec fn after_movement(animal: Animal, config: &Config) -> Animal {
    if animal.stunned == 0 {
        Animal {
            position: moved(animal.position, animal.rotation, animal.speed),
            stunned_cooldown: if animal.stunned_cooldown > 0 {
                (animal.stunned_cooldown - 1) as u8
            } else {
                0
            },
            ..animal
        }
    } else {
        Animal {
            stunned: (animal.stunned - 1) as u8,
            stunned_cooldown: if animal.stunned == 1 {
                config.stun_cooldown
            } else {
                animal.stunned_cooldown
            },
            ..animal
        }
    }
}

/// The animal after it has taken up what its brain asks for: a boost sets
/// the speed to twice the greatest and is counted; without one the speed
/// changes within its bounds. The heading turns.
pub open spec fn after_decision(
    animal: Animal,
    config: &Config,
    speed: i32,
    rotation: i32,
    boost: i32,
) -> Animal {
    Animal {
        speed: if boost <= 0 {
            clamp(
                animal.speed + speed,
                config.sim_speed_min as int,
                config.sim_speed_max as int,
            ) as i32
        } else {
            (config.sim_speed_max * 2) as i32
        },
        rotation: normal(animal.rotation + rotation) as i32,
        boosts: if boost > 0 {
            capped_sum(animal.boosts, 1)
        } else {
            animal.boosts
        },
        boosting: boost > 0,
        ..animal
    }
}

/// The two animals are close and their headings far enough apart for a
/// meeting: the other is not at the same place, nearer than `animal_size`,
/// and turned from this one's heading by more than [`MEETING_ANGLE`].
pub open spec fn meets(animal: Animal, other: VisibleAnimal, config: &Config) -> bool {
    &&& 0 < distance_squared(animal.position, other.0) < config.animal_size * config.animal_size
    &&& normal(other.1 - animal.rotation) > MEETING_ANGLE
}

/// The animal after it has come across the other.
///
/// Nothing happens unless the two meet. The other counts as stunned where
/// it stands still, and as boosting where it is faster than the greatest
/// speed. An animal that meets one that is not stunned is stunned itself,
/// for twice as long where the other boosts; if it is stunned already, a
/// boosting other takes [`PREY`] of its satiation, where it has as much.
/// A boosting animal that is not stunned and meets a stunned one with at
/// least [`PREY`] of satiation gains as much.
pub open spec fn after_meeting(animal: Animal, other: VisibleAnimal, config: &Config) -> Animal {
    if !meets(animal, other, config) {
        animal
    } else if other.2 > 0 {
        if animal.stunned > 0 {
            if animal.satiation >= PREY && other.2 > config.sim_speed_max {
                Animal { satiation: (animal.satiation - PREY) as usize, ..animal }
            } else {
                animal
            }
        } else if other.2 > config.sim_speed_max {
            stunned_for(animal, (config.stun_duration * 2) as u8)
        } else {
            stunned_for(animal, config.stun_duration)
        }
    } else if animal.stunned == 0 && animal.boosting && other.3 >= PREY {
        Animal { satiation: capped_sum(animal.satiation, PREY as int), ..animal }
    } else {
        animal
    }
}

/// The animal after it has come across the first `n` of the others, one
/// after the other.
pub open spec fn after_meetings(
    animal: Animal,
    others: Seq<VisibleAnimal>,
    config: &Config,
    n: int,
) -> Animal
    decreases n,
{
    if n <= 0 {
        animal
    } else {
        after_meeting(after_meetings(animal, others, config, n - 1), others[n - 1], config)
    }
}

/// The food lies within `food_size` of the animal.
pub open spec fn in_reach(animal: Animal, food: Food, config: &Config) -> bool {
    distance_squared(animal.position, food.position) <= config.food_size * config.food_size
}

/// The fitness of an animal of the given satiation and number of boosts:
/// the satiation less the price of the boosts, within 64 bits.
pub open spec fn score(satiation: usize, boosts: usize, boost_cost: i32) -> int {
    crate::fixed::clamp_i64(satiation * SCALE - boosts * boost_cost)
}

/// The inputs of the network: what the eye sees, then the satiation.
pub open spec fn inputs_of(vision: Seq<i32>, satiation: usize) -> Seq<i32> {
    vision.push(clamp_i32(satiation * SCALE) as i32)
}

impl Animal {
    /// The animal's heading is within half a turn either way, its speed is
    /// one that an animal can have (a speed between the least and the
    /// greatest, twice the greatest while it boosts, or none while it is
    /// stunned), and its eye is the one that the parameters ask for.
    pub open spec fn sound(&self, config: &Config) -> bool {
        &&& -HALF_TURN <= self.rotation < HALF_TURN
        &&& self.speed == 0 || self.speed == config.sim_speed_max * 2 || config.sim_speed_min
            <= self.speed <= config.sim_speed_max
        &&& self.eye.fov_range == config.eye_fov_range
        &&& self.eye.fov_angle == config.eye_fov_angle
        &&& self.eye.cells == config.eye_cells
    }

    /// The animal is in the arena and sound.
    pub open spec fn wf(&self, config: &Config) -> bool {
        self.position.in_arena() && self.sound(config)
    }

    /// Whether the animal is in the arena, its heading and speed within
    /// their ranges, and its eye the one that the parameters ask for.
    pub fn is_wf(&self, config: &Config) -> (ok: bool)
        requires
            config.valid(),
        ensures
            ok == self.wf(config),
    {
        0 <= self.position.x && self.position.x < 1_000_000 && 0 <= self.position.y
            && self.position.y < 1_000_000 && -HALF_TURN <= self.rotation && self.rotation
            < HALF_TURN && (self.speed == 0 || self.speed == config.sim_speed_max * 2
            || config.sim_speed_min <= self.speed && self.speed <= config.sim_speed_max)
            && self.eye.fov_range == config.eye_fov_range && self.eye.fov_angle
            == config.eye_fov_angle && self.eye.cells == config.eye_cells
    }

    pub fn position(&self) -> (position: Point2)
        ensures
            position == self.position,
    {
        self.position
    }

    pub fn rotation(&self) -> (rotation: i32)
        ensures
            rotation == self.rotation,
    {
        self.rotation
    }

    pub fn vision(&self) -> (vision: &[i32])
        ensures
            vision@ == self.vision@,
    {
        self.vision.as_slice()
    }

    pub fn visible(&self) -> (shown: VisibleAnimal)
        ensures
            shown.0 == self.position,
            shown.1 == self.rotation,
            shown.2 == self.speed,
            shown.3 == self.satiation,
    {
        VisibleAnimal(self.position, self.rotation, self.speed, self.satiation)
    }

    pub fn brain(&self) -> (brain: usize)
        ensures
            brain == self.brain,
    {
        self.brain
    }

    /// An animal for the given network at a random place with a random
    /// heading, at the greatest speed.
    pub fn random(config: &Config, brain: usize, rng: &mut StdRng) -> (animal: Self)
        requires
            config.valid(),
        ensures
            animal.fresh(config, brain),
    {
        Self::new(config, brain, rng)
    }

    /// An animal for the given network at a random place with a random
    /// heading, at the greatest speed.
    pub fn from_brain(config: &Config, brain: usize, rng: &mut StdRng) -> (animal: Self)
        requires
            config.valid(),
        ensures
            animal.fresh(config, brain),
    {
        Self::new(config, brain, rng)
    }

    /// The animal is as one just made: well formed, at the greatest speed,
    /// hungry, neither boosting nor stunned, and it has seen nothing yet.
    pub open spec fn fresh(&self, config: &Config, brain: usize) -> bool {
        &&& self.wf(config)
        &&& self.brain == brain
        &&& self.speed == config.sim_speed_max
        &&& self.satiation == 0
        &&& self.boosts == 0
        &&& !self.boosting
        &&& self.stunned == 0
        &&& self.stunned_cooldown == 0
        &&& self.vision@.len() == config.eye_cells
        &&& forall|i: int| 0 <= i < self.vision@.len() ==> self.vision@[i] == 0
    }

    pub fn new(config: &Config, brain: usize, rng: &mut StdRng) -> (animal: Self)
        requires
            config.valid(),
        ensures
            animal.fresh(config, brain),
    {
        let position = Point2::random(rng);
        let rotation: i32 = uniform_between(rng, -(HALF_TURN as i64), HALF_TURN as i64 - 1) as i32;
        let mut vision: Vec<i32> = Vec::new();
        let mut i: usize = 0;
        while i < config.eye_cells
            invariant
                i <= config.eye_cells,
                vision@.len() == i,
                forall|k: int| 0 <= k < i ==> vision@[k] == 0,
            decreases config.eye_cells - i,
        {
            vision.push(0);
            i = i + 1;
        }
        Self {
            position,
            rotation,
            vision,
            speed: config.sim_speed_max,
            eye: Eye::new(config),
            brain,
            satiation: 0,
            boosts: 0,
            boosting: false,
            stunned: 0,
            stunned_cooldown: 0,
        }
    }

    /// Looks around and takes up what the brain asks for. A stunned animal
    /// does neither.
    pub fn process_brain(
        &mut self,
        config: &Config,
        foods: &Vec<Food>,
        animals: &Vec<VisibleAnimal>,
        age: usize,
        brains: &Vec<Brain>,
    )
        requires
            config.valid(),
            old(self).wf(config),
            old(self).brain < brains@.len(),
            brains@[old(self).brain as int].ready(config.eye_cells * 4 + 1),
        ensures
            final(self).wf(config),
            old(self).stunned > 0 ==> *final(self) == *old(self),
            old(self).stunned == 0 ==> {
                let seen = old(self).eye.vision(
                    old(self).position,
                    old(self).rotation,
                    foods@,
                    animals@,
                );
                let brain = brains@[old(self).brain as int];
                let response = brain.nn.outputs(inputs_of(seen, old(self).satiation));
                *final(self) == after_decision(
                    Animal { vision: final(self).vision, ..*old(self) },
                    config,
                    speed_change(response, brain.speed_accel as int) as i32,
                    turn(response, brain.rotation_accel as int) as i32,
                    boost_of(response) as i32,
                ) && final(self).vision@ == seen
            },
    {
        if self.stunned > 0 {
            return ;
        }
        self.vision = self.eye.process_vision(self.position, self.rotation, foods, animals);
        let mut inputs: Vec<i32> = Vec::new();
        let mut i: usize = 0;
        while i < self.vision.len()
            invariant
                i <= self.vision@.len(),
                inputs@ == self.vision@.take(i as int),
            decreases self.vision@.len() - i,
        {
            inputs.push(self.vision[i]);
            assert(self.vision@.take(i + 1) =~= self.vision@.take(i as int).push(
                self.vision@[i as int],
            ));
            i = i + 1;
        }
        assert(self.vision@.take(self.vision@.len() as int) =~= self.vision@);
        assert(0 <= self.satiation * 1_000_000 <= 0x1_0000_0000_0000_0000 * 1_000_000)
            by (nonlinear_arith)
            requires
                0 <= self.satiation <= 0x1_0000_0000_0000_0000,
        ;
        let hunger: i32 = saturate_i32(self.satiation as i128 * SCALE as i128);
        inputs.push(hunger);
        assert(inputs@ == inputs_of(self.vision@, self.satiation));
        let (speed, rotation, boost) = brains[self.brain].process(inputs);
        self.apply_decision(config, speed, rotation, boost);
    }

    /// Takes up a change of speed, a turn and the boost.
    pub fn apply_decision(&mut self, config: &Config, speed: i32, rotation: i32, boost: i32)
        requires
            config.valid(),
            old(self).wf(config),
        ensures
            *final(self) == after_decision(*old(self), config, speed, rotation, boost),
            final(self).wf(config),
    {
        self.speed = if boost <= 0 {
            let sum: i64 = self.speed as i64 + speed as i64;
            if sum < config.sim_speed_min as i64 {
                config.sim_speed_min
            } else if sum > config.sim_speed_max as i64 {
                config.sim_speed_max
            } else {
                sum as i32
            }
        } else {
            config.sim_speed_max * 2
        };
        self.rotation = normalize(self.rotation as i64 + rotation as i64);
        if boost > 0 {
            if self.boosts < usize::MAX {
                self.boosts = self.boosts + 1;
            }
            self.boosting = true;
        } else {
            self.boosting = false;
        }
    }

    /// One tick of movement, or of waiting for a stun to end. An animal
    /// that moves is in the arena afterwards wherever it was before, also
    /// where it stood on the arena's far edge: a coordinate of one becomes
    /// zero.
    pub fn process_movement(&mut self, config: &Config)
        requires
            -HALF_TURN <= old(self).rotation <= HALF_TURN,
        ensures
            *final(self) == after_movement(*old(self), config),
            old(self).stunned == 0 ==> final(self).position.in_arena(),
            old(self).sound(config) ==> final(self).sound(config),
            old(self).wf(config) ==> final(self).wf(config),
    {
        if self.stunned == 0 {
            let sideways: i128 = floor_div(
                mul_i32(self.speed, sine(self.rotation)) as i128,
                SCALE as i128,
            );
            let forward: i128 = floor_div(
                mul_i32(self.speed, cosine(self.rotation)) as i128,
                SCALE as i128,
            );
            proof {
                lemma_part_of(self.speed as int, sine_of(self.rotation as int));
                lemma_part_of(self.speed as int, cosine_of(self.rotation as int));
            }
            self.position = Point2 {
                x: wrap_unit((self.position.x as i128 - sideways) as i64),
                y: wrap_unit((self.position.y as i128 + forward) as i64),
            };
            if self.stunned_cooldown > 0 {
                self.stunned_cooldown = self.stunned_cooldown - 1;
            }
        } else {
            self.stunned = self.stunned - 1;
            if self.stunned == 0 {
                self.stunned_cooldown = config.stun_cooldown;
            }
        }
    }

    /// Deals the animal a stun of the given number of ticks.
    pub fn stun(&mut self, duration: u8)
        ensures
            *final(self) == stunned_for(*old(self), duration),
    {
        if self.stunned == 0 && self.stunned_cooldown == 0 {
            self.stunned = duration;
            self.boosting = false;
            self.speed = 0;
        }
    }

    /// Whether the food lies within `food_size` of the animal.
    pub fn reaches(&self, food: &Food, config: &Config) -> (reached: bool)
        requires
            config.food_size > 0,
        ensures
            reached == in_reach(*self, *food, config),
    {
        assert(config.food_size * config.food_size < 0x8000_0000 * 0x8000_0000)
            by (nonlinear_arith)
            requires
                0 < config.food_size < 0x8000_0000,
        ;
        self.position.distance_squared(&food.position) <= (config.food_size as u128) * (
        config.food_size as u128)
    }

    /// Whether the two animals are close, and their headings far enough
    /// apart, for a meeting.
    pub fn encounters(&self, other: &VisibleAnimal, config: &Config) -> (met: bool)
        requires
            config.animal_size > 0,
        ensures
            met == meets(*self, *other, config),
    {
        assert(config.animal_size * config.animal_size < 0x8000_0000 * 0x8000_0000)
            by (nonlinear_arith)
            requires
                0 < config.animal_size < 0x8000_0000,
        ;
        let squared: u128 = self.position.distance_squared(&other.0);
        let relative: i32 = normalize(other.1 as i64 - self.rotation as i64);
        0 < squared && squared < (config.animal_size as u128) * (config.animal_size as u128)
            && relative > MEETING_ANGLE
    }

    /// Comes across another animal.
    pub fn meet(&mut self, other: &VisibleAnimal, config: &Config)
        requires
            config.valid(),
            old(self).wf(config),
        ensures
            *final(self) == after_meeting(*old(self), *other, config),
            final(self).wf(config),
    {
        if !self.encounters(other, config) {
            return ;
        }
        let stunned: bool = self.stunned > 0;
        let other_stunned: bool = other.2 <= 0;
        let other_boosting: bool = other.2 > config.sim_speed_max;
        if !other_stunned {
            if stunned {
                if self.satiation >= PREY && other_boosting {
                    self.satiation = self.satiation - PREY;
                }
            } else {
                let duration: u8 = if other_boosting {
                    config.stun_duration * 2
                } else {
                    config.stun_duration
                };
                self.stun(duration);
            }
        } else if !stunned && self.boosting && other.3 >= PREY {
            self.satiation = if self.satiation <= usize::MAX - PREY {
                self.satiation + PREY
            } else {
                usize::MAX
            };
        }
    }
}

/// A speed times a sine or cosine is no greater in size than the speed is.
pub proof fn lemma_part_of(speed: int, part: int)
    requires
        i32::MIN <= speed <= i32::MAX,
        -SCALE <= part <= SCALE,
    ensures
        -0x8000_0000 <= mul_scaled(speed, part) <= 0x8000_0000,
        speed >= 0 ==> -speed <= mul_scaled(speed, part) <= speed,
        speed <= 0 ==> speed <= mul_scaled(speed, part) <= -speed,
{
    let s = SCALE as int;
    let p = speed * part;
    let size = if speed >= 0 {
        speed
    } else {
        -speed
    };
    assert(-size * s <= p <= size * s) by (nonlinear_arith)
        requires
            size == speed || size == -speed,
            size >= 0,
            -s <= part <= s,
            p == speed * part,
    ;
    vstd::arithmetic::div_mod::lemma_fundamental_div_mod(p, s);
    vstd::arithmetic::div_mod::lemma_mod_bound(p, s);
    let q = p / s;
    assert(-size <= q <= size) by (nonlinear_arith)
        requires
            s > 0,
            -size * s <= p <= size * s,
            p == s * q + p % s,
            0 <= p % s < s,
    ;
}

} // verus!
