use rand::rngs::StdRng;
use vstd::prelude::*;

use crate::animal_simulation::config::Config;
use crate::fixed::{clamp, SCALE};
use crate::genetic_algorithm::breeding::{
    crossover, draw_network_offsets, inherits, is_mutation, lemma_inherits_same_shape,
    lemma_mutation_bounded, lemma_same_topology, lemma_shape_has_topology,
    lemma_within_same_shape, mutate_with, offsets_fit, stays_within, LayerOffsets,
};
use crate::genetic_algorithm::individual::Individual;
use crate::neural_network::network::{within_unit, Network};
use crate::rng::chance;

verus! {

/// An animal's network, with the fitness it has earned and the limits of
/// what it can ask of the animal in one tick.
pub struct Brain {
    pub speed_accel: i32,
    pub rotation_accel: i32,
    pub fitness: i64,
    pub nn: Network,
}

/// Outputs of an animal's network: two for the thrust to either side, one
/// for the boost.
pub const OUTPUTS: usize = 3;

/// The widths of an animal's network: four inputs for every cell of the eye
/// and one for the satiation, a hidden layer, and the outputs.
pub open spec fn topology_of(config: &Config) -> Seq<usize> {
    seq![(config.eye_cells * 4 + 1) as usize, config.brain_neurons, OUTPUTS]
}

/// An output cut to `[0, 1]` and moved to `[-0.5, 0.5]`.
pub open spec fn centred(output: int) -> int {
    clamp(output, 0, SCALE as int) - SCALE / 2
}

/// The change of speed that the outputs ask for: the sum of the two
/// thrusts, within the acceleration.
pub open spec fn speed_change(response: Seq<i32>, accel: int) -> int {
    clamp(centred(response[0] as int) + centred(response[1] as int), -accel, accel)
}

/// The turn that the outputs ask for: the difference of the two thrusts,
/// within the acceleration.
pub open spec fn turn(response: Seq<i32>, accel: int) -> int {
    clamp(centred(response[0] as int) - centred(response[1] as int), -accel, accel)
}

/// One where the third output is positive and the boost is asked for,
/// minus one where it is not.
pub open spec fn boost_of(response: Seq<i32>) -> int {
    if response[2] > 0 {
        SCALE as int
    } else {
        -SCALE
    }
}

/// What the outputs ask of the animal: a change of speed, a turn, and
/// whether to boost.
pub fn drive(response: &Vec<i32>, speed_accel: i32, rotation_accel: i32) -> (motor: (i32, i32, i32))
    requires
        response@.len() >= OUTPUTS,
        speed_accel >= 0,
        rotation_accel >= 0,
    ensures
        motor.0 == speed_change(response@, speed_accel as int),
        motor.1 == turn(response@, rotation_accel as int),
        motor.2 == boost_of(response@),
{
    let half: i64 = SCALE / 2;
    let first: i64 = cut(response[0] as i64, 0, SCALE) - half;
    let second: i64 = cut(response[1] as i64, 0, SCALE) - half;
    let speed: i64 = cut(first + second, -(speed_accel as i64), speed_accel as i64);
    let rotation: i64 = cut(first - second, -(rotation_accel as i64), rotation_accel as i64);
    let boost: i32 = if response[2] > 0 {
        SCALE as i32
    } else {
        -(SCALE as i32)
    };
    (speed as i32, rotation as i32, boost)
}

/// A value moved to the nearest of `low ..= high`.
pub fn cut(value: i64, low: i64, high: i64) -> (inside: i64)
    requires
        low <= high,
    ensures
        inside == clamp(value as int, low as int, high as int),
        low <= inside <= high,
{
    if value < low {
        low
    } else if value > high {
        high
    } else {
        value
    }
}

impl Brain {
    /// The network has the shape, and the brain the limits, that the
    /// parameters ask for.
    pub open spec fn shaped(&self, config: &Config) -> bool {
        &&& self.nn.wf()
        &&& self.nn.has_topology(topology_of(config))
        &&& self.speed_accel == config.sim_speed_accel
        &&& self.rotation_accel == config.sim_rotation_accel
    }

    /// The network takes the given number of inputs and gives an animal's
    /// outputs, and the limits are not negative.
    pub open spec fn ready(&self, inputs: int) -> bool {
        &&& self.nn.wf()
        &&& self.nn.layers@.len() > 0
        &&& self.nn.layers@[0].input_size == inputs
        &&& self.nn.layers@[self.nn.layers@.len() - 1].output_size == OUTPUTS
        &&& self.speed_accel >= 0
        &&& self.rotation_accel >= 0
    }

    /// A brain of the shape that valid parameters ask for is ready for the
    /// inputs of an animal with those parameters.
    pub proof fn lemma_shaped_ready(&self, config: &Config)
        requires
            config.valid(),
            self.shaped(config),
        ensures
            self.ready(config.eye_cells * 4 + 1),
    {
        assert(self.nn.layers@[0].wf());
        assert(self.nn.layers@[1].wf());
    }

    /// Whether the network has the shape, and the brain the limits, that the
    /// parameters ask for.
    pub fn is_shaped(&self, config: &Config) -> (ok: bool)
        requires
            config.valid(),
        ensures
            ok == self.shaped(config),
    {
        let widths = Brain::topology(config);
        self.nn.has_shape(widths.as_slice()) && self.speed_accel == config.sim_speed_accel
            && self.rotation_accel == config.sim_rotation_accel
    }

    /// What mutation makes of the brain once the draws are made. Where the
    /// draw was to hand the individual back, `offsets` is nothing and the
    /// brain is handed back whole. Otherwise every weight and bias of the
    /// network is shifted by its offset, and the mutant starts without
    /// fitness, with the limits that the parameters give.
    pub fn mutated(self, params: &Config, offsets: Option<&Vec<LayerOffsets>>) -> (mutant: Self)
        requires
            self.nn.wf(),
            offsets matches Some(drawn) ==> offsets_fit(drawn@, &self.nn),
        ensures
            offsets is None ==> mutant == self,
            offsets matches Some(drawn) ==> {
                &&& mutant.nn.wf()
                &&& is_mutation(&mutant.nn, &self.nn, drawn@)
                &&& mutant.fitness == 0
                &&& mutant.speed_accel == params.sim_speed_accel
                &&& mutant.rotation_accel == params.sim_rotation_accel
            },
    {
        match offsets {
            None => self,
            Some(drawn) => Brain::new(params, mutate_with(&self.nn, drawn)),
        }
    }

    pub fn new(config: &Config, nn: Network) -> (brain: Self)
        ensures
            brain.nn == nn,
            brain.fitness == 0,
            brain.speed_accel == config.sim_speed_accel,
            brain.rotation_accel == config.sim_rotation_accel,
    {
        Self {
            speed_accel: config.sim_speed_accel,
            rotation_accel: config.sim_rotation_accel,
            nn,
            fitness: 0,
        }
    }

    pub fn from_network(config: &Config, network: Network) -> (brain: Self)
        ensures
            brain.nn == network,
            brain.fitness == 0,
            brain.speed_accel == config.sim_speed_accel,
            brain.rotation_accel == config.sim_rotation_accel,
    {
        Self::new(config, network)
    }

    pub fn topology(config: &Config) -> (widths: [usize; 3])
        requires
            config.valid(),
        ensures
            widths@ == topology_of(config),
    {
        let widths = [config.eye_cells * 4 + 1, config.brain_neurons, OUTPUTS];
        assert(widths@ =~= topology_of(config));
        widths
    }

    /// Runs the network on the inputs and reads from its outputs a change of
    /// speed, a turn and the boost.
    pub fn process(&self, inputs: Vec<i32>) -> (motor: (i32, i32, i32))
        requires
            self.ready(inputs@.len() as int),
        ensures
            motor.0 == speed_change(self.nn.outputs(inputs@), self.speed_accel as int),
            motor.1 == turn(self.nn.outputs(inputs@), self.rotation_accel as int),
            motor.2 == boost_of(self.nn.outputs(inputs@)),
    {
        let response = self.nn.forward(inputs);
        assert(response@.len() == OUTPUTS);
        drive(&response, self.speed_accel, self.rotation_accel)
    }
}

impl Individual<Config> for Brain {
    open spec fn valid_params(params: &Config) -> bool {
        params.valid()
    }

    open spec fn wf(&self, params: &Config) -> bool {
        self.shaped(params)
    }

    open spec fn fitness_value(&self) -> int {
        self.fitness as int
    }

    /// Every weight and bias is that of one of the parents at the same
    /// place, and the fitness is that of a beginner.
    open spec fn is_child_of(&self, first: &Self, second: &Self, params: &Config) -> bool {
        inherits(&self.nn, &first.nn, &second.nn) && self.fitness == 0
    }

    /// No weight or bias is further than `ga_mut_coeff` from where it was,
    /// and the individual is the one before, whole, or a beginner: one
    /// without fitness, with the limits that the parameters give.
    open spec fn is_mutant_of(&self, before: &Self, params: &Config) -> bool {
        &&& stays_within(&self.nn, &before.nn, params.ga_mut_coeff as int)
        &&& *self == *before || (self.fitness == 0 && self.speed_accel
            == params.sim_speed_accel && self.rotation_accel == params.sim_rotation_accel)
    }

    fn random(params: &Config, rng: &mut StdRng) -> (individual: Self)
        ensures
            individual.fitness == 0,
            forall|k: int|
                0 <= k < individual.nn.layers@.len() ==> within_unit(
                    &#[trigger] individual.nn.layers@[k],
                ),
    {
        let widths = Brain::topology(params);
        let nn = Network::random(widths.as_slice(), rng);
        Brain::new(params, nn)
    }

    fn fitness(&self) -> (fitness: i64) {
        self.fitness
    }

    /// With a probability of `ga_mut_chance` the individual is handed back
    /// as it is. Otherwise every weight and bias of its network is, with
    /// that same probability, moved by at most `ga_mut_coeff`, and the
    /// mutant starts without fitness. So with a chance of one the
    /// individual is always handed back; with a chance of zero it never is,
    /// and its network is not changed.
    fn mutate(self, params: &Config, rng: &mut StdRng) -> (mutant: Self)
        ensures
            stays_within(&mutant.nn, &self.nn, params.ga_mut_coeff as int),
            mutant == self || mutant.fitness == 0,
            params.ga_mut_chance == SCALE ==> mutant == self,
            params.ga_mut_chance == 0 ==> {
                &&& mutant.fitness == 0
                &&& stays_within(&mutant.nn, &self.nn, 0)
            },
    {
        let ghost before = self;
        if chance(rng, params.ga_mut_chance) {
            return self.mutated(params, None);
        }
        let offsets = draw_network_offsets(
            &self.nn,
            params.ga_mut_chance,
            params.ga_mut_coeff,
            rng,
        );
        let mutant = self.mutated(params, Some(&offsets));
        proof {
            lemma_mutation_bounded(&mutant.nn, &before.nn, offsets@, params.ga_mut_coeff as int);
            if params.ga_mut_chance == 0 {
                lemma_mutation_bounded(&mutant.nn, &before.nn, offsets@, 0);
            }
            lemma_within_same_shape(&mutant.nn, &before.nn, params.ga_mut_coeff as int);
            lemma_shape_has_topology(&before.nn, &mutant.nn, topology_of(params));
        }
        mutant
    }

    /// The child's network takes every weight and bias from one of the two
    /// parents, by a fair choice each; the child starts without fitness.
    fn crossover(&self, other: &Self, params: &Config, rng: &mut StdRng) -> (child: Self)
        ensures
            inherits(&child.nn, &self.nn, &other.nn),
            child.fitness == 0,
    {
        proof {
            lemma_same_topology(&self.nn, &other.nn, topology_of(params));
        }
        let nn = crossover(&self.nn, &other.nn, rng);
        proof {
            lemma_inherits_same_shape(&nn, &self.nn, &other.nn);
            lemma_shape_has_topology(&self.nn, &nn, topology_of(params));
        }
        Brain::new(params, nn)
    }
}

} // verus!
