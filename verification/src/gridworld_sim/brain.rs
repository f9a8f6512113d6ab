use rand::rngs::StdRng;
use vstd::prelude::*;

use crate::fixed::{add_saturating, clamp_i64, SCALE};
use crate::genetic_algorithm::breeding::{
    crossover, draw_network_offsets, inherits, is_mutation, lemma_inherits_same_shape,
    lemma_mutation_bounded, lemma_same_topology, lemma_shape_has_topology,
    lemma_within_same_shape, mutate_with, offsets_fit, stays_within, LayerOffsets,
};
use crate::genetic_algorithm::individual::Individual;
use crate::gridworld::consts::{
    CREATURE_MEMORY_SIZE, IDLE_PENALTY, IDLE_TICKS_ALLOWED, INPUTS_SIZE, NUM_DIRECTIONS,
    OUTPUTS_SIZE,
};
use crate::gridworld::direction::Direction;
use crate::gridworld_sim::config::Config;
use crate::neural_network::network::{within_unit, Network};
use crate::rng::chance;

verus! {

/// A creature's network, with the fitness it has earned and the number of
/// ticks since the creature last moved.
pub struct Brain {
    pub fitness: i64,
    pub time_since_move: u16,
    pub nn: Network,
}

/// The widths of a creature's network: the inputs, two hidden layers of
/// `brain_neurons` each, and the outputs.
pub open spec fn topology_of(config: &Config) -> Seq<usize> {
    seq![INPUTS_SIZE, config.brain_neurons, config.brain_neurons, OUTPUTS_SIZE]
}

/// Output `index` is positive, no output of the first nine is greater, and
/// none before it is as great: the network's choice is `index`.
pub open spec fn leads(response: Seq<i32>, index: int) -> bool {
    &&& 0 <= index <= NUM_DIRECTIONS
    &&& response[index] > 0
    &&& forall|i: int| 0 <= i <= NUM_DIRECTIONS ==> #[trigger] response[i] <= response[index]
    &&& forall|i: int| 0 <= i < index ==> #[trigger] response[i] < response[index]
}

/// What the outputs ask for. Output 0 stands for staying and output `d + 1`
/// for a step in direction `d`. The greatest positive output wins, the
/// first of them where several are as great; where none is positive the
/// creature stays.
pub open spec fn decision(response: Seq<i32>, choice: Option<Direction>) -> bool {
    match choice {
        Some(direction) => leads(response, direction.ordinal() + 1),
        None => leads(response, 0) || forall|i: int|
            0 <= i <= NUM_DIRECTIONS ==> #[trigger] response[i] <= 0,
    }
}

/// The direction with the given number, clockwise from `Up`.
pub open spec fn direction_at(ordinal: int) -> Direction {
    if ordinal == 0 {
        Direction::Up
    } else if ordinal == 1 {
        Direction::UpRight
    } else if ordinal == 2 {
        Direction::Right
    } else if ordinal == 3 {
        Direction::DownRight
    } else if ordinal == 4 {
        Direction::Down
    } else if ordinal == 5 {
        Direction::DownLeft
    } else if ordinal == 6 {
        Direction::Left
    } else {
        Direction::UpLeft
    }
}

/// The output that wins among the first `n`: each output takes the lead
/// from the one before that held it if it is greater, and positive.
pub open spec fn leader(response: Seq<i32>, n: int) -> int
    decreases n,
{
    if n <= 0 {
        0
    } else {
        let before = leader(response, n - 1);
        let held = if response[before] > 0 {
            response[before] as int
        } else {
            0
        };
        if response[n - 1] > held {
            n - 1
        } else {
            before
        }
    }
}

/// The step that the outputs ask for, which is the one that [`decision`]
/// describes.
pub open spec fn chosen(response: Seq<i32>) -> Option<Direction> {
    let index = leader(response, NUM_DIRECTIONS + 1);
    if index == 0 {
        None
    } else {
        Some(direction_at(index - 1))
    }
}

/// Decides on a step from the network's outputs.
pub fn decide(response: &Vec<i32>) -> (choice: Option<Direction>)
    requires
        response@.len() >= OUTPUTS_SIZE,
    ensures
        choice == chosen(response@),
        decision(response@, choice),
{
    let mut best: i32 = 0;
    let mut best_index: usize = 0;
    let mut i: usize = 0;
    while i <= NUM_DIRECTIONS
        invariant
            response@.len() >= OUTPUTS_SIZE,
            i <= NUM_DIRECTIONS + 1,
            best_index <= NUM_DIRECTIONS,
            best_index == leader(response@, i as int),
            best >= 0,
            i == 0 ==> best == 0,
            i > 0 ==> best == (if response@[best_index as int] > 0 {
                response@[best_index as int]
            } else {
                0
            }),
            best > 0 ==> best_index < i,
            best == 0 ==> best_index == 0,
            forall|k: int| 0 <= k < i ==> #[trigger] response@[k] <= best,
            forall|k: int| 0 <= k < best_index ==> #[trigger] response@[k] < best,
        decreases NUM_DIRECTIONS + 1 - i,
    {
        if response[i] > best {
            best = response[i];
            best_index = i;
        }
        i = i + 1;
    }
    if best_index == 0 {
        None
    } else {
        let direction = Direction::from((best_index - 1) as u8);
        assert(direction == direction_at(best_index - 1));
        Some(direction)
    }
}

impl Brain {
    /// The network has the shape that the parameters ask for.
    pub open spec fn shaped(&self, config: &Config) -> bool {
        self.nn.wf() && self.nn.has_topology(topology_of(config))
    }

    /// The network takes a creature's inputs and gives a creature's outputs.
    pub open spec fn ready(&self) -> bool {
        &&& self.nn.wf()
        &&& self.nn.layers@.len() > 0
        &&& self.nn.layers@[0].input_size == INPUTS_SIZE
        &&& self.nn.layers@[self.nn.layers@.len() - 1].output_size == OUTPUTS_SIZE
    }

    /// A network of the shape that the parameters ask for is ready.
    pub proof fn lemma_shaped_ready(&self, config: &Config)
        requires
            self.shaped(config),
        ensures
            self.ready(),
    {
        assert(self.nn.layers@[0].wf());
        assert(self.nn.layers@[2].wf());
    }

    /// Whether the network has the shape that the parameters ask for.
    pub fn is_shaped(&self, config: &Config) -> (ok: bool)
        ensures
            ok == self.shaped(config),
    {
        let widths = Brain::topology(config);
        self.nn.has_shape(widths.as_slice())
    }

    /// What mutation makes of the brain once the draws are made. Where the
    /// draw was to hand the individual back, `offsets` is nothing and the
    /// brain is handed back whole. Otherwise every weight and bias of the
    /// network is shifted by its offset, and the mutant starts with the
    /// starting fitness.
    pub fn mutated(self, params: &Config, offsets: Option<&Vec<LayerOffsets>>) -> (mutant: Self)
        requires
            self.nn.wf(),
            offsets matches Some(drawn) ==> offsets_fit(drawn@, &self.nn),
        ensures
            offsets is None ==> mutant == self,
            offsets matches Some(drawn) ==> {
                &&& mutant.nn.wf()
                &&& is_mutation(&mutant.nn, &self.nn, drawn@)
                &&& mutant.fitness == params.start_fitness
                &&& mutant.time_since_move == 0
            },
    {
        match offsets {
            None => self,
            Some(drawn) => Brain::new(params, mutate_with(&self.nn, drawn)),
        }
    }

    pub fn new(config: &Config, nn: Network) -> (brain: Self)
        ensures
            brain.nn == nn,
            brain.fitness == config.start_fitness,
            brain.time_since_move == 0,
    {
        Self { nn, fitness: config.start_fitness, time_since_move: 0 }
    }

    pub fn from_network(config: &Config, network: Network) -> (brain: Self)
        ensures
            brain.nn == network,
            brain.fitness == config.start_fitness,
            brain.time_since_move == 0,
    {
        Self::new(config, network)
    }

    pub fn topology(config: &Config) -> (widths: [usize; 4])
        ensures
            widths@ == topology_of(config),
    {
        let widths = [INPUTS_SIZE, config.brain_neurons, config.brain_neurons, OUTPUTS_SIZE];
        assert(widths@ =~= topology_of(config));
        widths
    }

    /// Adds to the fitness, which stops at the ends of the 64-bit range.
    pub fn add_fitness(&mut self, amount: i64)
        ensures
            final(self).fitness == clamp_i64(old(self).fitness + amount),
            final(self).time_since_move == old(self).time_since_move,
            final(self).nn == old(self).nn,
    {
        self.fitness = add_saturating(self.fitness, amount);
    }

    /// Counts one more tick without a move; from the twenty-sixth such tick
    /// on, each costs the idle penalty. The count stops at the largest
    /// 16-bit value.
    pub fn not_moved(&mut self)
        ensures
            final(self).time_since_move == (if old(self).time_since_move < u16::MAX {
                old(self).time_since_move + 1
            } else {
                u16::MAX as int
            }),
            final(self).fitness == (if final(self).time_since_move > IDLE_TICKS_ALLOWED {
                clamp_i64(old(self).fitness - IDLE_PENALTY)
            } else {
                old(self).fitness as int
            }),
            final(self).nn == old(self).nn,
    {
        if self.time_since_move < u16::MAX {
            self.time_since_move = self.time_since_move + 1;
        }
        if self.time_since_move > IDLE_TICKS_ALLOWED {
            self.add_fitness(-IDLE_PENALTY);
        }
    }

    /// Runs the network on the inputs and decides on a step; what the
    /// outputs hold beyond the decision is the new memory.
    pub fn process(&self, inputs: Vec<i32>) -> (out: (Option<Direction>, [i32; CREATURE_MEMORY_SIZE]))
        requires
            self.ready(),
            inputs@.len() == INPUTS_SIZE,
        ensures
            out.0 == chosen(self.nn.outputs(inputs@)),
            decision(self.nn.outputs(inputs@), out.0),
            forall|i: int|
                0 <= i < CREATURE_MEMORY_SIZE ==> out.1@[i] == self.nn.outputs(inputs@)[1
                    + NUM_DIRECTIONS + i],
    {
        let response = self.nn.forward(inputs);
        assert(response@.len() == OUTPUTS_SIZE);
        let choice = decide(&response);
        let mut new_memory: [i32; CREATURE_MEMORY_SIZE] = [0; CREATURE_MEMORY_SIZE];
        let mut i: usize = 0;
        while i < CREATURE_MEMORY_SIZE
            invariant
                i <= CREATURE_MEMORY_SIZE,
                response@.len() == OUTPUTS_SIZE,
                forall|k: int|
                    0 <= k < i ==> new_memory@[k] == response@[1 + NUM_DIRECTIONS + k],
            decreases CREATURE_MEMORY_SIZE - i,
        {
            new_memory[i] = response[1 + NUM_DIRECTIONS + i];
            i = i + 1;
        }
        (choice, new_memory)
    }
}

impl Individual<Config> for Brain {
    open spec fn valid_params(params: &Config) -> bool {
        params.valid()
    }

    open spec fn wf(&self, params: &Config) -> bool {
        self.shaped(params)
    }

    open spec fn fitness_value(&self) -> int {
        self.fitness as int
    }

    /// Every weight and bias is that of one of the parents at the same
    /// place, and the fitness is that of a beginner.
    open spec fn is_child_of(&self, first: &Self, second: &Self, params: &Config) -> bool {
        inherits(&self.nn, &first.nn, &second.nn) && self.fitness == params.start_fitness
    }

    /// No weight or bias is further than `ga_mut_coeff` from where it was,
    /// and the individual is the one before, whole, or a beginner: one with
    /// the starting fitness that has not stood still yet.
    open spec fn is_mutant_of(&self, before: &Self, params: &Config) -> bool {
        &&& stays_within(&self.nn, &before.nn, params.ga_mut_coeff as int)
        &&& *self == *before || (self.fitness == params.start_fitness && self.time_since_move
            == 0)
    }

    fn random(params: &Config, rng: &mut StdRng) -> (individual: Self)
        ensures
            individual.fitness == params.start_fitness,
            individual.time_since_move == 0,
            forall|k: int|
                0 <= k < individual.nn.layers@.len() ==> within_unit(
                    &#[trigger] individual.nn.layers@[k],
                ),
    {
        let widths = Brain::topology(params);
        let nn = Network::random(widths.as_slice(), rng);
        Brain::new(params, nn)
    }

    fn fitness(&self) -> (fitness: i64) {
        self.fitness
    }

    /// With a probability of `ga_mut_chance` the individual is handed back
    /// as it is. Otherwise every weight and bias of its network is, with
    /// that same probability, moved by at most `ga_mut_coeff`, and the
    /// mutant starts with the starting fitness. So with a chance of one the
    /// individual is always handed back; with a chance of zero it never is,
    /// and its network is not changed.
    fn mutate(self, params: &Config, rng: &mut StdRng) -> (mutant: Self)
        ensures
            stays_within(&mutant.nn, &self.nn, params.ga_mut_coeff as int),
            mutant == self || (mutant.fitness == params.start_fitness && mutant.time_since_move
                == 0),
            params.ga_mut_chance == SCALE ==> mutant == self,
            params.ga_mut_chance == 0 ==> {
                &&& mutant.fitness == params.start_fitness
                &&& mutant.time_since_move == 0
                &&& stays_within(&mutant.nn, &self.nn, 0)
            },
    {
        let ghost before = self;
        if chance(rng, params.ga_mut_chance) {
            return self.mutated(params, None);
        }
        let offsets = draw_network_offsets(
            &self.nn,
            params.ga_mut_chance,
            params.ga_mut_coeff,
            rng,
        );
        let mutant = self.mutated(params, Some(&offsets));
        proof {
            lemma_mutation_bounded(&mutant.nn, &before.nn, offsets@, params.ga_mut_coeff as int);
            if params.ga_mut_chance == 0 {
                lemma_mutation_bounded(&mutant.nn, &before.nn, offsets@, 0);
            }
            lemma_within_same_shape(&mutant.nn, &before.nn, params.ga_mut_coeff as int);
            lemma_shape_has_topology(&before.nn, &mutant.nn, topology_of(params));
        }
        mutant
    }

    /// The child's network takes every weight and bias from one of the two
    /// parents, by a fair choice each; the child starts with the starting
    /// fitness.
    fn crossover(&self, other: &Self, params: &Config, rng: &mut StdRng) -> (child: Self)
        ensures
            inherits(&child.nn, &self.nn, &other.nn),
            child.fitness == params.start_fitness,
            child.time_since_move == 0,
    {
        proof {
            lemma_same_topology(&self.nn, &other.nn, topology_of(params));
        }
        let nn = crossover(&self.nn, &other.nn, rng);
        proof {
            lemma_inherits_same_shape(&nn, &self.nn, &other.nn);
            lemma_shape_has_topology(&self.nn, &nn, topology_of(params));
        }
        Brain::new(params, nn)
    }
}

} // verus!
