use rand::rngs::StdRng;
use rand::seq::SliceRandom;
use vstd::prelude::*;

use crate::genetic_algorithm::individual::Individual;
use crate::genetic_algorithm::population::{all_wf, Population};

verus! {

/// The least weight an individual has in the draw, `0.00001`: an individual
/// of no or negative fitness can still be chosen.
pub const MIN_WEIGHT: i64 = 10;

/// Fitness-proportionate selection: an individual is drawn with a
/// probability in proportion to its weight.
pub struct RouletteWheelPopulation<I, C> where I: Individual<C>, C: Copy {
    pub population: Vec<I>,
    pub config: C,
}

/// The weight of a fitness in the draw: the fitness itself, but no less than
/// [`MIN_WEIGHT`] and no more than `cap`.
pub open spec fn weight_value(fitness: int, cap: int) -> int {
    if fitness < MIN_WEIGHT {
        if MIN_WEIGHT < cap {
            MIN_WEIGHT as int
        } else {
            cap
        }
    } else if fitness > cap {
        cap
    } else {
        fitness
    }
}

/// The greatest weight that `count` individuals can each have while the sum
/// of all weights still fits in 64 bits.
pub open spec fn cap_for(count: int) -> int {
    if count <= 0 {
        u64::MAX as int
    } else {
        (u64::MAX as int) / count
    }
}

pub fn weight_cap(count: usize) -> (cap: u64)
    ensures
        cap == cap_for(count as int),
        cap >= 1,
        count * cap <= u64::MAX,
{
    if count == 0 {
        u64::MAX
    } else {
        proof {
            let c = count as int;
            let m = u64::MAX as int;
            vstd::arithmetic::div_mod::lemma_fundamental_div_mod(m, c);
            vstd::arithmetic::div_mod::lemma_mod_bound(m, c);
            assert(c * (m / c) <= m);
            assert(m / c >= 1) by (nonlinear_arith)
                requires
                    1 <= c <= m,
                    m == c * (m / c) + m % c,
                    0 <= m % c < c,
            ;
        }
        u64::MAX / (count as u64)
    }
}

pub fn weight_of<I: Individual<C>, C>(individual: &I, cap: u64) -> (weight: u64)
    requires
        cap >= 1,
    ensures
        weight == weight_value(individual.fitness_value(), cap as int),
        1 <= weight <= cap,
{
    let fitness: i64 = individual.fitness();
    if fitness < MIN_WEIGHT {
        if (MIN_WEIGHT as u64) < cap {
            MIN_WEIGHT as u64
        } else {
            cap
        }
    } else if fitness as u64 > cap {
        cap
    } else {
        fitness as u64
    }
}

/// `rand::seq::SliceRandom::choose_weighted` on the population, each
/// individual weighted by [`weight_of`]. The crate sums the weights in 64
/// bits, which `requires` keeps from overflowing. It fails on an empty slice
/// and where no weight is positive; every weight here is at least one, so of
/// a population with members one member comes back.
#[verifier::external_body]
fn choose_by_weight<'a, I: Individual<C>, C>(
    population: &'a Vec<I>,
    cap: u64,
    rng: &mut StdRng,
) -> (chosen: Option<&'a I>)
    requires
        cap >= 1,
        population@.len() * cap <= u64::MAX,
    ensures
        population@.len() > 0 ==> chosen is Some,
        chosen is Some ==> population@.contains(*chosen.unwrap()),
{
    population.choose_weighted(rng, |individual| weight_of::<I, C>(individual, cap)).ok()
}

impl<I, C> Population<I, C> for RouletteWheelPopulation<I, C> where I: Individual<C>, C: Copy {
    open spec fn members(&self) -> Seq<I> {
        self.population@
    }

    open spec fn parameters(&self) -> C {
        self.config
    }

    fn new(individuals: Vec<I>, config: &C) -> (population: Box<Self>) {
        Box::new(Self { population: individuals, config: *config })
    }

    fn get_config(&self) -> (config: &C) {
        &self.config
    }

    fn size(&self) -> (size: usize) {
        self.population.len()
    }

    fn get_population(&self) -> (individuals: &Vec<I>) {
        &self.population
    }

    fn random(size: usize, config: &C, rng: &mut StdRng) -> (population: Self) {
        let mut population: Vec<I> = Vec::new();
        let mut k: usize = 0;
        while k < size
            invariant
                I::valid_params(config),
                k <= size,
                population@.len() == k,
                all_wf(population@, config),
            decreases size - k,
        {
            population.push(I::random(config, rng));
            k = k + 1;
        }
        Self { population, config: *config }
    }

    fn select(&self, config: &C, rng: &mut StdRng) -> (chosen: &I) {
        let cap: u64 = weight_cap(self.population.len());
        choose_by_weight::<I, C>(&self.population, cap, rng).unwrap()
    }
}

} // verus!
