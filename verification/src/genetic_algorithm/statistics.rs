use vstd::prelude::*;

use crate::fixed::floor_div;
use crate::genetic_algorithm::individual::Individual;

verus! {

/// Summary of one generation's fitness, in millionths.
#[derive(Copy, Clone, Debug, PartialEq, Eq, Structural)]
pub struct PopulationStatistics {
    pub min_fitness: i64,
    pub mean_fitness: i64,
    pub max_fitness: i64,
    /// Kept for a measure of likeness between individuals that is not
    /// computed yet; whatever the caller passes is stored.
    pub max_similarity: i64,
}

/// The sum of the fitness of the first `n` individuals.
pub open spec fn fitness_sum<I: Individual<C>, C>(population: Seq<I>, n: int) -> int
    decreases n,
{
    if n <= 0 {
        0
    } else {
        fitness_sum::<I, C>(population, n - 1) + population[n - 1].fitness_value()
    }
}

/// `stats` summarises `population`: its least and greatest fitness occur in
/// the population and bound every member's, and its mean is their sum over
/// their number, rounded toward negative infinity. Of an empty population
/// all three are zero.
pub open spec fn summarises<I: Individual<C>, C>(
    stats: PopulationStatistics,
    population: Seq<I>,
) -> bool {
    if population.len() == 0 {
        stats.min_fitness == 0 && stats.mean_fitness == 0 && stats.max_fitness == 0
    } else {
        &&& forall|i: int|
            0 <= i < population.len() ==> stats.min_fitness <= (#[trigger] population[i]).fitness_value()
                <= stats.max_fitness
        &&& exists|i: int|
            0 <= i < population.len() && (#[trigger] population[i]).fitness_value()
                == stats.min_fitness
        &&& exists|i: int|
            0 <= i < population.len() && (#[trigger] population[i]).fitness_value()
                == stats.max_fitness
        &&& stats.mean_fitness == fitness_sum::<I, C>(population, population.len() as int) / (
        population.len() as int)
    }
}

impl PopulationStatistics {
    pub fn new<I: Individual<C>, C>(population: &Vec<I>, max_similarity: i64) -> (stats: Self)
        ensures
            summarises::<I, C>(stats, population@),
            stats.max_similarity == max_similarity,
    {
        let count: usize = population.len();
        if count == 0 {
            return Self { min_fitness: 0, mean_fitness: 0, max_fitness: 0, max_similarity };
        }
        let first: i64 = population[0].fitness();
        let mut min_fitness: i64 = first;
        let mut max_fitness: i64 = first;
        let mut sum: i128 = first as i128;
        let mut k: usize = 1;
        let ghost mut at_min: int = 0;
        let ghost mut at_max: int = 0;
        assert(fitness_sum::<I, C>(population@, 1) == fitness_sum::<I, C>(population@, 0)
            + population@[0].fitness_value());
        while k < count
            invariant
                count == population@.len(),
                1 <= k <= count,
                sum == fitness_sum::<I, C>(population@, k as int),
                k * (i64::MIN as int) <= sum <= k * (i64::MAX as int),
                0 <= at_min < k,
                0 <= at_max < k,
                population@[at_min].fitness_value() == min_fitness,
                population@[at_max].fitness_value() == max_fitness,
                forall|i: int|
                    0 <= i < k ==> min_fitness <= (#[trigger] population@[i]).fitness_value()
                        <= max_fitness,
            decreases count - k,
        {
            let fitness: i64 = population[k].fitness();
            proof {
                assert(k * (i64::MIN as int) + (i64::MIN as int) == (k + 1) * (i64::MIN as int))
                    by (nonlinear_arith);
                assert(k * (i64::MAX as int) + (i64::MAX as int) == (k + 1) * (i64::MAX as int))
                    by (nonlinear_arith);
                assert((k + 1) * (i64::MAX as int) <= 0x1_0000_0000_0000_0000 * (i64::MAX as int))
                    by (nonlinear_arith)
                    requires
                        k + 1 <= 0x1_0000_0000_0000_0000,
                ;
                assert((k + 1) * (i64::MIN as int) >= 0x1_0000_0000_0000_0000 * (i64::MIN as int))
                    by (nonlinear_arith)
                    requires
                        k + 1 <= 0x1_0000_0000_0000_0000,
                ;
            }
            if fitness < min_fitness {
                min_fitness = fitness;
                proof {
                    at_min = k as int;
                }
            }
            if fitness > max_fitness {
                max_fitness = fitness;
                proof {
                    at_max = k as int;
                }
            }
            sum = sum + fitness as i128;
            k = k + 1;
        }
        let mean: i128 = floor_div(sum, count as i128);
        proof {
            lemma_mean_between(sum as int, count as int, i64::MIN as int, i64::MAX as int);
        }
        Self { min_fitness, mean_fitness: mean as i64, max_fitness, max_similarity }
    }

    pub fn min_fitness(&self) -> (fitness: i64)
        ensures
            fitness == self.min_fitness,
    {
        self.min_fitness
    }

    pub fn mean_fitness(&self) -> (fitness: i64)
        ensures
            fitness == self.mean_fitness,
    {
        self.mean_fitness
    }

    pub fn max_fitness(&self) -> (fitness: i64)
        ensures
            fitness == self.max_fitness,
    {
        self.max_fitness
    }
}

/// A sum of `count` values between `low` and `high` has its mean there too.
pub proof fn lemma_mean_between(sum: int, count: int, low: int, high: int)
    requires
        count > 0,
        count * low <= sum <= count * high,
    ensures
        low <= sum / count <= high,
{
    let q = sum / count;
    let r = sum % count;
    vstd::arithmetic::div_mod::lemma_fundamental_div_mod(sum, count);
    vstd::arithmetic::div_mod::lemma_mod_bound(sum, count);
    assert(low <= q) by (nonlinear_arith)
        requires
            count > 0,
            count * low <= sum,
            sum == count * q + r,
            0 <= r < count,
    ;
    assert(q <= high) by (nonlinear_arith)
        requires
            count > 0,
            sum <= count * high,
            sum == count * q + r,
            0 <= r < count,
    ;
}

} // verus!
