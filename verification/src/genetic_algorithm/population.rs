use rand::rngs::StdRng;
use vstd::prelude::*;

use crate::genetic_algorithm::individual::Individual;
use crate::genetic_algorithm::statistics::{summarises, PopulationStatistics};

verus! {

/// Every individual of `members` has the shape that `params` ask for.
pub open spec fn all_wf<I: Individual<C>, C>(members: Seq<I>, params: &C) -> bool {
    forall|i: int| 0 <= i < members.len() ==> (#[trigger] members[i]).wf(params)
}

/// The individual is bred from `members`: it is a mutant of a child of two
/// of them, which may be one and the same.
pub open spec fn bred_from<I: Individual<C>, C>(individual: I, members: Seq<I>, params: &C) -> bool {
    exists|first: I, second: I, child: I|
        members.contains(first) && members.contains(second) && #[trigger] child.is_child_of(
            &first,
            &second,
            params,
        ) && #[trigger] individual.is_mutant_of(&child, params)
}

/// A set of individuals that breeds its own successor.
pub trait Population<I, C>: Sized where I: Individual<C>, C: Copy {
    /// The individuals, in order.
    spec fn members(&self) -> Seq<I>;

    /// The parameters the population was made with.
    spec fn parameters(&self) -> C;

    fn new(individuals: Vec<I>, config: &C) -> (population: Box<Self>)
        ensures
            population.members() == individuals@,
            population.parameters() == *config,
    ;

    fn get_config(&self) -> (config: &C)
        ensures
            *config == self.parameters(),
    ;

    fn size(&self) -> (size: usize)
        ensures
            size == self.members().len(),
    ;

    fn random(size: usize, params: &C, rng: &mut StdRng) -> (population: Self)
        requires
            I::valid_params(params),
        ensures
            population.members().len() == size,
            all_wf(population.members(), params),
            population.parameters() == *params,
    ;

    /// Draws one individual; an empty population has none to draw.
    fn select(&self, params: &C, rng: &mut StdRng) -> (chosen: &I)
        requires
            self.members().len() > 0,
        ensures
            self.members().contains(*chosen),
    ;

    fn get_population(&self) -> (individuals: &Vec<I>)
        ensures
            individuals@ == self.members(),
    ;

    /// Breeds the next generation: as many times as the population has
    /// members, two parents are selected, crossed, and the child mutated.
    /// The statistics are those of the parents' generation.
    fn evolve(&self, params: &C, rng: &mut StdRng) -> (next: (Box<Self>, PopulationStatistics))
        requires
            I::valid_params(params),
            all_wf(self.members(), params),
        ensures
            next.0.members().len() == self.members().len(),
            all_wf(next.0.members(), params),
            forall|k: int|
                0 <= k < next.0.members().len() ==> bred_from(
                    #[trigger] next.0.members()[k],
                    self.members(),
                    params,
                ),
            next.0.parameters() == self.parameters(),
            summarises::<I, C>(next.1, self.members()),
            next.1.max_similarity == 0,
    {
        let size: usize = self.size();
        let mut new_population: Vec<I> = Vec::new();
        let mut k: usize = 0;
        while k < size
            invariant
                I::valid_params(params),
                all_wf(self.members(), params),
                size == self.members().len(),
                k <= size,
                new_population@.len() == k,
                all_wf(new_population@, params),
                forall|m: int|
                    0 <= m < k ==> bred_from(#[trigger] new_population@[m], self.members(), params),
            decreases size - k,
        {
            let parent_a = self.select(params, rng);
            let parent_b = self.select(params, rng);
            let crossed = parent_a.crossover(parent_b, params, rng);
            let ghost unchanged = crossed;
            let child = crossed.mutate(params, rng);
            assert(bred_from(child, self.members(), params)) by {
                assert(self.members().contains(*parent_a) && self.members().contains(*parent_b)
                    && unchanged.is_child_of(parent_a, parent_b, params) && child.is_mutant_of(
                    &unchanged,
                    params,
                ));
            }
            new_population.push(child);
            k = k + 1;
        }
        let stats = PopulationStatistics::new::<I, C>(self.get_population(), 0);
        (Self::new(new_population, self.get_config()), stats)
    }
}

} // verus!
