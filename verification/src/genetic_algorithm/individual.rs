use rand::rngs::StdRng;
use vstd::prelude::*;

verus! {

/// What a population asks of its members. `C` holds the parameters of a run.
pub trait Individual<C>: Sized {
    /// The parameters are ones that individuals can be made from.
    spec fn valid_params(params: &C) -> bool;

    /// The individual has the shape that `params` ask for, so that any two
    /// such individuals can be crossed.
    spec fn wf(&self, params: &C) -> bool;

    /// The fitness, in millionths.
    spec fn fitness_value(&self) -> int;

    /// The individual is one that a crossover of the two parents can give.
    spec fn is_child_of(&self, first: &Self, second: &Self, params: &C) -> bool;

    /// The individual is one that a mutation of `before` can give.
    spec fn is_mutant_of(&self, before: &Self, params: &C) -> bool;

    fn random(params: &C, rng: &mut StdRng) -> (individual: Self)
        requires
            Self::valid_params(params),
        ensures
            individual.wf(params),
    ;

    fn fitness(&self) -> (fitness: i64)
        ensures
            fitness == self.fitness_value(),
    ;

    fn mutate(self, params: &C, rng: &mut StdRng) -> (mutant: Self)
        requires
            Self::valid_params(params),
            self.wf(params),
        ensures
            mutant.wf(params),
            mutant.is_mutant_of(&self, params),
    ;

    fn crossover(&self, other: &Self, params: &C, rng: &mut StdRng) -> (child: Self)
        requires
            Self::valid_params(params),
            self.wf(params),
            other.wf(params),
        ensures
            child.wf(params),
            child.is_child_of(self, other, params),
    ;
}

} // verus!
