use rand::rngs::StdRng;
use vstd::prelude::*;

use crate::animal_simulation::animal::{
    after_decision, after_meetings, after_movement, capped_sum, in_reach, inputs_of, score, Animal,
};
use crate::animal_simulation::brain::{boost_of, speed_change, turn, Brain};
use crate::animal_simulation::config::Config;
use crate::animal_simulation::eye::VisibleAnimal;
use crate::animal_simulation::food::Food;
use crate::animal_simulation::point::Point2;
use crate::animal_simulation::world::{all_in_arena, World};
use crate::fixed::{clamp_i64, saturate_i64, SCALE};
use crate::genetic_algorithm::individual::Individual;
use crate::genetic_algorithm::population::{all_wf, bred_from, Population};
use crate::genetic_algorithm::roulette_wheel::RouletteWheelPopulation;
use crate::genetic_algorithm::statistics::summarises;
use crate::rng::{entropy_source, NoEntropy};
use crate::stats::Statistics;

verus! {

/// The world, the networks of its animals, and the count of ticks and
/// generations. Animal `i` of the world is steered by network `i` of the
/// population.
pub struct Simulation {
    pub config: Config,
    pub world: World,
    pub population: Box<RouletteWheelPopulation<Brain, Config>>,
    pub age: usize,
    pub generation: usize,
}

/// There are as many animals as brains, animal `i` carries the number `i`,
/// and every animal is well formed.
pub open spec fn herd(animals: Seq<Animal>, brains: Seq<Brain>, config: &Config) -> bool {
    &&& animals.len() == brains.len()
    &&& forall|i: int|
        0 <= i < animals.len() ==> (#[trigger] animals[i]).brain == i && animals[i].wf(config)
}

/// What the animals show of themselves.
pub open spec fn shown(animals: Seq<Animal>) -> Seq<VisibleAnimal> {
    animals.map_values(
        |animal: Animal| VisibleAnimal(animal.position, animal.rotation, animal.speed, animal.satiation),
    )
}

/// The food lies within no animal's reach.
pub open spec fn out_of_reach(animals: Seq<Animal>, food: Food, config: &Config) -> bool {
    forall|i: int| 0 <= i < animals.len() ==> !in_reach(#[trigger] animals[i], food, config)
}

/// Every piece of food that lay within no animal's reach lies where it lay.
pub open spec fn untouched_stays(
    animals: Seq<Animal>,
    foods: Seq<Food>,
    foods_after: Seq<Food>,
    config: &Config,
) -> bool {
    &&& foods_after.len() == foods.len()
    &&& forall|j: int|
        0 <= j < foods.len() && out_of_reach(animals, #[trigger] foods[j], config)
            ==> foods_after[j] == foods[j]
}

/// How many of the first `n` pieces of food lie within the animal's reach.
pub open spec fn reach_count(animal: Animal, foods: Seq<Food>, config: &Config, n: int) -> int
    decreases n,
{
    if n <= 0 {
        0
    } else if in_reach(animal, foods[n - 1], config) {
        reach_count(animal, foods, config, n - 1) + 1
    } else {
        reach_count(animal, foods, config, n - 1)
    }
}

/// The food after an animal has eaten: every piece that lay within its
/// reach lies somewhere in the arena, and every other where it lay.
pub open spec fn turned(
    animal: Animal,
    foods: Seq<Food>,
    foods_after: Seq<Food>,
    config: &Config,
) -> bool {
    &&& foods_after.len() == foods.len()
    &&& forall|j: int|
        0 <= j < foods.len() ==> if in_reach(animal, #[trigger] foods[j], config) {
            foods_after[j].position.in_arena()
        } else {
            foods_after[j] == foods[j]
        }
}

/// Animal `i` eats in its turn: of the food as it lies before the turn
/// (`stages[i]`) it eats every piece within its reach, which makes
/// `meals[i]`, and leaves the food as it lies after the turn
/// (`stages[i + 1]`).
pub open spec fn turn_taken(
    animals: Seq<Animal>,
    stages: Seq<Seq<Food>>,
    meals: Seq<int>,
    config: &Config,
    i: int,
) -> bool {
    &&& meals[i] == reach_count(animals[i], stages[i], config, stages[i].len() as int)
    &&& turned(animals[i], stages[i], stages[i + 1], config)
}

/// The animals eat one after the other: `stages` holds the food as it lies
/// before each animal's turn and after the last, and `meals` what each
/// animal eats.
pub open spec fn eaten_in_turn(
    animals: Seq<Animal>,
    foods: Seq<Food>,
    stages: Seq<Seq<Food>>,
    meals: Seq<int>,
    foods_after: Seq<Food>,
    config: &Config,
) -> bool {
    &&& stages.len() == animals.len() + 1
    &&& meals.len() == animals.len()
    &&& stages[0] == foods
    &&& stages[animals.len() as int] == foods_after
    &&& forall|i: int|
        0 <= i < animals.len() ==> #[trigger] turn_taken(animals, stages, meals, config, i)
}

/// No animal has any food within its reach.
pub open spec fn nothing_in_reach(animals: Seq<Animal>, foods: Seq<Food>, config: &Config) -> bool {
    forall|j: int| 0 <= j < foods.len() ==> out_of_reach(animals, #[trigger] foods[j], config)
}

/// Of food that is all out of its reach an animal eats nothing.
pub proof fn lemma_reach_count_none(animal: Animal, foods: Seq<Food>, config: &Config, n: int)
    requires
        0 <= n <= foods.len(),
        forall|j: int| 0 <= j < foods.len() ==> !in_reach(animal, #[trigger] foods[j], config),
    ensures
        reach_count(animal, foods, config, n) == 0,
    decreases n,
{
    if n > 0 {
        lemma_reach_count_none(animal, foods, config, n - 1);
    }
}

/// Where no animal has any food within its reach, no food moves and no
/// animal eats.
pub proof fn lemma_nothing_eaten(
    animals: Seq<Animal>,
    foods: Seq<Food>,
    stages: Seq<Seq<Food>>,
    meals: Seq<int>,
    foods_after: Seq<Food>,
    config: &Config,
)
    requires
        eaten_in_turn(animals, foods, stages, meals, foods_after, config),
        nothing_in_reach(animals, foods, config),
    ensures
        foods_after =~= foods,
        forall|i: int| 0 <= i < meals.len() ==> #[trigger] meals[i] == 0,
{
    lemma_stages_same(animals, foods, stages, meals, foods_after, config, animals.len() as int);
    assert forall|i: int| 0 <= i < meals.len() implies #[trigger] meals[i] == 0 by {
        lemma_stages_same(animals, foods, stages, meals, foods_after, config, i);
        assert(turn_taken(animals, stages, meals, config, i));
        assert forall|j: int| 0 <= j < foods.len() implies !in_reach(
            animals[i],
            #[trigger] foods[j],
            config,
        ) by {
            assert(out_of_reach(animals, foods[j], config));
        }
        lemma_reach_count_none(animals[i], foods, config, foods.len() as int);
    }
}

/// Where no animal has any food within its reach, the food lies before
/// every turn as it lay before the first.
pub proof fn lemma_stages_same(
    animals: Seq<Animal>,
    foods: Seq<Food>,
    stages: Seq<Seq<Food>>,
    meals: Seq<int>,
    foods_after: Seq<Food>,
    config: &Config,
    i: int,
)
    requires
        eaten_in_turn(animals, foods, stages, meals, foods_after, config),
        nothing_in_reach(animals, foods, config),
        0 <= i <= animals.len(),
    ensures
        stages[i] =~= foods,
    decreases i,
{
    if i > 0 {
        lemma_stages_same(animals, foods, stages, meals, foods_after, config, i - 1);
        assert(turn_taken(animals, stages, meals, config, i - 1));
        assert forall|j: int| 0 <= j < foods.len() implies stages[i][j] == foods[j] by {
            assert(out_of_reach(animals, foods[j], config));
            assert(!in_reach(animals[i - 1], stages[i - 1][j], config));
        }
    }
}

/// The animal with `meals` more of satiation.
pub open spec fn fed(animal: Animal, meals: int) -> Animal {
    Animal { satiation: capped_sum(animal.satiation, meals), ..animal }
}

/// What a tick's eating and meeting make of an animal and its brain, where
/// the animal ate `meals` pieces of food: it is fed, and then comes across
/// all the animals as they showed themselves before the tick. Every meal
/// sets the fitness to the score of the animal as it is fed.
pub open spec fn grazed(
    animal: Animal,
    brain: Brain,
    after: Animal,
    brain_after: Brain,
    others: Seq<VisibleAnimal>,
    config: &Config,
    meals: int,
) -> bool {
    &&& after == after_meetings(fed(animal, meals), others, config, others.len() as int)
    &&& brain_after.nn == brain.nn
    &&& brain_after.speed_accel == brain.speed_accel
    &&& brain_after.rotation_accel == brain.rotation_accel
    &&& brain_after.fitness == (if meals > 0 {
        score(capped_sum(animal.satiation, meals), animal.boosts, config.boost_cost)
    } else {
        brain.fitness as int
    })
}

/// What a tick's eating and meeting make of all animals and brains, where
/// animal `i` ate `meals[i]` pieces of food.
pub open spec fn all_grazed(
    animals: Seq<Animal>,
    brains: Seq<Brain>,
    animals_after: Seq<Animal>,
    brains_after: Seq<Brain>,
    config: &Config,
    foods: int,
    meals: Seq<int>,
) -> bool {
    &&& meals.len() == animals.len()
    &&& animals_after.len() == animals.len()
    &&& brains_after.len() == brains.len()
    &&& forall|i: int|
        0 <= i < meals.len() ==> 0 <= #[trigger] meals[i] <= foods && grazed(
            animals[i],
            brains[i],
            animals_after[i],
            brains_after[i],
            shown(animals),
            config,
            meals[i],
        )
}

/// What a tick's looking and deciding make of an animal: a stunned one
/// stays as it is; another sees the food and the animals as they showed
/// themselves before the tick, and takes up what its brain asks for.
pub open spec fn decided(
    animal: Animal,
    after: Animal,
    config: &Config,
    foods: Seq<Food>,
    others: Seq<VisibleAnimal>,
    brain: Brain,
) -> bool {
    if animal.stunned > 0 {
        after == animal
    } else {
        let seen = animal.eye.vision(animal.position, animal.rotation, foods, others);
        let response = brain.nn.outputs(inputs_of(seen, animal.satiation));
        &&& after.vision@ == seen
        &&& after == after_decision(
            Animal { vision: after.vision, ..animal },
            config,
            speed_change(response, brain.speed_accel as int) as i32,
            turn(response, brain.rotation_accel as int) as i32,
            boost_of(response) as i32,
        )
    }
}

/// One tick's eating and meeting, looking and deciding, and moving, through
/// what lies in between: `stages` is the food as it lies before each
/// animal's turn to eat and after the last, `meals` what each animal eats,
/// `grazed` are the animals after all have eaten and met, `looked` those
/// after all have decided, and `after` those after all have moved. The food
/// is seen where it lies after the eating.
pub open spec fn ticked(
    before: Seq<Animal>,
    brains: Seq<Brain>,
    foods: Seq<Food>,
    stages: Seq<Seq<Food>>,
    meals: Seq<int>,
    grazed: Seq<Animal>,
    looked: Seq<Animal>,
    after: Seq<Animal>,
    brains_after: Seq<Brain>,
    foods_after: Seq<Food>,
    config: &Config,
) -> bool {
    &&& eaten_in_turn(before, foods, stages, meals, foods_after, config)
    &&& all_grazed(before, brains, grazed, brains_after, config, foods.len() as int, meals)
    &&& looked.len() == grazed.len()
    &&& after.len() == grazed.len()
    &&& forall|i: int|
        0 <= i < grazed.len() ==> decided(
            grazed[i],
            #[trigger] looked[i],
            config,
            foods_after,
            shown(grazed),
            brains_after[i],
        )
    &&& forall|i: int|
        0 <= i < grazed.len() ==> #[trigger] after[i] == after_movement(looked[i], config)
}

/// The animals, brains and food are those that one tick makes of the
/// animals, brains and food before it.
pub open spec fn acted(
    before: Seq<Animal>,
    brains: Seq<Brain>,
    foods: Seq<Food>,
    after: Seq<Animal>,
    brains_after: Seq<Brain>,
    foods_after: Seq<Food>,
    config: &Config,
) -> bool {
    exists|stages: Seq<Seq<Food>>, meals: Seq<int>, grazed: Seq<Animal>, looked: Seq<Animal>|
        #[trigger] ticked(
            before,
            brains,
            foods,
            stages,
            meals,
            grazed,
            looked,
            after,
            brains_after,
            foods_after,
            config,
        )
}

/// The number the generations have after one more, which stops at the
/// largest value.
pub open spec fn next_generation(generation: usize) -> int {
    if generation < usize::MAX {
        generation + 1
    } else {
        usize::MAX as int
    }
}

/// `next` is the generation that the tick which ends a generation breeds:
/// the animals eat and meet, decide and move, and the next generation is
/// bred from the brains as they are after that, of which `summary` is the
/// summary.
pub open spec fn ended(
    before: Seq<Animal>,
    brains: Seq<Brain>,
    foods: Seq<Food>,
    next: Seq<Brain>,
    config: &Config,
    summary: crate::genetic_algorithm::statistics::PopulationStatistics,
) -> bool {
    exists|animals: Seq<Animal>, earned: Seq<Brain>, foods_after: Seq<Food>|
        {
            &&& #[trigger] acted(before, brains, foods, animals, earned, foods_after, config)
            &&& succeeds(earned, animals, config, summary, next)
        }
}

/// Tick `i` of a course of animals, brains and food is a tick within a
/// generation: it leads from those numbered `i` to the next ones.
pub open spec fn linked(
    animals: Seq<Seq<Animal>>,
    brains: Seq<Seq<Brain>>,
    foods: Seq<Seq<Food>>,
    config: &Config,
    i: int,
) -> bool {
    acted(animals[i], brains[i], foods[i], animals[i + 1], brains[i + 1], foods[i + 1], config)
}

/// The animals, brains and food are those before, between and after `n`
/// ticks within a generation.
pub open spec fn course(
    animals: Seq<Seq<Animal>>,
    brains: Seq<Seq<Brain>>,
    foods: Seq<Seq<Food>>,
    config: &Config,
    n: nat,
) -> bool {
    &&& animals.len() == n + 1
    &&& brains.len() == n + 1
    &&& foods.len() == n + 1
    &&& forall|i: int| 0 <= i < n ==> #[trigger] linked(animals, brains, foods, config, i)
}

/// `after`, `brains_after` and `foods_after` are what `n` ticks within a
/// generation make of `before`, `brains` and `foods`.
pub open spec fn ran(
    before: Seq<Animal>,
    brains: Seq<Brain>,
    foods: Seq<Food>,
    n: nat,
    after: Seq<Animal>,
    brains_after: Seq<Brain>,
    foods_after: Seq<Food>,
    config: &Config,
) -> bool {
    exists|animals: Seq<Seq<Animal>>, stages: Seq<Seq<Brain>>, lying: Seq<Seq<Food>>|
        {
            &&& #[trigger] course(animals, stages, lying, config, n)
            &&& animals[0] == before
            &&& stages[0] == brains
            &&& lying[0] == foods
            &&& animals[n as int] == after
            &&& stages[n as int] == brains_after
            &&& lying[n as int] == foods_after
        }
}

/// `next` is the generation that is bred when the ticks of a generation, of
/// which `ticks` were still to come before its end, have run and the
/// generation has ended, and `summary` the summary of the fitness it was
/// bred for.
pub open spec fn trained(
    before: Seq<Animal>,
    brains: Seq<Brain>,
    foods: Seq<Food>,
    ticks: nat,
    next: Seq<Brain>,
    config: &Config,
    summary: crate::genetic_algorithm::statistics::PopulationStatistics,
) -> bool {
    exists|last: Seq<Animal>, last_brains: Seq<Brain>, last_foods: Seq<Food>|
        {
            &&& #[trigger] ran(
                before,
                brains,
                foods,
                ticks,
                last,
                last_brains,
                last_foods,
                config,
            )
            &&& ended(last, last_brains, last_foods, next, config, summary)
        }
}

/// No tick leaves everything as it is.
pub proof fn lemma_ran_nothing(
    before: Seq<Animal>,
    brains: Seq<Brain>,
    foods: Seq<Food>,
    config: &Config,
)
    ensures
        ran(before, brains, foods, 0, before, brains, foods, config),
{
    assert(course(seq![before], seq![brains], seq![foods], config, 0));
}

/// One more tick within the generation lengthens the run by one.
pub proof fn lemma_ran_on(
    before: Seq<Animal>,
    brains: Seq<Brain>,
    foods: Seq<Food>,
    n: nat,
    last: Seq<Animal>,
    last_brains: Seq<Brain>,
    last_foods: Seq<Food>,
    after: Seq<Animal>,
    brains_after: Seq<Brain>,
    foods_after: Seq<Food>,
    config: &Config,
)
    requires
        ran(before, brains, foods, n, last, last_brains, last_foods, config),
        acted(last, last_brains, last_foods, after, brains_after, foods_after, config),
    ensures
        ran(before, brains, foods, n + 1, after, brains_after, foods_after, config),
{
    let (animals, stages, lying) = choose|
        animals: Seq<Seq<Animal>>,
        stages: Seq<Seq<Brain>>,
        lying: Seq<Seq<Food>>,
    |
        {
            &&& #[trigger] course(animals, stages, lying, config, n)
            &&& animals[0] == before
            &&& stages[0] == brains
            &&& lying[0] == foods
            &&& animals[n as int] == last
            &&& stages[n as int] == last_brains
            &&& lying[n as int] == last_foods
        };
    let longer = animals.push(after);
    let further = stages.push(brains_after);
    let later = lying.push(foods_after);
    assert forall|i: int| 0 <= i < n + 1 implies #[trigger] linked(
        longer,
        further,
        later,
        config,
        i,
    ) by {
        if i < n {
            assert(linked(animals, stages, lying, config, i));
            assert(longer[i] == animals[i] && longer[i + 1] == animals[i + 1]);
            assert(further[i] == stages[i] && further[i + 1] == stages[i + 1]);
            assert(later[i] == lying[i] && later[i + 1] == lying[i + 1]);
        }
    }
    assert(course(longer, further, later, config, n + 1));
}

/// Two animals are alike in all but, perhaps, how the values of what they
/// see are stored.
pub open spec fn alike(a: Animal, b: Animal) -> bool {
    &&& a.position == b.position
    &&& a.rotation == b.rotation
    &&& a.vision@ == b.vision@
    &&& a.speed == b.speed
    &&& a.eye == b.eye
    &&& a.brain == b.brain
    &&& a.satiation == b.satiation
    &&& a.boosts == b.boosts
    &&& a.boosting == b.boosting
    &&& a.stunned == b.stunned
    &&& a.stunned_cooldown == b.stunned_cooldown
}

/// The animals of two herds are alike one by one, and their brains have the
/// same fitness, accelerations and network.
pub open spec fn same_herd(
    first: Seq<Animal>,
    first_brains: Seq<Brain>,
    second: Seq<Animal>,
    second_brains: Seq<Brain>,
) -> bool {
    &&& first.len() == second.len()
    &&& first_brains.len() == second_brains.len()
    &&& forall|i: int| 0 <= i < first.len() ==> alike(#[trigger] first[i], second[i])
    &&& forall|i: int|
        0 <= i < first_brains.len() ==> {
            &&& (#[trigger] first_brains[i]).fitness == second_brains[i].fitness
            &&& first_brains[i].nn == second_brains[i].nn
            &&& first_brains[i].speed_accel == second_brains[i].speed_accel
            &&& first_brains[i].rotation_accel == second_brains[i].rotation_accel
        }
}

/// Animals at the same place have the same food within their reach.
pub proof fn lemma_reach_alike(a: Animal, b: Animal, foods: Seq<Food>, config: &Config, n: int)
    requires
        a.position == b.position,
    ensures
        reach_count(a, foods, config, n) == reach_count(b, foods, config, n),
    decreases n,
{
    if n > 0 {
        lemma_reach_alike(a, b, foods, config, n - 1);
    }
}

/// Animals that are alike are alike after they have come across the same
/// others.
pub proof fn lemma_meetings_alike(
    a: Animal,
    b: Animal,
    others: Seq<VisibleAnimal>,
    config: &Config,
    n: int,
)
    requires
        alike(a, b),
    ensures
        alike(after_meetings(a, others, config, n), after_meetings(b, others, config, n)),
    decreases n,
{
    if n > 0 {
        lemma_meetings_alike(a, b, others, config, n - 1);
    }
}

/// Herds that are alike show the same of themselves.
pub proof fn lemma_shown_alike(first: Seq<Animal>, second: Seq<Animal>)
    requires
        first.len() == second.len(),
        forall|i: int| 0 <= i < first.len() ==> alike(#[trigger] first[i], second[i]),
    ensures
        shown(first) == shown(second),
{
    assert forall|i: int| 0 <= i < first.len() implies shown(first)[i] == shown(second)[i] by {
        assert(alike(first[i], second[i]));
    }
    assert(shown(first) =~= shown(second));
}

/// But for what is drawn, a tick leaves nothing open: from herds that are
/// alike and the same food, with the food in the same places before every
/// animal's turn to eat and after the last, it leads to the same meals and
/// to herds that are alike.
pub proof fn lemma_tick_determined(
    before: Seq<Animal>,
    brains: Seq<Brain>,
    twin: Seq<Animal>,
    twin_brains: Seq<Brain>,
    foods: Seq<Food>,
    stages: Seq<Seq<Food>>,
    foods_after: Seq<Food>,
    config: &Config,
    first_meals: Seq<int>,
    first_grazed: Seq<Animal>,
    first_looked: Seq<Animal>,
    first: Seq<Animal>,
    first_brains: Seq<Brain>,
    second_meals: Seq<int>,
    second_grazed: Seq<Animal>,
    second_looked: Seq<Animal>,
    second: Seq<Animal>,
    second_brains: Seq<Brain>,
)
    requires
        before.len() == brains.len(),
        same_herd(before, brains, twin, twin_brains),
        ticked(
            before,
            brains,
            foods,
            stages,
            first_meals,
            first_grazed,
            first_looked,
            first,
            first_brains,
            foods_after,
            config,
        ),
        ticked(
            twin,
            twin_brains,
            foods,
            stages,
            second_meals,
            second_grazed,
            second_looked,
            second,
            second_brains,
            foods_after,
            config,
        ),
    ensures
        first_meals =~= second_meals,
        same_herd(first, first_brains, second, second_brains),
        first.len() == before.len(),
        first_brains.len() == brains.len(),
{
    lemma_shown_alike(before, twin);
    assert forall|i: int| 0 <= i < before.len() implies first_meals[i] == second_meals[i] by {
        assert(turn_taken(before, stages, first_meals, config, i));
        assert(turn_taken(twin, stages, second_meals, config, i));
        assert(alike(before[i], twin[i]));
        lemma_reach_alike(before[i], twin[i], stages[i], config, stages[i].len() as int);
    }
    assert forall|i: int| 0 <= i < before.len() implies alike(
        #[trigger] first_grazed[i],
        second_grazed[i],
    ) && first_brains[i].fitness == second_brains[i].fitness && first_brains[i].nn
        == second_brains[i].nn && first_brains[i].speed_accel == second_brains[i].speed_accel
        && first_brains[i].rotation_accel == second_brains[i].rotation_accel by {
        assert(first_meals[i] == second_meals[i]);
        assert(0 <= first_meals[i]);
        assert(0 <= second_meals[i]);
        assert(alike(before[i], twin[i]));
        assert(brains[i].fitness == twin_brains[i].fitness);
        assert(grazed(
            before[i],
            brains[i],
            first_grazed[i],
            first_brains[i],
            shown(before),
            config,
            first_meals[i],
        ));
        assert(grazed(
            twin[i],
            twin_brains[i],
            second_grazed[i],
            second_brains[i],
            shown(twin),
            config,
            second_meals[i],
        ));
        lemma_meetings_alike(
            fed(before[i], first_meals[i]),
            fed(twin[i], first_meals[i]),
            shown(before),
            config,
            shown(before).len() as int,
        );
    }
    lemma_shown_alike(first_grazed, second_grazed);
    assert forall|i: int| 0 <= i < first_brains.len() implies {
        &&& (#[trigger] first_brains[i]).fitness == second_brains[i].fitness
        &&& first_brains[i].nn == second_brains[i].nn
        &&& first_brains[i].speed_accel == second_brains[i].speed_accel
        &&& first_brains[i].rotation_accel == second_brains[i].rotation_accel
    } by {
        assert(alike(first_grazed[i], second_grazed[i]));
    }
    assert forall|i: int| 0 <= i < first.len() implies alike(#[trigger] first[i], second[i]) by {
        assert(alike(first_grazed[i], second_grazed[i]));
        assert(decided(
            first_grazed[i],
            first_looked[i],
            config,
            foods_after,
            shown(first_grazed),
            first_brains[i],
        ));
        assert(decided(
            second_grazed[i],
            second_looked[i],
            config,
            foods_after,
            shown(second_grazed),
            second_brains[i],
        ));
        assert(first_brains[i].nn == second_brains[i].nn);
        assert(alike(first_looked[i], second_looked[i]));
        assert(first[i] == after_movement(first_looked[i], config));
        assert(second[i] == after_movement(second_looked[i], config));
    }
}

/// Tick `i` of a course of animals, brains and food is a tick within a
/// generation in which the food lies as `turns[i]` says before each
/// animal's turn to eat and after the last.
pub open spec fn linked_through(
    animals: Seq<Seq<Animal>>,
    brains: Seq<Seq<Brain>>,
    foods: Seq<Seq<Food>>,
    turns: Seq<Seq<Seq<Food>>>,
    config: &Config,
    i: int,
) -> bool {
    exists|meals: Seq<int>, grazed: Seq<Animal>, looked: Seq<Animal>|
        #[trigger] ticked(
            animals[i],
            brains[i],
            foods[i],
            turns[i],
            meals,
            grazed,
            looked,
            animals[i + 1],
            brains[i + 1],
            foods[i + 1],
            config,
        )
}

/// The animals, brains and food are those before, between and after `n`
/// ticks within a generation, with the food in every tick lying as `turns`
/// says.
pub open spec fn course_through(
    animals: Seq<Seq<Animal>>,
    brains: Seq<Seq<Brain>>,
    foods: Seq<Seq<Food>>,
    turns: Seq<Seq<Seq<Food>>>,
    config: &Config,
    n: nat,
) -> bool {
    &&& animals.len() == n + 1
    &&& brains.len() == n + 1
    &&& foods.len() == n + 1
    &&& turns.len() == n
    &&& forall|i: int|
        0 <= i < n ==> #[trigger] linked_through(animals, brains, foods, turns, config, i)
}

/// A course through given places of the food is a course.
pub proof fn lemma_course_through(
    animals: Seq<Seq<Animal>>,
    brains: Seq<Seq<Brain>>,
    foods: Seq<Seq<Food>>,
    turns: Seq<Seq<Seq<Food>>>,
    config: &Config,
    n: nat,
)
    requires
        course_through(animals, brains, foods, turns, config, n),
    ensures
        course(animals, brains, foods, config, n),
{
    assert forall|i: int| 0 <= i < n implies #[trigger] linked(
        animals,
        brains,
        foods,
        config,
        i,
    ) by {
        assert(linked_through(animals, brains, foods, turns, config, i));
    }
}

/// Ticks within a generation leave nothing open but where eaten food turns
/// up: two runs of `n` ticks from herds that are alike, with the food in
/// the same places throughout, lead to herds that are alike after every
/// tick.
pub proof fn lemma_run_determined(
    animals: Seq<Seq<Animal>>,
    brains: Seq<Seq<Brain>>,
    twins: Seq<Seq<Animal>>,
    twin_brains: Seq<Seq<Brain>>,
    foods: Seq<Seq<Food>>,
    turns: Seq<Seq<Seq<Food>>>,
    config: &Config,
    n: nat,
    i: int,
)
    requires
        course_through(animals, brains, foods, turns, config, n),
        course_through(twins, twin_brains, foods, turns, config, n),
        animals[0].len() == brains[0].len(),
        same_herd(animals[0], brains[0], twins[0], twin_brains[0]),
        0 <= i <= n,
    ensures
        same_herd(animals[i], brains[i], twins[i], twin_brains[i]),
        animals[i].len() == brains[i].len(),
    decreases i,
{
    if i > 0 {
        lemma_run_determined(animals, brains, twins, twin_brains, foods, turns, config, n, i - 1);
        assert(linked_through(animals, brains, foods, turns, config, i - 1));
        assert(linked_through(twins, twin_brains, foods, turns, config, i - 1));
        let (meals, grazed, looked) = choose|
            meals: Seq<int>,
            grazed: Seq<Animal>,
            looked: Seq<Animal>,
        |
            #[trigger] ticked(
                animals[i - 1],
                brains[i - 1],
                foods[i - 1],
                turns[i - 1],
                meals,
                grazed,
                looked,
                animals[i],
                brains[i],
                foods[i],
                config,
            );
        let (twin_meals, twin_grazed, twin_looked) = choose|
            meals: Seq<int>,
            grazed: Seq<Animal>,
            looked: Seq<Animal>,
        |
            #[trigger] ticked(
                twins[i - 1],
                twin_brains[i - 1],
                foods[i - 1],
                turns[i - 1],
                meals,
                grazed,
                looked,
                twins[i],
                twin_brains[i],
                foods[i],
                config,
            );
        lemma_tick_determined(
            animals[i - 1],
            brains[i - 1],
            twins[i - 1],
            twin_brains[i - 1],
            foods[i - 1],
            turns[i - 1],
            foods[i],
            config,
            meals,
            grazed,
            looked,
            animals[i],
            brains[i],
            twin_meals,
            twin_grazed,
            twin_looked,
            twins[i],
            twin_brains[i],
        );
    }
}

/// The greatest satiation among the first `n` animals; zero where there is
/// none.
pub open spec fn greatest_satiation(animals: Seq<Animal>, n: int) -> int
    decreases n,
{
    if n <= 0 {
        0
    } else {
        let before = greatest_satiation(animals, n - 1);
        if animals[n - 1].satiation > before {
            animals[n - 1].satiation as int
        } else {
            before
        }
    }
}

/// The fitness that stands for `fitness` where low fitness is bred for: its
/// distance below the greatest satiation.
pub open spec fn reversed(fitness: i64, greatest: int) -> int {
    clamp_i64(greatest * SCALE - fitness)
}

/// `after` are the brains `before` with every fitness turned into its
/// distance below `greatest`.
pub open spec fn turned_round(before: Seq<Brain>, after: Seq<Brain>, greatest: int) -> bool {
    &&& after.len() == before.len()
    &&& forall|i: int|
        0 <= i < before.len() ==> {
            &&& (#[trigger] after[i]).fitness == reversed(before[i].fitness, greatest)
            &&& after[i].nn == before[i].nn
            &&& after[i].speed_accel == before[i].speed_accel
            &&& after[i].rotation_accel == before[i].rotation_accel
        }
}

/// The brains from which the next generation is bred: the present ones or,
/// where low fitness is bred for, those with their fitness turned round.
pub open spec fn parents(
    before: Seq<Brain>,
    animals: Seq<Animal>,
    config: &Config,
    bred: Seq<Brain>,
) -> bool {
    if config.ga_reverse == 1 {
        turned_round(before, bred, greatest_satiation(animals, animals.len() as int))
    } else {
        bred == before
    }
}

/// `next` is a generation bred from the brains `before` of the given
/// animals, and `summary` the summary of the fitness it was bred for.
pub open spec fn succeeds(
    before: Seq<Brain>,
    animals: Seq<Animal>,
    config: &Config,
    summary: crate::genetic_algorithm::statistics::PopulationStatistics,
    next: Seq<Brain>,
) -> bool {
    exists|bred: Seq<Brain>|
        {
            &&& #[trigger] parents(before, animals, config, bred)
            &&& summarises::<Brain, Config>(summary, bred)
            &&& forall|k: int| 0 <= k < next.len() ==> bred_from(#[trigger] next[k], bred, config)
        }
}

/// An animal that was fed and met others is well formed as before.
pub proof fn lemma_meetings_wf(
    animal: Animal,
    others: Seq<VisibleAnimal>,
    config: &Config,
    n: int,
)
    requires
        animal.wf(config),
        config.valid(),
        0 <= n <= others.len(),
    ensures
        after_meetings(animal, others, config, n).wf(config),
        after_meetings(animal, others, config, n).brain == animal.brain,
    decreases n,
{
    if n > 0 {
        lemma_meetings_wf(animal, others, config, n - 1);
    }
}

impl Simulation {
    /// The parameters are valid; there are as many animals, each steered by
    /// the network of its number, as the parameters ask for, and as much
    /// food; every animal and network is as the parameters ask, the food
    /// lies in the arena, and the generation is no older than its length.
    pub open spec fn wf(&self) -> bool {
        &&& self.config.valid()
        &&& self.population.population@.len() == self.config.world_animals
        &&& herd(self.world.animals@, self.population.population@, &self.config)
        &&& all_wf(self.population.population@, &self.config)
        &&& self.world.foods@.len() == self.config.world_foods
        &&& all_in_arena(self.world.foods@)
        &&& self.age <= self.config.sim_generation_length
    }

    /// Whether the simulation is in order, as [`Simulation::wf`] says.
    pub fn is_wf(&self) -> (ok: bool)
        ensures
            ok == self.wf(),
    {
        let count: usize = self.population.population.len();
        if !(self.config.is_valid() && count == self.config.world_animals
            && self.world.animals.len() == count && self.world.foods.len()
            == self.config.world_foods && self.age <= self.config.sim_generation_length) {
            return false;
        }
        let mut i: usize = 0;
        while i < count
            invariant
                self.config.valid(),
                count == self.population.population@.len(),
                count == self.world.animals@.len(),
                i <= count,
                forall|k: int|
                    0 <= k < i ==> (#[trigger] self.world.animals@[k]).brain == k
                        && self.world.animals@[k].wf(&self.config),
                forall|k: int|
                    0 <= k < i ==> (#[trigger] self.population.population@[k]).wf(&self.config),
            decreases count - i,
        {
            if !(self.world.animals[i].brain == i && self.world.animals[i].is_wf(&self.config)
                && self.population.population[i].is_shaped(&self.config)) {
                return false;
            }
            i = i + 1;
        }
        let mut j: usize = 0;
        while j < self.world.foods.len()
            invariant
                j <= self.world.foods@.len(),
                forall|k: int|
                    0 <= k < j ==> (#[trigger] self.world.foods@[k]).position.in_arena(),
            decreases self.world.foods@.len() - j,
        {
            let position = self.world.foods[j].position;
            if !(0 <= position.x && position.x < 1_000_000 && 0 <= position.y && position.y
                < 1_000_000) {
                return false;
            }
            j = j + 1;
        }
        true
    }

    /// The animals as they show themselves.
    pub fn snapshot(animals: &Vec<Animal>) -> (others: Vec<VisibleAnimal>)
        ensures
            others@ == shown(animals@),
    {
        let mut others: Vec<VisibleAnimal> = Vec::new();
        let mut i: usize = 0;
        while i < animals.len()
            invariant
                i <= animals@.len(),
                others@.len() == i,
                forall|k: int| 0 <= k < i ==> others@[k] == shown(animals@)[k],
            decreases animals@.len() - i,
        {
            others.push(animals[i].visible());
            i = i + 1;
        }
        assert(others@ =~= shown(animals@));
        others
    }

    /// Eating and meeting. Every animal in its turn eats all the food that
    /// lies within its reach, each piece of which turns up again at a
    /// random place, and then comes across all the animals as they showed
    /// themselves before the tick.
    pub fn process_collisions(
        world: &mut World,
        brains: &mut Vec<Brain>,
        config: &Config,
        rng: &mut StdRng,
    )
        requires
            config.valid(),
            herd(old(world).animals@, old(brains)@, config),
            all_in_arena(old(world).foods@),
        ensures
            herd(final(world).animals@, final(brains)@, config),
            final(world).foods@.len() == old(world).foods@.len(),
            all_in_arena(final(world).foods@),
            untouched_stays(old(world).animals@, old(world).foods@, final(world).foods@, config),
            old(world).animals@.len() > 0 ==> grazed(
                old(world).animals@[0],
                old(brains)@[0],
                final(world).animals@[0],
                final(brains)@[0],
                shown(old(world).animals@),
                config,
                reach_count(
                    old(world).animals@[0],
                    old(world).foods@,
                    config,
                    old(world).foods@.len() as int,
                ),
            ),
            nothing_in_reach(old(world).animals@, old(world).foods@, config) ==> {
                &&& final(world).foods@ == old(world).foods@
                &&& all_grazed(
                    old(world).animals@,
                    old(brains)@,
                    final(world).animals@,
                    final(brains)@,
                    config,
                    old(world).foods@.len() as int,
                    Seq::new(old(world).animals@.len(), |i: int| 0int),
                )
            },
            exists|meals: Seq<int>, stages: Seq<Seq<Food>>|
                {
                    &&& #[trigger] eaten_in_turn(
                        old(world).animals@,
                        old(world).foods@,
                        stages,
                        meals,
                        final(world).foods@,
                        config,
                    )
                    &&& all_grazed(
                        old(world).animals@,
                        old(brains)@,
                        final(world).animals@,
                        final(brains)@,
                        config,
                        old(world).foods@.len() as int,
                        meals,
                    )
                },
    {
        let others = Simulation::snapshot(&world.animals);
        let count: usize = world.animals.len();
        let ghost mut meals: Seq<int> = Seq::empty();
        let ghost mut stages: Seq<Seq<Food>> = seq![world.foods@];
        let mut i: usize = 0;
        while i < count
            invariant
                config.valid(),
                herd(old(world).animals@, old(brains)@, config),
                others@ == shown(old(world).animals@),
                count == old(world).animals@.len(),
                i <= count,
                world.animals@.len() == count,
                brains@.len() == count,
                world.foods@.len() == old(world).foods@.len(),
                all_in_arena(world.foods@),
                forall|j: int|
                    0 <= j < old(world).foods@.len() && out_of_reach(
                        old(world).animals@,
                        #[trigger] old(world).foods@[j],
                        config,
                    ) ==> world.foods@[j] == old(world).foods@[j],
                meals.len() == i,
                stages.len() == i + 1,
                stages[0] == old(world).foods@,
                stages[i as int] == world.foods@,
                forall|k: int|
                    0 <= k < i ==> #[trigger] turn_taken(
                        old(world).animals@,
                        stages,
                        meals,
                        config,
                        k,
                    ),
                forall|k: int| i <= k < count ==> world.animals@[k] == old(world).animals@[k],
                forall|k: int| i <= k < count ==> brains@[k] == old(brains)@[k],
                forall|k: int|
                    0 <= k < i ==> 0 <= #[trigger] meals[k] <= old(world).foods@.len() && grazed(
                        old(world).animals@[k],
                        old(brains)@[k],
                        world.animals@[k],
                        brains@[k],
                        others@,
                        config,
                        meals[k],
                    ),
            decreases count - i,
        {
            let ghost animal = old(world).animals@[i as int];
            let ghost brain = old(brains)@[i as int];
            let ghost entering = world.animals@;
            let ghost thinking = brains@;
            assert(world.animals@[i as int] == animal);
            assert(brains@[i as int] == brain);
            assert(animal.wf(config) && animal.brain == i);
            let ghost mut eaten: int = 0;
            let ghost lying = world.foods@;
            let mut j: usize = 0;
            while j < world.foods.len()
                invariant
                    config.valid(),
                    animal.wf(config),
                    lying.len() == world.foods@.len(),
                    eaten == reach_count(animal, lying, config, j as int),
                    forall|m: int|
                        0 <= m < j ==> if in_reach(animal, #[trigger] lying[m], config) {
                            world.foods@[m].position.in_arena()
                        } else {
                            world.foods@[m] == lying[m]
                        },
                    forall|m: int| j <= m < lying.len() ==> world.foods@[m] == lying[m],
                    i < count,
                    world.animals@.len() == count,
                    brains@.len() == count,
                    world.foods@.len() == old(world).foods@.len(),
                    all_in_arena(world.foods@),
                    animal == old(world).animals@[i as int],
                    count == old(world).animals@.len(),
                    forall|m: int|
                        0 <= m < old(world).foods@.len() && out_of_reach(
                            old(world).animals@,
                            #[trigger] old(world).foods@[m],
                            config,
                        ) ==> world.foods@[m] == old(world).foods@[m],
                    j <= world.foods@.len(),
                    0 <= eaten <= j,
                    world.animals@[i as int] == fed(animal, eaten),
                    brains@[i as int].nn == brain.nn,
                    brains@[i as int].speed_accel == brain.speed_accel,
                    brains@[i as int].rotation_accel == brain.rotation_accel,
                    brains@[i as int].fitness == (if eaten > 0 {
                        score(capped_sum(animal.satiation, eaten), animal.boosts, config.boost_cost)
                    } else {
                        brain.fitness as int
                    }),
                    entering.len() == count,
                    thinking.len() == count,
                    forall|k: int| 0 <= k < count && k != i ==> world.animals@[k] == entering[k],
                    forall|k: int| 0 <= k < count && k != i ==> brains@[k] == thinking[k],
                decreases world.foods@.len() - j,
            {
                assert(world.foods@[j as int] == lying[j as int]);
                assert(in_reach(world.animals@[i as int], lying[j as int], config) == in_reach(
                    animal,
                    lying[j as int],
                    config,
                ));
                if world.animals[i].reaches(&world.foods[j], config) {
                    proof {
                        if world.foods@[j as int] == old(world).foods@[j as int] {
                            assert(in_reach(
                                old(world).animals@[i as int],
                                old(world).foods@[j as int],
                                config,
                            ));
                        }
                        assert(!out_of_reach(
                            old(world).animals@,
                            old(world).foods@[j as int],
                            config,
                        ));
                    }
                    let satiation: usize = world.animals[i].satiation;
                    let fuller: usize = if satiation < usize::MAX {
                        satiation + 1
                    } else {
                        usize::MAX
                    };
                    world.animals[i].satiation = fuller;
                    brains[i].fitness = Simulation::score_of(
                        fuller,
                        world.animals[i].boosts,
                        config.boost_cost,
                    );
                    world.foods[j].position = Point2::random(rng);
                    proof {
                        eaten = eaten + 1;
                    }
                }
                j = j + 1;
            }
            let ghost left = world.foods@;
            assert(turned(animal, lying, left, config));
            let mut k: usize = 0;
            while k < others.len()
                invariant
                    config.valid(),
                    animal.wf(config),
                    i < count,
                    world.animals@.len() == count,
                    world.foods@ == left,
                    k <= others@.len(),
                    world.animals@[i as int] == after_meetings(
                        fed(animal, eaten),
                        others@,
                        config,
                        k as int,
                    ),
                    world.animals@[i as int].wf(config),
                    world.foods@.len() == old(world).foods@.len(),
                    all_in_arena(world.foods@),
                    forall|m: int|
                        0 <= m < old(world).foods@.len() && out_of_reach(
                            old(world).animals@,
                            #[trigger] old(world).foods@[m],
                            config,
                        ) ==> world.foods@[m] == old(world).foods@[m],
                    entering.len() == count,
                    forall|m: int| 0 <= m < count && m != i ==> world.animals@[m] == entering[m],
                decreases others@.len() - k,
            {
                world.animals[i].meet(&others[k], config);
                k = k + 1;
            }
            proof {
                let earlier = stages;
                let eaten_before = meals;
                meals = meals.push(eaten);
                stages = stages.push(left);
                lemma_meetings_wf(fed(animal, eaten), others@, config, others@.len() as int);
                assert forall|k: int| 0 <= k < i + 1 implies #[trigger] turn_taken(
                    old(world).animals@,
                    stages,
                    meals,
                    config,
                    k,
                ) by {
                    if k < i {
                        assert(turn_taken(old(world).animals@, earlier, eaten_before, config, k));
                        assert(stages[k] == earlier[k] && stages[k + 1] == earlier[k + 1]);
                        assert(meals[k] == eaten_before[k]);
                    } else {
                        assert(stages[k] == lying && stages[k + 1] == left);
                    }
                }
            }
            i = i + 1;
        }
        proof {
            assert(eaten_in_turn(
                old(world).animals@,
                old(world).foods@,
                stages,
                meals,
                world.foods@,
                config,
            ));
            if count > 0 {
                assert(turn_taken(old(world).animals@, stages, meals, config, 0));
                assert(0 <= meals[0]);
            }
            if nothing_in_reach(old(world).animals@, old(world).foods@, config) {
                lemma_nothing_eaten(
                    old(world).animals@,
                    old(world).foods@,
                    stages,
                    meals,
                    world.foods@,
                    config,
                );
                assert(meals =~= Seq::new(old(world).animals@.len(), |i: int| 0int));
            }
            assert(all_grazed(
                old(world).animals@,
                old(brains)@,
                world.animals@,
                brains@,
                config,
                old(world).foods@.len() as int,
                meals,
            ));
            assert forall|k: int| 0 <= k < world.animals@.len() implies (
            #[trigger] world.animals@[k]).brain == k && world.animals@[k].wf(config) by {
                assert(0 <= meals[k]);
                lemma_meetings_wf(
                    fed(old(world).animals@[k], meals[k]),
                    others@,
                    config,
                    others@.len() as int,
                );
            }
        }
    }

    /// Looking and deciding. Every animal that is not stunned sees the food
    /// and the animals as they showed themselves before any has decided,
    /// and takes up what its brain asks for.
    pub fn process_brains(world: &mut World, brains: &Vec<Brain>, config: &Config, age: usize)
        requires
            config.valid(),
            herd(old(world).animals@, brains@, config),
            all_wf(brains@, config),
        ensures
            herd(final(world).animals@, brains@, config),
            final(world).foods == old(world).foods,
            forall|i: int|
                0 <= i < brains@.len() ==> decided(
                    old(world).animals@[i],
                    #[trigger] final(world).animals@[i],
                    config,
                    old(world).foods@,
                    shown(old(world).animals@),
                    brains@[i],
                ),
    {
        let others = Simulation::snapshot(&world.animals);
        let count: usize = world.animals.len();
        let mut i: usize = 0;
        while i < count
            invariant
                config.valid(),
                herd(old(world).animals@, brains@, config),
                all_wf(brains@, config),
                others@ == shown(old(world).animals@),
                count == brains@.len(),
                i <= count,
                world.animals@.len() == count,
                world.foods == old(world).foods,
                forall|k: int| i <= k < count ==> world.animals@[k] == old(world).animals@[k],
                forall|k: int|
                    0 <= k < i ==> (#[trigger] world.animals@[k]).wf(config)
                        && world.animals@[k].brain == k && decided(
                        old(world).animals@[k],
                        world.animals@[k],
                        config,
                        old(world).foods@,
                        others@,
                        brains@[k],
                    ),
            decreases count - i,
        {
            let ghost animal = old(world).animals@[i as int];
            assert(world.animals@[i as int] == animal);
            assert(animal.wf(config) && animal.brain == i);
            proof {
                assert(brains@[i as int].wf(config));
                brains@[i as int].lemma_shaped_ready(config);
            }
            world.animals[i].process_brain(config, &world.foods, &others, age, brains);
            i = i + 1;
        }
    }

    /// Moving. Every animal moves, or waits for its stun to end.
    pub fn process_movements(world: &mut World, config: &Config)
        requires
            forall|i: int|
                0 <= i < old(world).animals@.len() ==> (#[trigger] old(world).animals@[i]).wf(
                    config,
                ),
        ensures
            final(world).foods == old(world).foods,
            final(world).animals@.len() == old(world).animals@.len(),
            forall|i: int|
                0 <= i < old(world).animals@.len() ==> {
                    &&& #[trigger] final(world).animals@[i] == after_movement(
                        old(world).animals@[i],
                        config,
                    )
                    &&& final(world).animals@[i].wf(config)
                },
    {
        let count: usize = world.animals.len();
        let mut i: usize = 0;
        while i < count
            invariant
                count == old(world).animals@.len(),
                i <= count,
                world.animals@.len() == count,
                world.foods == old(world).foods,
                forall|k: int|
                    0 <= k < count ==> (#[trigger] old(world).animals@[k]).wf(config),
                forall|k: int| i <= k < count ==> world.animals@[k] == old(world).animals@[k],
                forall|k: int|
                    0 <= k < i ==> #[trigger] world.animals@[k] == after_movement(
                        old(world).animals@[k],
                        config,
                    ) && world.animals@[k].wf(config),
            decreases count - i,
        {
            assert(world.animals@[i as int] == old(world).animals@[i as int]);
            assert(old(world).animals@[i as int].wf(config));
            world.animals[i].process_movement(config);
            i = i + 1;
        }
    }

    /// The greatest satiation among the animals.
    pub fn greatest_satiation_of(animals: &Vec<Animal>) -> (greatest: usize)
        ensures
            greatest == greatest_satiation(animals@, animals@.len() as int),
    {
        let mut greatest: usize = 0;
        let mut i: usize = 0;
        while i < animals.len()
            invariant
                i <= animals@.len(),
                greatest == greatest_satiation(animals@, i as int),
            decreases animals@.len() - i,
        {
            if animals[i].satiation > greatest {
                greatest = animals[i].satiation;
            }
            i = i + 1;
        }
        greatest
    }

    /// Turns every fitness into its distance below the greatest satiation,
    /// so that the individuals of the least fitness are bred from.
    pub fn reverse_fitness(brains: &mut Vec<Brain>, greatest: usize)
        ensures
            final(brains)@.len() == old(brains)@.len(),
            forall|i: int|
                0 <= i < old(brains)@.len() ==> {
                    &&& (#[trigger] final(brains)@[i]).fitness == reversed(
                        old(brains)@[i].fitness,
                        greatest as int,
                    )
                    &&& final(brains)@[i].nn == old(brains)@[i].nn
                    &&& final(brains)@[i].speed_accel == old(brains)@[i].speed_accel
                    &&& final(brains)@[i].rotation_accel == old(brains)@[i].rotation_accel
                },
    {
        assert(0 <= greatest * 1_000_000 <= 0x1_0000_0000_0000_0000 * 1_000_000)
            by (nonlinear_arith)
            requires
                0 <= greatest <= 0x1_0000_0000_0000_0000,
        ;
        let top: i128 = greatest as i128 * SCALE as i128;
        let count: usize = brains.len();
        let mut i: usize = 0;
        while i < count
            invariant
                count == old(brains)@.len(),
                brains@.len() == count,
                i <= count,
                top == greatest * SCALE,
                0 <= top <= 0x1_0000_0000_0000_0000 * 1_000_000,
                forall|k: int| i <= k < count ==> brains@[k] == old(brains)@[k],
                forall|k: int|
                    0 <= k < i ==> {
                        &&& (#[trigger] brains@[k]).fitness == reversed(
                            old(brains)@[k].fitness,
                            greatest as int,
                        )
                        &&& brains@[k].nn == old(brains)@[k].nn
                        &&& brains@[k].speed_accel == old(brains)@[k].speed_accel
                        &&& brains@[k].rotation_accel == old(brains)@[k].rotation_accel
                    },
            decreases count - i,
        {
            let fitness: i64 = brains[i].fitness;
            brains[i].fitness = saturate_i64(top - fitness as i128);
            i = i + 1;
        }
    }

    /// A simulation with random networks, animals and food, from a source of
    /// randomness that the operating system seeds. It fails where the
    /// system gives no seed.
    pub fn random(config: &Config) -> (made: Result<Self, NoEntropy>)
        requires
            config.valid(),
        ensures
            made matches Ok(simulation) ==> {
                &&& simulation.wf()
                &&& simulation.config == *config
                &&& simulation.age == 0
                &&& simulation.generation == 0
                &&& forall|i: int|
                    0 <= i < simulation.world.animals@.len() ==> (
                    #[trigger] simulation.world.animals@[i]).fresh(config, i as usize)
            },
    {
        match entropy_source() {
            Some(mut rng) => Ok(Self::random_with(config, &mut rng)),
            None => Err(NoEntropy),
        }
    }

    /// A simulation with random networks, animals and food, from the given
    /// source of randomness.
    pub fn random_with(config: &Config, rng: &mut StdRng) -> (simulation: Self)
        requires
            config.valid(),
        ensures
            simulation.wf(),
            simulation.config == *config,
            simulation.age == 0,
            simulation.generation == 0,
            forall|i: int|
                0 <= i < simulation.world.animals@.len() ==> (
                #[trigger] simulation.world.animals@[i]).fresh(config, i as usize),
    {
        let mut world = World::random(config, rng);
        let population: Box<RouletteWheelPopulation<Brain, Config>> = Box::new(
            RouletteWheelPopulation::random(config.world_animals, config, rng),
        );
        Simulation::populate(&mut world, population.population.len(), config, rng);
        Self { config: *config, world, population, age: 0, generation: 0 }
    }

    /// Replaces the animals by `count` fresh ones, animal `i` for network
    /// `i`.
    pub fn populate(world: &mut World, count: usize, config: &Config, rng: &mut StdRng)
        requires
            config.valid(),
        ensures
            final(world).foods == old(world).foods,
            final(world).animals@.len() == count,
            forall|i: int|
                0 <= i < count ==> (#[trigger] final(world).animals@[i]).fresh(config, i as usize),
    {
        world.animals.clear();
        let mut i: usize = 0;
        while i < count
            invariant
                config.valid(),
                i <= count,
                world.foods == old(world).foods,
                world.animals@.len() == i,
                forall|k: int|
                    0 <= k < i ==> (#[trigger] world.animals@[k]).fresh(config, k as usize),
            decreases count - i,
        {
            world.animals.push(Animal::from_brain(config, i, rng));
            i = i + 1;
        }
    }

    pub fn config(&self) -> (config: &Config)
        ensures
            *config == self.config,
    {
        &self.config
    }

    pub fn world(&self) -> (world: &World)
        ensures
            *world == self.world,
    {
        &self.world
    }

    /// One tick: the animals eat and meet, look and decide, and move; the
    /// generation ages, and where it has outlived its length, the next one
    /// is bred and the finished one's statistics are given.
    pub fn step(&mut self, rng: &mut StdRng) -> (done: Option<Statistics>)
        requires
            old(self).wf(),
        ensures
            final(self).wf(),
            final(self).config == old(self).config,
            done is Some <==> old(self).age == old(self).config.sim_generation_length,
            done matches Some(stats) ==> {
                &&& final(self).age == 0
                &&& stats.generation == old(self).generation
                &&& stats.ga.max_similarity == 0
                &&& final(self).generation == next_generation(old(self).generation)
                &&& forall|i: int|
                    0 <= i < final(self).world.animals@.len() ==> (
                    #[trigger] final(self).world.animals@[i]).fresh(&final(self).config, i as usize)
                &&& ended(
                    old(self).world.animals@,
                    old(self).population.population@,
                    old(self).world.foods@,
                    final(self).population.population@,
                    &old(self).config,
                    stats.ga,
                )
            },
            done is None ==> {
                &&& final(self).age == old(self).age + 1
                &&& final(self).generation == old(self).generation
                &&& acted(
                    old(self).world.animals@,
                    old(self).population.population@,
                    old(self).world.foods@,
                    final(self).world.animals@,
                    final(self).population.population@,
                    final(self).world.foods@,
                    &final(self).config,
                )
                &&& untouched_stays(
                    old(self).world.animals@,
                    old(self).world.foods@,
                    final(self).world.foods@,
                    &final(self).config,
                )
            },
    {
        self.act(rng);
        self.try_evolving(rng)
    }

    /// The animals eat and meet, look and decide, and move.
    pub fn act(&mut self, rng: &mut StdRng)
        requires
            old(self).wf(),
        ensures
            final(self).wf(),
            final(self).config == old(self).config,
            final(self).age == old(self).age,
            final(self).generation == old(self).generation,
            acted(
                old(self).world.animals@,
                old(self).population.population@,
                old(self).world.foods@,
                final(self).world.animals@,
                final(self).population.population@,
                final(self).world.foods@,
                &final(self).config,
            ),
            untouched_stays(
                old(self).world.animals@,
                old(self).world.foods@,
                final(self).world.foods@,
                &final(self).config,
            ),
    {
        let ghost brains = self.population.population@;
        let ghost mut eaten: Seq<int> = Seq::empty();
        let ghost mut lying: Seq<Seq<Food>> = Seq::empty();
        Simulation::process_collisions(
            &mut self.world,
            &mut self.population.population,
            &self.config,
            rng,
        );
        proof {
            let (meals, stages) = choose|meals: Seq<int>, stages: Seq<Seq<Food>>|
                {
                    &&& #[trigger] eaten_in_turn(
                        old(self).world.animals@,
                        old(self).world.foods@,
                        stages,
                        meals,
                        self.world.foods@,
                        &self.config,
                    )
                    &&& all_grazed(
                        old(self).world.animals@,
                        brains,
                        self.world.animals@,
                        self.population.population@,
                        &self.config,
                        old(self).world.foods@.len() as int,
                        meals,
                    )
                };
            assert forall|i: int| 0 <= i < brains.len() implies (
            #[trigger] self.population.population@[i]).wf(&self.config) by {
                assert(0 <= meals[i]);
                assert(brains[i].wf(&self.config));
            }
            eaten = meals;
            lying = stages;
        }
        let ghost grazed = self.world.animals@;
        Simulation::process_brains(
            &mut self.world,
            &self.population.population,
            &self.config,
            self.age,
        );
        let ghost looked = self.world.animals@;
        Simulation::process_movements(&mut self.world, &self.config);
        proof {
            assert forall|i: int| 0 <= i < self.world.animals@.len() implies (
            #[trigger] self.world.animals@[i]).brain == i && self.world.animals@[i].wf(
                &self.config,
            ) by {}
            assert(ticked(
                old(self).world.animals@,
                brains,
                old(self).world.foods@,
                lying,
                eaten,
                grazed,
                looked,
                self.world.animals@,
                self.population.population@,
                self.world.foods@,
                &self.config,
            ));
        }
    }

    /// Steps until a generation is finished, and gives its statistics: the
    /// ticks that are left of the generation run, the last of them ends it,
    /// and every brain of the next generation has a fresh animal.
    pub fn train(&mut self, rng: &mut StdRng) -> (stats: Statistics)
        requires
            old(self).wf(),
        ensures
            final(self).wf(),
            final(self).config == old(self).config,
            final(self).age == 0,
            final(self).generation == next_generation(old(self).generation),
            final(self).population.population@.len() == old(self).population.population@.len(),
            forall|i: int|
                0 <= i < final(self).world.animals@.len() ==> (
                #[trigger] final(self).world.animals@[i]).fresh(&final(self).config, i as usize),
            stats.generation == old(self).generation,
            stats.ga.max_similarity == 0,
            trained(
                old(self).world.animals@,
                old(self).population.population@,
                old(self).world.foods@,
                (old(self).config.sim_generation_length - old(self).age) as nat,
                final(self).population.population@,
                &old(self).config,
                stats.ga,
            ),
    {
        proof {
            lemma_ran_nothing(
                self.world.animals@,
                self.population.population@,
                self.world.foods@,
                &self.config,
            );
        }
        loop
            invariant
                self.wf(),
                self.config == old(self).config,
                self.generation == old(self).generation,
                old(self).age <= self.age <= self.config.sim_generation_length,
                old(self).population.population@.len() == old(self).config.world_animals,
                ran(
                    old(self).world.animals@,
                    old(self).population.population@,
                    old(self).world.foods@,
                    (self.age - old(self).age) as nat,
                    self.world.animals@,
                    self.population.population@,
                    self.world.foods@,
                    &self.config,
                ),
            decreases self.config.sim_generation_length - self.age,
        {
            let ghost last = self.world.animals@;
            let ghost last_brains = self.population.population@;
            let ghost last_foods = self.world.foods@;
            let ghost n = (self.age - old(self).age) as nat;
            match self.step(rng) {
                Some(statistics) => {
                    return statistics;
                },
                None => {
                    proof {
                        lemma_ran_on(
                            old(self).world.animals@,
                            old(self).population.population@,
                            old(self).world.foods@,
                            n,
                            last,
                            last_brains,
                            last_foods,
                            self.world.animals@,
                            self.population.population@,
                            self.world.foods@,
                            &self.config,
                        );
                    }
                },
            }
        }
    }

    /// Counts the tick; where the generation has outlived its length, breeds
    /// the next.
    pub fn try_evolving(&mut self, rng: &mut StdRng) -> (done: Option<Statistics>)
        requires
            old(self).wf(),
        ensures
            final(self).wf(),
            final(self).config == old(self).config,
            done is Some <==> old(self).age == old(self).config.sim_generation_length,
            done matches Some(stats) ==> {
                &&& final(self).age == 0
                &&& stats.generation == old(self).generation
                &&& stats.ga.max_similarity == 0
                &&& final(self).generation == (if old(self).generation < usize::MAX {
                    old(self).generation + 1
                } else {
                    usize::MAX as int
                })
                &&& forall|i: int|
                    0 <= i < final(self).world.animals@.len() ==> (
                    #[trigger] final(self).world.animals@[i]).fresh(&final(self).config, i as usize)
                &&& succeeds(
                    old(self).population.population@,
                    old(self).world.animals@,
                    &old(self).config,
                    stats.ga,
                    final(self).population.population@,
                )
            },
            done is None ==> {
                &&& final(self).age == old(self).age + 1
                &&& final(self).generation == old(self).generation
                &&& final(self).world == old(self).world
                &&& final(self).population == old(self).population
            },
    {
        if self.age + 1 > self.config.sim_generation_length {
            Some(self.evolve(rng))
        } else {
            self.age = self.age + 1;
            None
        }
    }

    /// Ends the generation: where low fitness is bred for, turns the
    /// fitness round; breeds a population of the same size from the present
    /// one, gives every network a fresh animal, and moves the food to
    /// random places.
    pub fn evolve(&mut self, rng: &mut StdRng) -> (stats: Statistics)
        requires
            old(self).wf(),
        ensures
            final(self).wf(),
            final(self).config == old(self).config,
            final(self).age == 0,
            final(self).generation == (if old(self).generation < usize::MAX {
                old(self).generation + 1
            } else {
                usize::MAX as int
            }),
            final(self).population.population@.len() == old(self).population.population@.len(),
            forall|i: int|
                0 <= i < final(self).world.animals@.len() ==> (
                #[trigger] final(self).world.animals@[i]).fresh(&final(self).config, i as usize),
            stats.generation == old(self).generation,
            stats.ga.max_similarity == 0,
            succeeds(
                old(self).population.population@,
                old(self).world.animals@,
                &old(self).config,
                stats.ga,
                final(self).population.population@,
            ),
    {
        let finished: usize = self.generation;
        self.age = 0;
        if self.generation < usize::MAX {
            self.generation = self.generation + 1;
        }
        if self.config.ga_reverse == 1 {
            let greatest = Simulation::greatest_satiation_of(&self.world.animals);
            let ghost before = self.population.population@;
            Simulation::reverse_fitness(&mut self.population.population, greatest);
            proof {
                assert forall|i: int| 0 <= i < before.len() implies (
                #[trigger] self.population.population@[i]).wf(&self.config) by {
                    assert(before[i].wf(&self.config));
                }
            }
        }
        let ghost bred = self.population.population@;
        assert(parents(
            old(self).population.population@,
            old(self).world.animals@,
            &self.config,
            bred,
        ));
        let (individuals, statistics) = self.population.evolve(&self.config, rng);
        self.population = individuals;
        Simulation::populate(&mut self.world, self.population.population.len(), &self.config, rng);
        let mut j: usize = 0;
        while j < self.world.foods.len()
            invariant
                j <= self.world.foods@.len(),
                self.world.foods@.len() == old(self).world.foods@.len(),
                self.world.animals@.len() == self.population.population@.len(),
                self.population.population@.len() == old(self).population.population@.len(),
                self.config == old(self).config,
                self.config.valid(),
                self.age == 0,
                self.generation == (if old(self).generation < usize::MAX {
                    old(self).generation + 1
                } else {
                    usize::MAX as int
                }),
                all_wf(self.population.population@, &self.config),
                summarises::<Brain, Config>(statistics, bred),
                statistics.max_similarity == 0,
                parents(
                    old(self).population.population@,
                    old(self).world.animals@,
                    &self.config,
                    bred,
                ),
                forall|k: int|
                    0 <= k < self.population.population@.len() ==> bred_from(
                        #[trigger] self.population.population@[k],
                        bred,
                        &self.config,
                    ),
                forall|i: int|
                    0 <= i < self.world.animals@.len() ==> (#[trigger] self.world.animals@[i]).fresh(
                        &self.config,
                        i as usize,
                    ),
                forall|k: int|
                    0 <= k < self.world.foods@.len() ==> (
                    #[trigger] self.world.foods@[k]).position.in_arena(),
            decreases self.world.foods@.len() - j,
        {
            self.world.foods[j].position = Point2::random(rng);
            j = j + 1;
        }
        proof {
            assert(succeeds(
                old(self).population.population@,
                old(self).world.animals@,
                &self.config,
                statistics,
                self.population.population@,
            ));
        }
        Statistics { generation: finished, ga: statistics }
    }

    /// The fitness of an animal of the given satiation and number of boosts.
    pub fn score_of(satiation: usize, boosts: usize, boost_cost: i32) -> (fitness: i64)
        ensures
            fitness == score(satiation, boosts, boost_cost),
    {
        assert(0 <= satiation * 1_000_000 <= 0x1_0000_0000_0000_0000 * 1_000_000)
            by (nonlinear_arith)
            requires
                0 <= satiation <= 0x1_0000_0000_0000_0000,
        ;
        assert(-0x1_0000_0000_0000_0000 * 0x8000_0000 <= boosts * boost_cost
            <= 0x1_0000_0000_0000_0000 * 0x8000_0000) by (nonlinear_arith)
            requires
                0 <= boosts <= 0x1_0000_0000_0000_0000,
                -0x8000_0000 <= boost_cost <= 0x8000_0000,
        ;
        saturate_i64(satiation as i128 * SCALE as i128 - boosts as i128 * boost_cost as i128)
    }
}

} // verus!
