use rand::rngs::StdRng;
use vstd::prelude::*;

use crate::fixed::clamp_i64;
use crate::genetic_algorithm::individual::Individual;
use crate::genetic_algorithm::population::{all_wf, bred_from, Population};
use crate::genetic_algorithm::roulette_wheel::RouletteWheelPopulation;
use crate::genetic_algorithm::statistics::summarises;
use crate::gridworld::consts::{
    CREATURE_MEMORY_SIZE, EYE_RANGE, GRID_WIDTH, IDLE_PENALTY, IDLE_TICKS_ALLOWED, MOVE_COST,
    NUM_DIRECTIONS,
};
use crate::gridworld::creature::{sightings, Creature};
use crate::gridworld::direction::Direction;
use crate::gridworld::grid_pt::{wrapped, GridPoint};
use crate::gridworld::tile::Tiles;
use crate::gridworld::world::{on_border, places_in_range, GridError, World};
use crate::gridworld_sim::brain::{chosen, Brain};
use crate::gridworld_sim::config::Config;
use crate::gridworld_sim::resolution::{
    change_for, claimants, eaten, feeds, fitness_change, holds_occupied, keeps_target,
    lemma_sole_claimant, occupied_points, outcome_of, settle, Outcome,
};
use crate::stats::Statistics;
use crate::rng::entropy_source;

verus! {

/// The world, the networks of its creatures, and the count of ticks and
/// generations. Creature `i` of the world is steered by network `i` of the
/// population.
pub struct Simulation {
    pub config: Config,
    pub world: World<usize>,
    pub population: Box<RouletteWheelPopulation<Brain, Config>>,
    pub age: usize,
    pub generation: usize,
}

/// Creature `i` carries the number `i`, and there are as many creatures as
/// brains.
pub open spec fn bound(world: &World<usize>, brains: Seq<Brain>) -> bool {
    &&& world.creatures@.len() == brains.len()
    &&& forall|i: int| 0 <= i < brains.len() ==> (#[trigger] world.creatures@[i]).brain == i
}

/// Every creature stands on a tile of the grid, and no two on the same.
pub open spec fn placed(world: &World<usize>) -> bool {
    &&& forall|i: int|
        0 <= i < world.creatures@.len() ==> (#[trigger] world.creatures@[i]).pos.in_grid()
    &&& forall|i: int, j: int|
        0 <= i < world.creatures@.len() && 0 <= j < world.creatures@.len() && i != j ==> (
        #[trigger] world.creatures@[i]).pos != (#[trigger] world.creatures@[j]).pos
}

/// No creature has a target.
pub open spec fn at_rest(world: &World<usize>) -> bool {
    forall|i: int|
        0 <= i < world.creatures@.len() ==> (#[trigger] world.creatures@[i]).target_pos is None
}

/// Every target lies in the grid.
pub open spec fn aimed(world: &World<usize>) -> bool {
    forall|i: int|
        0 <= i < world.creatures@.len() ==> (#[trigger] world.creatures@[i]).claim().in_grid()
}

/// Every target that is left can be stepped to: it lies in the grid, no
/// creature stands on it, and no other creature has it as its target.
pub open spec fn resolved(world: &World<usize>) -> bool {
    forall|i: int|
        0 <= i < world.creatures@.len() && (#[trigger] world.creatures@[i]).target_pos is Some ==> {
            &&& world.creatures@[i].claim().in_grid()
            &&& !world.occupied(world.creatures@[i].claim())
            &&& forall|j: int|
                0 <= j < world.creatures@.len() && j != i ==> (#[trigger] world.creatures@[j]).claim()
                    != world.creatures@[i].claim()
        }
}

/// The neighbour of a point in a direction, on the torus.
pub open spec fn neighbour(pos: GridPoint, direction: Direction) -> GridPoint {
    GridPoint {
        x: wrapped(pos.x + direction.dx()) as u16,
        y: wrapped(pos.y + direction.dy()) as u16,
    }
}

/// The target that creature `i` takes from its network's outputs for what it
/// sees in the world.
pub open spec fn proposal(world: &World<usize>, brains: Seq<Brain>, i: int) -> Option<GridPoint> {
    match chosen(brains[i].nn.outputs(world.creatures@[i].brain_inputs(world))) {
        Some(direction) => Some(neighbour(world.creatures@[i].pos, direction)),
        None => None,
    }
}

/// The brain after a tick in which its creature moved, or did not.
pub open spec fn after_tick(before: Brain, after: Brain, moved: bool) -> bool {
    &&& after.nn == before.nn
    &&& if moved {
        &&& after.fitness == clamp_i64(before.fitness - MOVE_COST)
        &&& after.time_since_move == 0
    } else {
        &&& after.time_since_move == (if before.time_since_move < u16::MAX {
            before.time_since_move + 1
        } else {
            u16::MAX as int
        })
        &&& after.fitness == (if after.time_since_move > IDLE_TICKS_ALLOWED {
            clamp_i64(before.fitness - IDLE_PENALTY)
        } else {
            before.fitness as int
        })
    }
}

/// How many of the first `n` creatures have a target.
pub open spec fn movers(creatures: Seq<Creature<usize>>, n: int) -> int
    decreases n,
{
    if n <= 0 {
        0
    } else if creatures[n - 1].target_pos is Some {
        movers(creatures, n - 1) + 1
    } else {
        movers(creatures, n - 1)
    }
}

/// `after` is `before` once every creature has looked around and decided:
/// its target is its proposal and its memory what its network gave; tiles,
/// places and all else are as before.
pub open spec fn thought(before: &World<usize>, brains: Seq<Brain>, after: &World<usize>) -> bool {
    &&& after.map == before.map
    &&& after.creatures@.len() == before.creatures@.len()
    &&& forall|i: int|
        0 <= i < brains.len() ==> {
            &&& (#[trigger] after.creatures@[i]).target_pos == proposal(before, brains, i)
            &&& after.creatures@[i].pos == before.creatures@[i].pos
            &&& after.creatures@[i].brain == before.creatures@[i].brain
            &&& after.creatures@[i].energy == before.creatures@[i].energy
            &&& forall|k: int|
                0 <= k < CREATURE_MEMORY_SIZE ==> after.creatures@[i].memory@[k]
                    == brains[i].nn.outputs(before.creatures@[i].brain_inputs(before))[1
                    + NUM_DIRECTIONS + k]
        }
}

/// `after` and `brains_after` are `before` and `brains` once every claim is
/// settled: each fitness has changed by what the outcome brings, each
/// creature has kept or lost its target, and `consumed` are the tiles whose
/// food was eaten.
pub open spec fn settled(
    before: &World<usize>,
    brains: Seq<Brain>,
    after: &World<usize>,
    brains_after: Seq<Brain>,
    consumed: Seq<GridPoint>,
) -> bool {
    &&& after.map == before.map
    &&& after.creatures@.len() == before.creatures@.len()
    &&& brains_after.len() == brains.len()
    &&& forall|i: int|
        0 <= i < brains.len() ==> {
            &&& (#[trigger] after.creatures@[i]).target_pos == (if keeps_target(
                outcome_of(before, i),
            ) {
                before.creatures@[i].target_pos
            } else {
                None
            })
            &&& after.creatures@[i].pos == before.creatures@[i].pos
            &&& after.creatures@[i].brain == before.creatures@[i].brain
            &&& after.creatures@[i].energy == before.creatures@[i].energy
            &&& after.creatures@[i].memory == before.creatures@[i].memory
        }
    &&& forall|i: int|
        0 <= i < brains.len() ==> {
            &&& (#[trigger] brains_after[i]).fitness == clamp_i64(
                brains[i].fitness + fitness_change(outcome_of(before, i)),
            )
            &&& brains_after[i].time_since_move == brains[i].time_since_move
            &&& brains_after[i].nn == brains[i].nn
        }
    &&& consumed == eaten(before, brains.len() as int)
}

/// `after` and `brains_after` are `before` and `brains` once the steps are
/// made: every creature stands on the tile it claimed and has no target,
/// and its brain has paid for the move or counted a tick of standing still.
pub open spec fn stepped(
    before: &World<usize>,
    brains: Seq<Brain>,
    after: &World<usize>,
    brains_after: Seq<Brain>,
) -> bool {
    &&& after.map == before.map
    &&& after.creatures@.len() == before.creatures@.len()
    &&& brains_after.len() == brains.len()
    &&& forall|i: int|
        0 <= i < brains.len() ==> {
            &&& (#[trigger] after.creatures@[i]).pos == before.creatures@[i].claim()
            &&& after.creatures@[i].target_pos is None
            &&& after.creatures@[i].brain == before.creatures@[i].brain
            &&& after.creatures@[i].energy == before.creatures@[i].energy
            &&& after.creatures@[i].memory == before.creatures@[i].memory
        }
    &&& forall|i: int|
        0 <= i < brains.len() ==> after_tick(
            brains[i],
            #[trigger] brains_after[i],
            before.creatures@[i].target_pos is Some,
        )
}

/// One tick's deciding, settling and stepping, through the worlds and
/// brains in between.
pub open spec fn ticked(
    before: &World<usize>,
    brains: Seq<Brain>,
    proposed: &World<usize>,
    cleared: &World<usize>,
    bumped: Seq<Brain>,
    after: &World<usize>,
    brains_after: Seq<Brain>,
    consumed: Seq<GridPoint>,
) -> bool {
    &&& thought(before, brains, proposed)
    &&& settled(proposed, brains, cleared, bumped, consumed)
    &&& stepped(cleared, bumped, after, brains_after)
}

/// The tile at a point once the tiles whose food was eaten have become
/// hazards.
pub open spec fn marked(world: &World<usize>, consumed: Seq<GridPoint>, pt: GridPoint) -> Tiles {
    if consumed.contains(pt) {
        Tiles::EnergyLoss
    } else {
        world.tile_at(pt)
    }
}

/// `after` has the tiles of `before` once the eaten food is made up for:
/// every tile of `consumed` has become a hazard, and food may lie where
/// after that there was floor with no creature on it.
pub open spec fn restocked(
    before: &World<usize>,
    after: &World<usize>,
    consumed: Seq<GridPoint>,
) -> bool {
    forall|pt: GridPoint|
        pt.in_grid() ==> #[trigger] after.tile_at(pt) == marked(before, consumed, pt) || (
        after.tile_at(pt) == Tiles::EnergyGain && marked(before, consumed, pt) == Tiles::Floor
            && !after.occupied(pt))
}

/// The world is as one just made for the parameters: it holds the food and
/// the hazards asked for, and every creature stands on floor.
pub open spec fn fresh(world: &World<usize>, config: &Config) -> bool {
    &&& world.tile_count(Tiles::EnergyGain) == config.world_foods
    &&& world.tile_count(Tiles::EnergyLoss) == config.world_lava
    &&& forall|i: int|
        0 <= i < world.creatures@.len() ==> world.tile_at((#[trigger] world.creatures@[i]).pos)
            == Tiles::Floor
}

/// Nothing of the world has to be placed by chance: the parameters ask for
/// no food and no hazard, and there is no brain to place a creature for.
pub open spec fn nothing_to_place(config: &Config, brains: int) -> bool {
    config.world_foods == 0 && config.world_lava == 0 && brains == 0
}

/// The number the generations have after one more, which stops at the
/// largest value.
pub open spec fn next_generation(generation: usize) -> int {
    if generation < usize::MAX {
        generation + 1
    } else {
        usize::MAX as int
    }
}

/// No more food is eaten than there are creatures.
pub proof fn lemma_eaten_bounds(world: &World<usize>, n: int)
    requires
        0 <= n,
    ensures
        eaten(world, n).len() <= n,
    decreases n,
{
    if n > 0 {
        lemma_eaten_bounds(world, n - 1);
    }
}

/// The creatures and brains are those that one tick's deciding, settling
/// and stepping makes of the world and the brains before it, and `consumed`
/// are the tiles whose food was eaten.
pub open spec fn acted(
    before: &World<usize>,
    brains: Seq<Brain>,
    creatures: Seq<Creature<usize>>,
    brains_after: Seq<Brain>,
    consumed: Seq<GridPoint>,
) -> bool {
    exists|proposed: World<usize>, cleared: World<usize>, bumped: Seq<Brain>, after: World<usize>|
        #[trigger] ticked(
            before,
            brains,
            &proposed,
            &cleared,
            bumped,
            &after,
            brains_after,
            consumed,
        ) && after.creatures@ == creatures
}

/// `after` and `brains_after` are what a tick within a generation makes of
/// `before` and `brains`: the creatures decide, their claims are settled
/// and the steps are made; the food eaten, each piece a food tile of its
/// own, turns into hazards and new food is spread. The tick succeeds (`ok`)
/// where no food was eaten, and where it succeeds the world holds as many
/// food tiles as before.
pub open spec fn aged(
    before: &World<usize>,
    brains: Seq<Brain>,
    after: &World<usize>,
    brains_after: Seq<Brain>,
    ok: bool,
) -> bool {
    exists|consumed: Seq<GridPoint>|
        {
            &&& #[trigger] acted(before, brains, after.creatures@, brains_after, consumed)
            &&& restocked(before, after, consumed)
            &&& food_eaten(before, consumed)
            &&& consumed.len() <= before.creatures@.len()
            &&& consumed.len() == 0 ==> ok
            &&& ok ==> same_food(before, after)
        }
}

/// `after` and `next` are what the tick that ends a generation makes of
/// `before` and `brains`: the creatures decide, their claims are settled
/// and the steps are made; then every brain of `next` is bred from the
/// brains as they are after that. Where the tick succeeds, `stats` holds
/// the summary of those brains and the world is fresh; where it fails,
/// `stats` is nothing and the world is the old one after the steps.
pub open spec fn ended(
    before: &World<usize>,
    brains: Seq<Brain>,
    after: &World<usize>,
    next: Seq<Brain>,
    config: &Config,
    stats: Option<Statistics>,
) -> bool {
    exists|creatures: Seq<Creature<usize>>, earned: Seq<Brain>, consumed: Seq<GridPoint>|
        {
            &&& #[trigger] acted(before, brains, creatures, earned, consumed)
            &&& next.len() == brains.len()
            &&& forall|k: int| 0 <= k < next.len() ==> bred_from(#[trigger] next[k], earned, config)
            &&& match stats {
                Some(stats) => summarises::<Brain, Config>(stats.ga, earned) && fresh(
                    after,
                    config,
                ),
                None => after.creatures@ == creatures && after.map == before.map,
            }
        }
}

/// Tick `i` of a course of worlds and brains is a successful tick within a
/// generation: it leads from the world and brains `i` to the next ones.
pub open spec fn linked(worlds: Seq<World<usize>>, stages: Seq<Seq<Brain>>, i: int) -> bool {
    aged(&worlds[i], stages[i], &worlds[i + 1], stages[i + 1], true)
}

/// The worlds and brains are those before, between and after `n` successful
/// ticks within a generation.
pub open spec fn course(worlds: Seq<World<usize>>, stages: Seq<Seq<Brain>>, n: nat) -> bool {
    &&& worlds.len() == n + 1
    &&& stages.len() == n + 1
    &&& forall|i: int| 0 <= i < n ==> #[trigger] linked(worlds, stages, i)
}

/// `after` and `brains_after` are what `n` successful ticks within a
/// generation make of `before` and `brains`.
pub open spec fn ran(
    before: World<usize>,
    brains: Seq<Brain>,
    n: nat,
    after: World<usize>,
    brains_after: Seq<Brain>,
) -> bool {
    exists|worlds: Seq<World<usize>>, stages: Seq<Seq<Brain>>|
        {
            &&& #[trigger] course(worlds, stages, n)
            &&& worlds[0] == before
            &&& stages[0] == brains
            &&& worlds[n as int] == after
            &&& stages[n as int] == brains_after
        }
}

/// No tick leaves everything as it is.
pub proof fn lemma_ran_nothing(before: World<usize>, brains: Seq<Brain>)
    ensures
        ran(before, brains, 0, before, brains),
{
    let worlds = seq![before];
    let stages = seq![brains];
    assert(course(worlds, stages, 0));
}

/// One more successful tick within the generation lengthens the run by one.
pub proof fn lemma_ran_on(
    before: World<usize>,
    brains: Seq<Brain>,
    n: nat,
    last: World<usize>,
    last_brains: Seq<Brain>,
    after: World<usize>,
    brains_after: Seq<Brain>,
)
    requires
        ran(before, brains, n, last, last_brains),
        aged(&last, last_brains, &after, brains_after, true),
    ensures
        ran(before, brains, n + 1, after, brains_after),
{
    let (worlds, stages) = choose|worlds: Seq<World<usize>>, stages: Seq<Seq<Brain>>|
        {
            &&& #[trigger] course(worlds, stages, n)
            &&& worlds[0] == before
            &&& stages[0] == brains
            &&& worlds[n as int] == last
            &&& stages[n as int] == last_brains
        };
    let longer = worlds.push(after);
    let further = stages.push(brains_after);
    assert forall|i: int| 0 <= i < n + 1 implies #[trigger] linked(longer, further, i) by {
        if i < n {
            assert(linked(worlds, stages, i));
            assert(longer[i] == worlds[i] && longer[i + 1] == worlds[i + 1]);
            assert(further[i] == stages[i] && further[i + 1] == stages[i + 1]);
        }
    }
    assert(course(longer, further, n + 1));
}

/// The statistics that a tick gives, if it gives any.
pub open spec fn given(done: Result<Option<Statistics>, GridError>) -> Option<Statistics> {
    match done {
        Ok(Some(stats)) => Some(stats),
        _ => None,
    }
}

/// `after` and `next` are what is left when the ticks of a generation, of
/// which `ticks` were still to come before its end, ran and the generation
/// ended with the statistics `stats`.
pub open spec fn trained(
    before: World<usize>,
    brains: Seq<Brain>,
    ticks: nat,
    after: World<usize>,
    next: Seq<Brain>,
    config: &Config,
    stats: Statistics,
) -> bool {
    exists|last: World<usize>, last_brains: Seq<Brain>|
        {
            &&& #[trigger] ran(before, brains, ticks, last, last_brains)
            &&& ended(&last, last_brains, &after, next, config, Some(stats))
        }
}

/// `after` and `brains_after` are what is left when, after `n` successful
/// ticks, the next tick failed: a tick within the generation where `n` is
/// less than `ticks`, the tick that ends it where `n` is `ticks`.
pub open spec fn stopped(
    before: World<usize>,
    brains: Seq<Brain>,
    ticks: nat,
    n: nat,
    after: World<usize>,
    brains_after: Seq<Brain>,
    config: &Config,
) -> bool {
    exists|last: World<usize>, last_brains: Seq<Brain>|
        {
            &&& #[trigger] ran(before, brains, n, last, last_brains)
            &&& n <= ticks
            &&& if n < ticks {
                aged(&last, last_brains, &after, brains_after, false)
            } else {
                ended(&last, last_brains, &after, brains_after, config, None)
            }
        }
}

/// Two worlds with the same tiles whose creatures stand on the same tiles
/// with the same targets settle every claim alike.
pub proof fn lemma_outcomes_same(a: &World<usize>, b: &World<usize>, i: int)
    requires
        a.map == b.map,
        a.creatures@.len() == b.creatures@.len(),
        0 <= i < a.creatures@.len(),
        forall|k: int|
            0 <= k < a.creatures@.len() ==> (#[trigger] a.creatures@[k]).pos == b.creatures@[k].pos
                && a.creatures@[k].target_pos == b.creatures@[k].target_pos,
    ensures
        outcome_of(a, i) == outcome_of(b, i),
        a.creatures@[i].claim() == b.creatures@[i].claim(),
{
    let pt = a.creatures@[i].claim();
    assert(a.creatures@[i].pos == b.creatures@[i].pos);
    lemma_claimants_same(a.creatures@, b.creatures@, pt, a.creatures@.len() as int);
    if a.occupied(pt) {
        let k = choose|k: int| 0 <= k < a.creatures@.len() && (#[trigger] a.creatures@[k]).pos == pt;
        assert(b.creatures@[k].pos == pt);
    }
    if b.occupied(pt) {
        let k = choose|k: int| 0 <= k < b.creatures@.len() && (#[trigger] b.creatures@[k]).pos == pt;
        assert(a.creatures@[k].pos == pt);
    }
}

/// Creatures with the same places and targets claim every tile alike.
pub proof fn lemma_claimants_same(
    a: Seq<Creature<usize>>,
    b: Seq<Creature<usize>>,
    pt: GridPoint,
    n: int,
)
    requires
        a.len() == b.len(),
        0 <= n <= a.len(),
        forall|k: int|
            0 <= k < a.len() ==> (#[trigger] a[k]).pos == b[k].pos && a[k].target_pos
                == b[k].target_pos,
    ensures
        claimants(a, pt, n) == claimants(b, pt, n),
    decreases n,
{
    if n > 0 {
        lemma_claimants_same(a, b, pt, n - 1);
        assert(a[n - 1].pos == b[n - 1].pos);
    }
}

/// Two worlds with the same tiles whose creatures stand on the same tiles
/// with the same targets have the same food eaten.
pub proof fn lemma_eaten_same(a: &World<usize>, b: &World<usize>, n: int)
    requires
        a.map == b.map,
        a.creatures@.len() == b.creatures@.len(),
        0 <= n <= a.creatures@.len(),
        forall|k: int|
            0 <= k < a.creatures@.len() ==> (#[trigger] a.creatures@[k]).pos == b.creatures@[k].pos
                && a.creatures@[k].target_pos == b.creatures@[k].target_pos,
    ensures
        eaten(a, n) == eaten(b, n),
    decreases n,
{
    if n > 0 {
        lemma_eaten_same(a, b, n - 1);
        lemma_outcomes_same(a, b, n - 1);
    }
}

/// Two worlds with their brains are in the same state: the tiles are the
/// same, every creature has the same place, target, number, energy and
/// memory, and every brain the same fitness, count of idle ticks and
/// network.
pub open spec fn same_state(
    first: &World<usize>,
    first_brains: Seq<Brain>,
    second: &World<usize>,
    second_brains: Seq<Brain>,
) -> bool {
    &&& first.map == second.map
    &&& same_herd(first.creatures@, first_brains, second.creatures@, second_brains)
}

/// The creatures and brains of two worlds are the same, one by one.
pub open spec fn same_herd(
    first: Seq<Creature<usize>>,
    first_brains: Seq<Brain>,
    second: Seq<Creature<usize>>,
    second_brains: Seq<Brain>,
) -> bool {
    &&& first.len() == second.len()
    &&& first_brains.len() == second_brains.len()
    &&& forall|i: int|
        0 <= i < first.len() ==> {
            &&& (#[trigger] first[i]).pos == second[i].pos
            &&& first[i].target_pos == second[i].target_pos
            &&& first[i].brain == second[i].brain
            &&& first[i].energy == second[i].energy
            &&& first[i].memory@ == second[i].memory@
        }
    &&& forall|i: int|
        0 <= i < first_brains.len() ==> {
            &&& (#[trigger] first_brains[i]).fitness == second_brains[i].fitness
            &&& first_brains[i].time_since_move == second_brains[i].time_since_move
            &&& first_brains[i].nn == second_brains[i].nn
        }
}

/// The deciding, settling and stepping of a tick leave nothing open: from
/// the same state they lead to the same place, target, number, energy and
/// memory for every creature, the same fitness and count of idle ticks for
/// every brain, and the same list of eaten food.
pub proof fn lemma_tick_determined(
    before: &World<usize>,
    brains: Seq<Brain>,
    first: Seq<Creature<usize>>,
    first_brains: Seq<Brain>,
    first_consumed: Seq<GridPoint>,
    twin: &World<usize>,
    twin_brains: Seq<Brain>,
    second: Seq<Creature<usize>>,
    second_brains: Seq<Brain>,
    second_consumed: Seq<GridPoint>,
)
    requires
        before.creatures@.len() == brains.len(),
        same_state(before, brains, twin, twin_brains),
        acted(before, brains, first, first_brains, first_consumed),
        acted(twin, twin_brains, second, second_brains, second_consumed),
    ensures
        first_consumed == second_consumed,
        same_herd(first, first_brains, second, second_brains),
{
    let (aimed_one, cleared_one, bumped_one, after_one) = choose|
        proposed: World<usize>,
        cleared: World<usize>,
        bumped: Seq<Brain>,
        after: World<usize>,
    |
        #[trigger] ticked(
            before,
            brains,
            &proposed,
            &cleared,
            bumped,
            &after,
            first_brains,
            first_consumed,
        ) && after.creatures@ == first;
    let (aimed_two, cleared_two, bumped_two, after_two) = choose|
        proposed: World<usize>,
        cleared: World<usize>,
        bumped: Seq<Brain>,
        after: World<usize>,
    |
        #[trigger] ticked(
            twin,
            twin_brains,
            &proposed,
            &cleared,
            bumped,
            &after,
            second_brains,
            second_consumed,
        ) && after.creatures@ == second;
    let n = brains.len() as int;
    assert forall|k: int| 0 <= k < n implies (#[trigger] aimed_one.creatures@[k]).pos
        == aimed_two.creatures@[k].pos && aimed_one.creatures@[k].target_pos
        == aimed_two.creatures@[k].target_pos && aimed_one.creatures@[k].memory@
        == aimed_two.creatures@[k].memory@ by {
        assert(before.creatures@[k].pos == twin.creatures@[k].pos);
        assert(before.creatures@[k].memory@ == twin.creatures@[k].memory@);
        assert(before.creatures@[k].memory == twin.creatures@[k].memory) by {
            assert(before.creatures@[k].memory =~= twin.creatures@[k].memory);
        }
        lemma_inputs_same(before, twin, k);
        assert(brains[k].nn == twin_brains[k].nn);
        assert(proposal(before, brains, k) == proposal(twin, twin_brains, k));
        assert(aimed_one.creatures@[k].target_pos == proposal(before, brains, k));
        assert(aimed_two.creatures@[k].target_pos == proposal(twin, twin_brains, k));
        assert(aimed_one.creatures@[k].memory@ =~= aimed_two.creatures@[k].memory@);
    }
    lemma_eaten_same(&aimed_one, &aimed_two, n);
    assert forall|k: int| 0 <= k < n implies (#[trigger] cleared_one.creatures@[k]).pos
        == cleared_two.creatures@[k].pos && cleared_one.creatures@[k].target_pos
        == cleared_two.creatures@[k].target_pos && cleared_one.creatures@[k].brain
        == cleared_two.creatures@[k].brain && cleared_one.creatures@[k].energy
        == cleared_two.creatures@[k].energy && cleared_one.creatures@[k].memory@
        == cleared_two.creatures@[k].memory@ && bumped_one[k].fitness == bumped_two[k].fitness
        && bumped_one[k].time_since_move == bumped_two[k].time_since_move && bumped_one[k].nn
        == bumped_two[k].nn by {
        lemma_outcomes_same(&aimed_one, &aimed_two, k);
        assert(before.creatures@[k].brain == twin.creatures@[k].brain);
        assert(before.creatures@[k].energy == twin.creatures@[k].energy);
        assert(aimed_one.creatures@[k].brain == aimed_two.creatures@[k].brain);
        assert(aimed_one.creatures@[k].energy == aimed_two.creatures@[k].energy);
        assert(brains[k].fitness == twin_brains[k].fitness);
        assert(bumped_one[k].nn == brains[k].nn);
        assert(bumped_two[k].nn == twin_brains[k].nn);
    }
    assert forall|i: int| 0 <= i < first.len() implies {
        &&& (#[trigger] first[i]).pos == second[i].pos
        &&& first[i].target_pos == second[i].target_pos
        &&& first[i].brain == second[i].brain
        &&& first[i].energy == second[i].energy
        &&& first[i].memory@ == second[i].memory@
    } by {
        assert(after_one.creatures@[i].pos == cleared_one.creatures@[i].claim());
        assert(after_two.creatures@[i].pos == cleared_two.creatures@[i].claim());
        assert(cleared_one.creatures@[i].pos == cleared_two.creatures@[i].pos);
        assert(cleared_one.creatures@[i].memory@ == cleared_two.creatures@[i].memory@);
    }
    assert forall|i: int| 0 <= i < first_brains.len() implies {
        &&& (#[trigger] first_brains[i]).fitness == second_brains[i].fitness
        &&& first_brains[i].time_since_move == second_brains[i].time_since_move
        &&& first_brains[i].nn == second_brains[i].nn
    } by {
        assert(after_tick(
            bumped_one[i],
            first_brains[i],
            cleared_one.creatures@[i].target_pos is Some,
        ));
        assert(after_tick(
            bumped_two[i],
            second_brains[i],
            cleared_two.creatures@[i].target_pos is Some,
        ));
        assert(cleared_one.creatures@[i].target_pos == cleared_two.creatures@[i].target_pos);
        assert(bumped_one[i].fitness == bumped_two[i].fitness);
    }
}

/// Ticks within a generation leave nothing open but where the new food
/// lies: two runs of `n` successful ticks from the same state, through
/// worlds with the same tiles after every tick, are in the same state after
/// every tick.
pub proof fn lemma_run_determined(
    worlds: Seq<World<usize>>,
    stages: Seq<Seq<Brain>>,
    twins: Seq<World<usize>>,
    twin_stages: Seq<Seq<Brain>>,
    n: nat,
    i: int,
)
    requires
        course(worlds, stages, n),
        course(twins, twin_stages, n),
        worlds[0].creatures@.len() == stages[0].len(),
        same_state(&worlds[0], stages[0], &twins[0], twin_stages[0]),
        forall|j: int| 0 <= j <= n ==> (#[trigger] worlds[j]).map == twins[j].map,
        0 <= i <= n,
    ensures
        same_state(&worlds[i], stages[i], &twins[i], twin_stages[i]),
        worlds[i].creatures@.len() == stages[i].len(),
    decreases i,
{
    if i > 0 {
        lemma_run_determined(worlds, stages, twins, twin_stages, n, i - 1);
        assert(linked(worlds, stages, i - 1));
        assert(linked(twins, twin_stages, i - 1));
        let consumed = choose|consumed: Seq<GridPoint>| #[trigger]
            acted(&worlds[i - 1], stages[i - 1], worlds[i].creatures@, stages[i], consumed);
        let twin_consumed = choose|consumed: Seq<GridPoint>| #[trigger]
            acted(
                &twins[i - 1],
                twin_stages[i - 1],
                twins[i].creatures@,
                twin_stages[i],
                consumed,
            );
        lemma_tick_determined(
            &worlds[i - 1],
            stages[i - 1],
            worlds[i].creatures@,
            stages[i],
            consumed,
            &twins[i - 1],
            twin_stages[i - 1],
            twins[i].creatures@,
            twin_stages[i],
            twin_consumed,
        );
        assert(worlds[i].map == twins[i].map);
        lemma_acted_lengths(
            &worlds[i - 1],
            stages[i - 1],
            worlds[i].creatures@,
            stages[i],
            consumed,
        );
    }
}

/// A tick keeps the number of creatures and of brains.
pub proof fn lemma_acted_lengths(
    before: &World<usize>,
    brains: Seq<Brain>,
    creatures: Seq<Creature<usize>>,
    brains_after: Seq<Brain>,
    consumed: Seq<GridPoint>,
)
    requires
        acted(before, brains, creatures, brains_after, consumed),
    ensures
        creatures.len() == before.creatures@.len(),
        brains_after.len() == brains.len(),
{
    let (proposed, cleared, bumped, after) = choose|
        proposed: World<usize>,
        cleared: World<usize>,
        bumped: Seq<Brain>,
        after: World<usize>,
    |
        #[trigger] ticked(
            before,
            brains,
            &proposed,
            &cleared,
            bumped,
            &after,
            brains_after,
            consumed,
        ) && after.creatures@ == creatures;
}

/// What is near a point is the same in two worlds with the same creatures'
/// places.
pub proof fn lemma_places_same(
    a: Seq<Creature<usize>>,
    b: Seq<Creature<usize>>,
    pos: GridPoint,
    n: int,
)
    requires
        0 <= n <= a.len(),
        a.len() == b.len(),
        forall|k: int| 0 <= k < a.len() ==> (#[trigger] a[k]).pos == b[k].pos,
    ensures
        places_in_range(a, pos, EYE_RANGE, n) == places_in_range(b, pos, EYE_RANGE, n),
    decreases n,
{
    if n > 0 {
        lemma_places_same(a, b, pos, n - 1);
        assert(a[n - 1].pos == b[n - 1].pos);
    }
}

/// What a creature sees depends on the tiles and on where the creatures
/// stand, not on what they are about to do.
pub proof fn lemma_inputs_same(
    a: &World<usize>,
    b: &World<usize>,
    i: int,
)
    requires
        a.map == b.map,
        a.creatures@.len() == b.creatures@.len(),
        0 <= i < a.creatures@.len(),
        forall|k: int|
            0 <= k < a.creatures@.len() ==> (#[trigger] a.creatures@[k]).pos == b.creatures@[k].pos,
        a.creatures@[i].memory == b.creatures@[i].memory,
    ensures
        a.creatures@[i].brain_inputs(a) == b.creatures@[i].brain_inputs(b),
{
    let pos = a.creatures@[i].pos;
    assert(b.creatures@[i].pos == pos);
    lemma_places_same(a.creatures@, b.creatures@, pos, a.creatures@.len() as int);
    assert(sightings(a, pos) =~= sightings(b, pos));
    assert(a.creatures@[i].brain_inputs(a) =~= b.creatures@[i].brain_inputs(b));
}

/// Where every target that is left can be stepped to, the creatures stand
/// apart after the step as they did before.
pub proof fn lemma_moves_keep_apart(before: &World<usize>, after: &World<usize>)
    requires
        placed(before),
        resolved(before),
        after.creatures@.len() == before.creatures@.len(),
        forall|i: int|
            0 <= i < before.creatures@.len() ==> (#[trigger] after.creatures@[i]).pos
                == before.creatures@[i].claim(),
    ensures
        placed(after),
{
    assert forall|i: int| 0 <= i < after.creatures@.len() implies (
    #[trigger] after.creatures@[i]).pos.in_grid() by {
        assert(before.creatures@[i].pos.in_grid());
    }
    assert forall|i: int, j: int|
        0 <= i < after.creatures@.len() && 0 <= j < after.creatures@.len() && i != j implies (
    #[trigger] after.creatures@[i]).pos != (#[trigger] after.creatures@[j]).pos by {
        let first = before.creatures@[i];
        let second = before.creatures@[j];
        assert(first.pos != second.pos);
        if first.target_pos is Some {
            assert(second.claim() != first.claim());
        } else if second.target_pos is Some {
            assert(first.claim() != second.claim());
        }
    }
}

/// The tiles are food tiles of the world inside its ring of walls, each
/// named once.
pub open spec fn food_eaten(world: &World<usize>, consumed: Seq<GridPoint>) -> bool {
    &&& forall|m: int|
        0 <= m < consumed.len() ==> {
            &&& (#[trigger] consumed[m]).in_grid()
            &&& !on_border(consumed[m])
            &&& world.tile_at(consumed[m]) == Tiles::EnergyGain
        }
    &&& forall|a: int, b: int|
        0 <= a < b < consumed.len() ==> #[trigger] consumed[a] != #[trigger] consumed[b]
}

/// The two worlds hold as many food tiles.
pub open spec fn same_food(before: &World<usize>, after: &World<usize>) -> bool {
    after.tile_count(Tiles::EnergyGain) == before.tile_count(Tiles::EnergyGain)
}

/// One of the first `n` creatures claims the point, alone.
pub open spec fn claimed_alone(world: &World<usize>, n: int, pt: GridPoint) -> bool {
    exists|i: int|
        0 <= i < n && (#[trigger] world.creatures@[i]).claim() == pt && feeds(outcome_of(world, i))
}

/// What the creatures eat are food tiles inside the ring of walls, and no
/// tile is eaten twice: only a creature that claims a tile alone eats.
pub proof fn lemma_eaten_food(world: &World<usize>, n: int)
    requires
        0 <= n <= world.creatures@.len(),
        aimed(world),
        world.walled(),
    ensures
        food_eaten(world, eaten(world, n)),
        forall|k: int|
            0 <= k < eaten(world, n).len() ==> claimed_alone(world, n, #[trigger] eaten(world, n)[k]),
    decreases n,
{
    if n > 0 {
        lemma_eaten_food(world, n - 1);
        lemma_eaten_inside(world, n);
        let earlier = eaten(world, n - 1);
        let now = eaten(world, n);
        let pt = world.creatures@[n - 1].claim();
        assert forall|k: int| 0 <= k < now.len() implies claimed_alone(world, n, #[trigger] now[k]) by {
            if k < earlier.len() {
                assert(now[k] == earlier[k]);
                assert(claimed_alone(world, n - 1, earlier[k]));
                let i = choose|i: int|
                    0 <= i < n - 1 && (#[trigger] world.creatures@[i]).claim() == earlier[k]
                        && feeds(outcome_of(world, i));
                assert(world.creatures@[i].claim() == now[k]);
            } else {
                assert(world.creatures@[n - 1].claim() == now[k]);
            }
        }
        assert forall|m: int| 0 <= m < now.len() implies world.tile_at(#[trigger] now[m])
            == Tiles::EnergyGain by {
            if m < earlier.len() {
                assert(now[m] == earlier[m]);
            }
        }
        assert forall|a: int, b: int| 0 <= a < b < now.len() implies #[trigger] now[a]
            != #[trigger] now[b] by {
            if b < earlier.len() {
                assert(earlier[a] != earlier[b]);
            } else {
                assert(now[b] == pt);
                assert(feeds(outcome_of(world, n - 1)));
                assert(now[a] == earlier[a]);
                assert(claimed_alone(world, n - 1, earlier[a]));
                let i = choose|i: int|
                    0 <= i < n - 1 && (#[trigger] world.creatures@[i]).claim() == earlier[a]
                        && feeds(outcome_of(world, i));
                let all = world.creatures@.len() as int;
                lemma_sole_claimant(world.creatures@, pt, all, n - 1);
                assert(claimants(world.creatures@, pt, all) == 1);
                assert(world.creatures@[i].claim() != pt);
            }
        }
    }
}

/// Every tile whose food is eaten lies inside the ring of walls.
pub proof fn lemma_eaten_inside(world: &World<usize>, n: int)
    requires
        0 <= n <= world.creatures@.len(),
        aimed(world),
        world.walled(),
    ensures
        forall|k: int|
            0 <= k < eaten(world, n).len() ==> (#[trigger] eaten(world, n)[k]).in_grid()
                && !on_border(eaten(world, n)[k]),
    decreases n,
{
    if n > 0 {
        lemma_eaten_inside(world, n - 1);
        let earlier = eaten(world, n - 1);
        let pt = world.creatures@[n - 1].claim();
        assert(pt.in_grid());
        assert forall|k: int| 0 <= k < eaten(world, n).len() implies (#[trigger] eaten(
            world,
            n,
        )[k]).in_grid() && !on_border(eaten(world, n)[k]) by {
            if k < earlier.len() {
                assert(earlier[k].in_grid() && !on_border(earlier[k]));
                assert(eaten(world, n)[k] == earlier[k]);
            } else {
                assert(feeds(outcome_of(world, n - 1)));
                assert(eaten(world, n)[k] == pt);
                assert(world.tile_at(pt) == Tiles::EnergyGain);
            }
        }
    }
}

/// Where the creatures keep their places, they stand apart as before.
pub proof fn lemma_places_kept(before: &World<usize>, after: &World<usize>)
    requires
        placed(before),
        after.creatures@.len() == before.creatures@.len(),
        forall|i: int|
            0 <= i < before.creatures@.len() ==> (#[trigger] after.creatures@[i]).pos
                == before.creatures@[i].pos,
    ensures
        placed(after),
{
    assert forall|i: int| 0 <= i < after.creatures@.len() implies (
    #[trigger] after.creatures@[i]).pos.in_grid() by {
        assert(before.creatures@[i].pos.in_grid());
    }
    assert forall|i: int, j: int|
        0 <= i < after.creatures@.len() && 0 <= j < after.creatures@.len() && i != j implies (
    #[trigger] after.creatures@[i]).pos != (#[trigger] after.creatures@[j]).pos by {
        assert(before.creatures@[i].pos != before.creatures@[j].pos);
    }
}

/// Where the tiles stay and the creatures keep their numbers, the walls
/// stand and the creatures are bound as before.
pub proof fn lemma_frame_kept(before: &World<usize>, after: &World<usize>, brains: Seq<Brain>)
    requires
        bound(before, brains),
        before.walled(),
        after.map == before.map,
        after.creatures@.len() == before.creatures@.len(),
        forall|i: int|
            0 <= i < before.creatures@.len() ==> (#[trigger] after.creatures@[i]).brain
                == before.creatures@[i].brain,
    ensures
        bound(after, brains),
        after.walled(),
{
    assert forall|i: int| 0 <= i < brains.len() implies (#[trigger] after.creatures@[i]).brain
        == i by {
        assert(before.creatures@[i].brain == i);
    }
    assert forall|pt: GridPoint| pt.in_grid() && on_border(pt) implies #[trigger] after.tile_at(pt)
        == Tiles::Wall by {
        assert(before.tile_at(pt) == Tiles::Wall);
    }
}

/// Brains with the networks of well-formed brains are well formed.
pub proof fn lemma_brains_kept(before: Seq<Brain>, after: Seq<Brain>, config: &Config)
    requires
        all_wf(before, config),
        after.len() == before.len(),
        forall|i: int| 0 <= i < before.len() ==> (#[trigger] after[i]).nn == before[i].nn,
    ensures
        all_wf(after, config),
{
    assert forall|i: int| 0 <= i < after.len() implies (#[trigger] after[i]).wf(config) by {
        assert(before[i].wf(config));
    }
}

/// A creature's proposal lies in the grid.
pub proof fn lemma_proposals_aimed(before: &World<usize>, after: &World<usize>, brains: Seq<Brain>)
    requires
        placed(before),
        after.creatures@.len() == before.creatures@.len(),
        brains.len() == before.creatures@.len(),
        forall|i: int|
            0 <= i < before.creatures@.len() ==> (#[trigger] after.creatures@[i]).pos
                == before.creatures@[i].pos && after.creatures@[i].target_pos == proposal(
                before,
                brains,
                i,
            ),
    ensures
        aimed(after),
{
    assert forall|i: int| 0 <= i < after.creatures@.len() implies (
    #[trigger] after.creatures@[i]).claim().in_grid() by {
        assert(before.creatures@[i].pos.in_grid());
        assert(after.creatures@[i].target_pos == proposal(before, brains, i));
    }
}

impl Simulation {
    /// The parameters are valid, creature `i` is steered by network `i`,
    /// there are as many creatures as the parameters ask for, every network
    /// has the shape that the parameters ask for, the creatures stand on
    /// different tiles of the grid and have no targets, the grid is ringed
    /// by walls, and the generation is no older than its length.
    pub open spec fn wf(&self) -> bool {
        &&& self.config.valid()
        &&& self.population.population@.len() == self.config.world_creatures
        &&& bound(&self.world, self.population.population@)
        &&& all_wf(self.population.population@, &self.config)
        &&& placed(&self.world)
        &&& at_rest(&self.world)
        &&& self.world.walled()
        &&& self.age <= self.config.sim_generation_length
    }

    /// Whether the simulation is in order, as [`Simulation::wf`] says.
    pub fn is_wf(&self) -> (ok: bool)
        ensures
            ok == self.wf(),
    {
        let count: usize = self.population.population.len();
        if !(self.config.is_valid() && count == self.config.world_creatures
            && self.world.creatures.len() == count && self.age
            <= self.config.sim_generation_length && self.world.is_walled()) {
            return false;
        }
        let mut i: usize = 0;
        while i < count
            invariant
                count == self.population.population@.len(),
                count == self.world.creatures@.len(),
                i <= count,
                forall|k: int|
                    0 <= k < i ==> {
                        &&& (#[trigger] self.world.creatures@[k]).brain == k
                        &&& self.world.creatures@[k].pos.in_grid()
                        &&& self.world.creatures@[k].target_pos is None
                    },
                forall|k: int|
                    0 <= k < i ==> (#[trigger] self.population.population@[k]).wf(&self.config),
                forall|a: int, b: int|
                    0 <= a < i && 0 <= b < count && a != b ==> (
                    #[trigger] self.world.creatures@[a]).pos != (
                    #[trigger] self.world.creatures@[b]).pos,
            decreases count - i,
        {
            let creature = &self.world.creatures[i];
            if !(creature.brain == i && creature.pos.x < GRID_WIDTH && creature.pos.y < GRID_WIDTH
                && creature.target_pos.is_none() && self.population.population[i].is_shaped(
                &self.config,
            )) {
                return false;
            }
            let mut j: usize = i + 1;
            while j < count
                invariant
                    count == self.world.creatures@.len(),
                    i < count,
                    i < j <= count,
                    forall|b: int|
                        i < b < j ==> self.world.creatures@[i as int].pos != (
                        #[trigger] self.world.creatures@[b]).pos,
                decreases count - j,
            {
                if self.world.creatures[i].pos == self.world.creatures[j].pos {
                    return false;
                }
                j = j + 1;
            }
            i = i + 1;
        }
        true
    }

    /// A simulation with random networks in a random world, from a source
    /// of randomness that the operating system seeds. It fails where the
    /// system gives no seed, and where no free tile is found for something
    /// that is to be placed.
    pub fn random(config: &Config) -> (made: Result<Self, GridError>)
        requires
            config.valid(),
        ensures
            made matches Ok(simulation) ==> {
                &&& simulation.wf()
                &&& simulation.config == *config
                &&& simulation.age == 0
                &&& simulation.generation == 0
                &&& fresh(&simulation.world, config)
            },
            made matches Err(GridError::NoFreePoint) ==> !nothing_to_place(
                config,
                config.world_creatures as int,
            ),
    {
        match entropy_source() {
            Some(mut rng) => Self::random_with(config, &mut rng),
            None => Err(GridError::NoEntropy),
        }
    }

    /// A simulation with random networks in a random world, from the given
    /// source of randomness. It fails where no free tile is found for
    /// something that is to be placed; where nothing is to be placed, it is
    /// made.
    pub fn random_with(config: &Config, rng: &mut StdRng) -> (made: Result<Self, GridError>)
        requires
            config.valid(),
        ensures
            made matches Ok(simulation) ==> {
                &&& simulation.wf()
                &&& simulation.config == *config
                &&& simulation.age == 0
                &&& simulation.generation == 0
                &&& fresh(&simulation.world, config)
            },
            made matches Err(error) ==> error == GridError::NoFreePoint,
            nothing_to_place(config, config.world_creatures as int) ==> made is Ok,
    {
        let population: Box<RouletteWheelPopulation<Brain, Config>> = Box::new(
            RouletteWheelPopulation::random(config.world_creatures, config, rng),
        );
        let world = Simulation::init_world(config, &population.population, rng)?;
        Ok(Self { config: *config, world, population, age: 0, generation: 0 })
    }

    /// A fresh world for the given networks: floor ringed by walls, food
    /// and hazards spread over free tiles, and one creature for every
    /// network, each on a free tile of its own. It fails where no free
    /// tile is found for one of them; where there is nothing to place, the
    /// world is made.
    pub fn init_world(config: &Config, population: &Vec<Brain>, rng: &mut StdRng) -> (made: Result<
        World<usize>,
        GridError,
    >)
        ensures
            made matches Ok(world) ==> {
                &&& bound(&world, population@)
                &&& placed(&world)
                &&& at_rest(&world)
                &&& world.walled()
                &&& fresh(&world, config)
            },
            made matches Err(error) ==> error == GridError::NoFreePoint,
            nothing_to_place(config, population@.len() as int) ==> made is Ok,
    {
        let mut world: World<usize> = World::default();
        world.set_border(Tiles::Wall);
        proof {
            assert forall|pt: GridPoint| pt.in_grid() implies #[trigger] world.tile_at(pt)
                != Tiles::EnergyGain && world.tile_at(pt) != Tiles::EnergyLoss by {
                assert(0 <= pt.offset() < 4096);
            }
            world.lemma_none_of(Tiles::EnergyGain);
            world.lemma_none_of(Tiles::EnergyLoss);
        }
        let ghost ringed = world;
        world.spread_random_tile(Tiles::EnergyGain, config.world_foods, rng)?;
        let ghost fed = world;
        world.spread_random_tile(Tiles::EnergyLoss, config.world_lava, rng)?;
        proof {
            assert forall|pt: GridPoint| pt.in_grid() && on_border(pt) implies #[trigger] world.tile_at(
                pt,
            ) == Tiles::Wall by {
                assert(ringed.tile_at(pt) == Tiles::Wall);
                assert(fed.tile_at(pt) == Tiles::Wall);
            }
        }
        let mut i: usize = 0;
        while i < population.len()
            invariant
                i <= population@.len(),
                world.creatures@.len() == i,
                world.walled(),
                world.tile_count(Tiles::EnergyGain) == config.world_foods,
                world.tile_count(Tiles::EnergyLoss) == config.world_lava,
                forall|k: int| 0 <= k < i ==> (#[trigger] world.creatures@[k]).brain == k,
                forall|k: int| 0 <= k < i ==> (#[trigger] world.creatures@[k]).target_pos is None,
                forall|k: int|
                    0 <= k < i ==> world.tile_at((#[trigger] world.creatures@[k]).pos)
                        == Tiles::Floor,
                placed(&world),
            decreases population@.len() - i,
        {
            match world.get_random_free_pt(rng) {
                Some(pos) => {
                    let ghost before = world;
                    assert(!world.occupied(pos));
                    world.creatures.push(Creature::new(pos, i));
                    proof {
                        assert forall|a: int, b: int|
                            0 <= a < world.creatures@.len() && 0 <= b < world.creatures@.len() && a
                                != b implies (#[trigger] world.creatures@[a]).pos != (
                        #[trigger] world.creatures@[b]).pos by {
                            if a < i && b < i {
                                assert(before.creatures@[a].pos != before.creatures@[b].pos);
                            } else if a < i {
                                assert(before.creatures@[a].pos != pos);
                            } else {
                                assert(before.creatures@[b].pos != pos);
                            }
                        }
                        assert forall|pt: GridPoint|
                            pt.in_grid() && on_border(pt) implies #[trigger] world.tile_at(pt)
                            == Tiles::Wall by {
                            assert(before.tile_at(pt) == Tiles::Wall);
                        }
                        assert forall|k: int| 0 <= k < i + 1 implies world.tile_at(
                            (#[trigger] world.creatures@[k]).pos,
                        ) == Tiles::Floor by {
                            if k < i {
                                assert(before.tile_at(before.creatures@[k].pos) == Tiles::Floor);
                            }
                        }
                    }
                },
                None => {
                    return Err(GridError::NoFreePoint);
                },
            }
            i = i + 1;
        }
        Ok(world)
    }

    pub fn config(&self) -> (config: &Config)
        ensures
            *config == self.config,
    {
        &self.config
    }

    pub fn world(&self) -> (world: &World<usize>)
        ensures
            *world == self.world,
    {
        &self.world
    }

    /// The creatures decide, their claims are settled and the steps are
    /// made. Gives the tiles whose food was eaten.
    pub fn act(&mut self) -> (consumed: Vec<GridPoint>)
        requires
            old(self).wf(),
        ensures
            final(self).wf(),
            final(self).config == old(self).config,
            final(self).age == old(self).age,
            final(self).generation == old(self).generation,
            final(self).world.map == old(self).world.map,
            forall|m: int|
                0 <= m < consumed@.len() ==> (#[trigger] consumed@[m]).in_grid() && !on_border(
                    consumed@[m],
                ),
            acted(
                &old(self).world,
                old(self).population.population@,
                final(self).world.creatures@,
                final(self).population.population@,
                consumed@,
            ),
            consumed@.len() <= old(self).world.creatures@.len(),
            food_eaten(&old(self).world, consumed@),
    {
        proof {
            assert forall|i: int| 0 <= i < self.population.population@.len() implies (
            #[trigger] self.population.population@[i]).ready() by {
                assert(self.population.population@[i].wf(&self.config));
                self.population.population@[i].lemma_shaped_ready(&self.config);
            }
        }
        let ghost started = self.world;
        let ghost brains = self.population.population@;
        Simulation::process_brains(&mut self.world, &self.population.population);
        let ghost proposed = self.world;
        proof {
            lemma_proposals_aimed(&started, &proposed, brains);
            lemma_places_kept(&started, &proposed);
            lemma_frame_kept(&started, &proposed, brains);
        }
        let consumed = Simulation::process_collisions(
            &mut self.world,
            &mut self.population.population,
        );
        let ghost settled = self.world;
        let ghost bumped = self.population.population@;
        proof {
            lemma_eaten_inside(&proposed, proposed.creatures@.len() as int);
            lemma_eaten_bounds(&proposed, proposed.creatures@.len() as int);
            lemma_eaten_food(&proposed, proposed.creatures@.len() as int);
            assert forall|m: int| 0 <= m < consumed@.len() implies started.tile_at(
                #[trigger] consumed@[m],
            ) == Tiles::EnergyGain by {
                assert(proposed.tile_at(consumed@[m]) == Tiles::EnergyGain);
            }
            lemma_places_kept(&proposed, &settled);
            lemma_frame_kept(&proposed, &settled, bumped);
            lemma_brains_kept(brains, bumped, &self.config);
        }
        Simulation::process_movements(&mut self.world, &mut self.population.population);
        proof {
            lemma_frame_kept(&settled, &self.world, self.population.population@);
            assert forall|i: int| 0 <= i < bumped.len() implies (
            #[trigger] self.population.population@[i]).nn == bumped[i].nn by {
                assert(after_tick(
                    bumped[i],
                    self.population.population@[i],
                    settled.creatures@[i].target_pos is Some,
                ));
            }
            lemma_brains_kept(bumped, self.population.population@, &self.config);
            assert(ticked(
                &started,
                brains,
                &proposed,
                &settled,
                bumped,
                &self.world,
                self.population.population@,
                consumed@,
            ));
        }
        consumed
    }

    /// Turns the given tiles into hazards and spreads as much new food over
    /// free tiles. On an error the hazards, and the food spread before it,
    /// stay.
    pub fn restock(&mut self, consumed: &Vec<GridPoint>, rng: &mut StdRng) -> (done: Result<
        (),
        GridError,
    >)
        requires
            old(self).wf(),
            forall|m: int|
                0 <= m < consumed@.len() ==> (#[trigger] consumed@[m]).in_grid() && !on_border(
                    consumed@[m],
                ),
        ensures
            final(self).wf(),
            final(self).config == old(self).config,
            done matches Err(error) ==> error == GridError::NoFreePoint,
            final(self).age == old(self).age,
            final(self).generation == old(self).generation,
            final(self).population == old(self).population,
            final(self).world.creatures == old(self).world.creatures,
            consumed@.len() == 0 ==> done is Ok,
            restocked(&old(self).world, &final(self).world, consumed@),
            food_eaten(&old(self).world, consumed@) && done is Ok ==> same_food(
                &old(self).world,
                &final(self).world,
            ),
    {
        let mut k: usize = 0;
        while k < consumed.len()
            invariant
                k <= consumed@.len(),
                self.world.walled(),
                food_eaten(&old(self).world, consumed@) ==> self.world.tile_count(
                    Tiles::EnergyGain,
                ) + k == old(self).world.tile_count(Tiles::EnergyGain),
                self.config == old(self).config,
                self.age == old(self).age,
                self.generation == old(self).generation,
                self.population == old(self).population,
                self.world.creatures == old(self).world.creatures,
                forall|m: int|
                    0 <= m < consumed@.len() ==> (#[trigger] consumed@[m]).in_grid() && !on_border(
                        consumed@[m],
                    ),
                forall|pt: GridPoint|
                    pt.in_grid() ==> #[trigger] self.world.tile_at(pt) == marked(
                        &old(self).world,
                        consumed@.take(k as int),
                        pt,
                    ),
            decreases consumed@.len() - k,
        {
            let ghost before = self.world;
            let food = consumed[k];
            self.world.set(food, Tiles::EnergyLoss);
            proof {
                assert forall|pt: GridPoint|
                    pt.in_grid() && on_border(pt) implies #[trigger] self.world.tile_at(pt)
                    == Tiles::Wall by {
                    assert(before.tile_at(pt) == Tiles::Wall);
                }
                let earlier = consumed@.take(k as int);
                let now = consumed@.take(k + 1);
                assert(now =~= earlier.push(food));
                if food_eaten(&old(self).world, consumed@) {
                    if earlier.contains(food) {
                        let at = choose|at: int| 0 <= at < earlier.len() && earlier[at] == food;
                        assert(consumed@[at] != consumed@[k as int]);
                    }
                    assert(before.tile_at(food) == marked(&old(self).world, earlier, food));
                    assert(before.tile_at(food) == Tiles::EnergyGain);
                    vstd::seq_lib::to_multiset_update(
                        before.map@,
                        food.offset(),
                        Tiles::EnergyLoss,
                    );
                    vstd::seq_lib::to_multiset_contains(before.map@, Tiles::EnergyGain);
                    assert(before.map@.contains(Tiles::EnergyGain)) by {
                        assert(before.map@[food.offset()] == Tiles::EnergyGain);
                    }
                    assert(self.world.map@.to_multiset() == before.map@.to_multiset().insert(
                        Tiles::EnergyLoss,
                    ).remove(Tiles::EnergyGain));
                }
                assert forall|pt: GridPoint| pt.in_grid() implies #[trigger] self.world.tile_at(pt)
                    == marked(&old(self).world, now, pt) by {
                    let was = before.tile_at(pt);
                    if pt == food {
                        assert(now[k as int] == pt);
                    } else if earlier.contains(pt) {
                        let at = choose|at: int| 0 <= at < earlier.len() && earlier[at] == pt;
                        assert(now[at] == pt);
                    } else if now.contains(pt) {
                        let at = choose|at: int| 0 <= at < now.len() && now[at] == pt;
                        assert(earlier[at] == pt);
                    }
                }
            }
            k = k + 1;
        }
        assert(consumed@.take(consumed@.len() as int) =~= consumed@);
        let ghost before = self.world;
        let spread = self.world.spread_random_tile(Tiles::EnergyGain, consumed.len(), rng);
        proof {
            assert forall|pt: GridPoint|
                pt.in_grid() && on_border(pt) implies #[trigger] self.world.tile_at(pt)
                == Tiles::Wall by {
                assert(before.tile_at(pt) == Tiles::Wall);
            }
            assert forall|pt: GridPoint| pt.in_grid() implies #[trigger] self.world.tile_at(pt)
                == marked(&old(self).world, consumed@, pt) || (self.world.tile_at(pt)
                == Tiles::EnergyGain && marked(&old(self).world, consumed@, pt) == Tiles::Floor
                && !self.world.occupied(pt)) by {
                let was = before.tile_at(pt);
                if before.free(pt) {
                    assert(!before.occupied(pt));
                    if self.world.occupied(pt) {
                        let at = choose|at: int|
                            0 <= at < self.world.creatures@.len() && (
                            #[trigger] self.world.creatures@[at]).pos == pt;
                        assert(before.creatures@[at].pos == pt);
                    }
                }
            }
        }
        spread
    }

    /// One tick: the creatures decide, their claims are settled, the steps
    /// are made, and the generation ages. Within a generation, eaten food
    /// turns into a hazard and as much new food is spread. Where the
    /// generation has outlived its length, the next one is bred into a
    /// fresh world and the finished one's statistics are given.
    ///
    /// The tick fails where no free tile is found for new food or, at the
    /// end of a generation, for something of the fresh world. Within a
    /// generation it succeeds where no food was eaten, and at its end where
    /// nothing is to be placed. What the tick made of the creatures, the
    /// brains and the count of ticks stays on a failure too.
    pub fn step(&mut self, rng: &mut StdRng) -> (done: Result<Option<Statistics>, GridError>)
        requires
            old(self).wf(),
        ensures
            final(self).wf(),
            final(self).config == old(self).config,
            done matches Err(error) ==> error == GridError::NoFreePoint,
            old(self).age < old(self).config.sim_generation_length ==> {
                &&& done is Ok ==> done == Ok::<Option<Statistics>, GridError>(None)
                &&& final(self).age == old(self).age + 1
                &&& final(self).generation == old(self).generation
                &&& aged(
                    &old(self).world,
                    old(self).population.population@,
                    &final(self).world,
                    final(self).population.population@,
                    done is Ok,
                )
            },
            old(self).age == old(self).config.sim_generation_length ==> {
                &&& !(done matches Ok(None))
                &&& final(self).age == 0
                &&& final(self).generation == next_generation(old(self).generation)
                &&& ended(
                    &old(self).world,
                    old(self).population.population@,
                    &final(self).world,
                    final(self).population.population@,
                    &old(self).config,
                    given(done),
                )
                &&& nothing_to_place(
                    &old(self).config,
                    old(self).world.creatures@.len() as int,
                ) ==> done is Ok
            },
            done matches Ok(Some(stats)) ==> {
                &&& stats.generation == old(self).generation
                &&& stats.ga.max_similarity == 0
                &&& fresh(&final(self).world, &old(self).config)
            },
            old(self).age < old(self).config.sim_generation_length && old(
                self,
            ).world.creatures@.len() == 0 ==> done is Ok,
            old(self).age < old(self).config.sim_generation_length && done is Ok ==> same_food(
                &old(self).world,
                &final(self).world,
            ),
    {
        let consumed_foods = self.act();
        let ghost moved = self.world;
        let ghost earned = self.population.population@;
        proof {
            assert(acted(
                &old(self).world,
                old(self).population.population@,
                moved.creatures@,
                earned,
                consumed_foods@,
            ));
        }
        match self.try_evolving(rng) {
            Ok(Some(stats)) => Ok(Some(stats)),
            Ok(None) => {
                let done = self.restock(&consumed_foods, rng);
                proof {
                    assert forall|pt: GridPoint| pt.in_grid() implies marked(
                        &moved,
                        consumed_foods@,
                        pt,
                    ) == marked(&old(self).world, consumed_foods@, pt) by {
                        assert(moved.tile_at(pt) == old(self).world.tile_at(pt));
                    }
                    assert(restocked(&old(self).world, &self.world, consumed_foods@));
                    assert(food_eaten(&moved, consumed_foods@)) by {
                        assert forall|m: int| 0 <= m < consumed_foods@.len() implies moved.tile_at(
                            #[trigger] consumed_foods@[m],
                        ) == Tiles::EnergyGain by {
                            assert(old(self).world.tile_at(consumed_foods@[m])
                                == Tiles::EnergyGain);
                        }
                    }
                    assert(moved.map == old(self).world.map);
                }
                match done {
                    Ok(()) => Ok(None),
                    Err(error) => Err(error),
                }
            },
            Err(error) => Err(error),
        }
    }

    /// Steps until a generation is finished, and gives its statistics: the
    /// ticks that are left of the generation run, the last of them ends it,
    /// and the next generation stands in a fresh world. It fails with the
    /// first tick that fails; where nothing is to be placed, no tick does.
    pub fn train(&mut self, rng: &mut StdRng) -> (done: Result<Statistics, GridError>)
        requires
            old(self).wf(),
        ensures
            final(self).wf(),
            final(self).config == old(self).config,
            done matches Err(error) ==> error == GridError::NoFreePoint,
            final(self).population.population@.len() == old(self).population.population@.len(),
            done matches Ok(stats) ==> {
                &&& final(self).age == 0
                &&& stats.generation == old(self).generation
                &&& stats.ga.max_similarity == 0
                &&& final(self).generation == next_generation(old(self).generation)
                &&& fresh(&final(self).world, &old(self).config)
                &&& trained(
                    old(self).world,
                    old(self).population.population@,
                    (old(self).config.sim_generation_length - old(self).age) as nat,
                    final(self).world,
                    final(self).population.population@,
                    &old(self).config,
                    stats,
                )
            },
            done is Err ==> exists|n: nat| #[trigger]
                stopped(
                    old(self).world,
                    old(self).population.population@,
                    (old(self).config.sim_generation_length - old(self).age) as nat,
                    n,
                    final(self).world,
                    final(self).population.population@,
                    &old(self).config,
                ) && (if n < old(self).config.sim_generation_length - old(self).age {
                    final(self).age == old(self).age + n + 1 && final(self).generation == old(
                        self,
                    ).generation
                } else {
                    final(self).age == 0 && final(self).generation == next_generation(
                        old(self).generation,
                    )
                }),
            nothing_to_place(&old(self).config, old(self).world.creatures@.len() as int)
                ==> done is Ok,
    {
        proof {
            lemma_ran_nothing(self.world, self.population.population@);
        }
        loop
            invariant
                self.wf(),
                self.config == old(self).config,
                self.generation == old(self).generation,
                self.world.creatures@.len() == old(self).world.creatures@.len(),
                old(self).age <= self.age <= self.config.sim_generation_length,
                old(self).population.population@.len() == old(self).config.world_creatures,
                ran(
                    old(self).world,
                    old(self).population.population@,
                    (self.age - old(self).age) as nat,
                    self.world,
                    self.population.population@,
                ),
            decreases self.config.sim_generation_length - self.age,
        {
            let ghost last = self.world;
            let ghost last_brains = self.population.population@;
            let ghost n = (self.age - old(self).age) as nat;
            let ghost ticks = (self.config.sim_generation_length - old(self).age) as nat;
            match self.step(rng) {
                Ok(Some(statistics)) => {
                    proof {
                        assert(n == ticks);
                        assert(ended(
                            &last,
                            last_brains,
                            &self.world,
                            self.population.population@,
                            &self.config,
                            Some(statistics),
                        ));
                    }
                    return Ok(statistics);
                },
                Ok(None) => {
                    proof {
                        assert(aged(
                            &last,
                            last_brains,
                            &self.world,
                            self.population.population@,
                            true,
                        ));
                        assert(ran(
                            old(self).world,
                            old(self).population.population@,
                            n,
                            last,
                            last_brains,
                        ));
                        lemma_ran_on(
                            old(self).world,
                            old(self).population.population@,
                            n,
                            last,
                            last_brains,
                            self.world,
                            self.population.population@,
                        );
                    }
                },
                Err(error) => {
                    proof {
                        assert(stopped(
                            old(self).world,
                            old(self).population.population@,
                            ticks,
                            n,
                            self.world,
                            self.population.population@,
                            &self.config,
                        ));
                    }
                    return Err(error);
                },
            }
        }
    }

    /// Counts the tick; where the generation has outlived its length, breeds
    /// the next. Counting a tick never fails.
    pub fn try_evolving(&mut self, rng: &mut StdRng) -> (done: Result<Option<Statistics>, GridError>)
        requires
            old(self).wf(),
        ensures
            final(self).wf(),
            final(self).config == old(self).config,
            done matches Err(error) ==> error == GridError::NoFreePoint,
            old(self).age < old(self).config.sim_generation_length ==> {
                &&& done == Ok::<Option<Statistics>, GridError>(None)
                &&& final(self).age == old(self).age + 1
                &&& final(self).generation == old(self).generation
                &&& final(self).world == old(self).world
                &&& final(self).population == old(self).population
            },
            old(self).age == old(self).config.sim_generation_length ==> {
                &&& !(done matches Ok(None))
                &&& final(self).age == 0
                &&& final(self).generation == next_generation(old(self).generation)
                &&& final(self).population.population@.len() == old(
                    self,
                ).population.population@.len()
                &&& forall|k: int|
                    0 <= k < final(self).population.population@.len() ==> bred_from(
                        #[trigger] final(self).population.population@[k],
                        old(self).population.population@,
                        &old(self).config,
                    )
                &&& done is Err ==> final(self).world == old(self).world
                &&& nothing_to_place(
                    &old(self).config,
                    old(self).population.population@.len() as int,
                ) ==> done is Ok
            },
            done matches Ok(Some(stats)) ==> {
                &&& stats.generation == old(self).generation
                &&& stats.ga.max_similarity == 0
                &&& summarises::<Brain, Config>(stats.ga, old(self).population.population@)
                &&& fresh(&final(self).world, &old(self).config)
            },
    {
        if self.age + 1 > self.config.sim_generation_length {
            match self.evolve(rng) {
                Ok(stats) => Ok(Some(stats)),
                Err(error) => Err(error),
            }
        } else {
            self.age = self.age + 1;
            Ok(None)
        }
    }

    /// Ends the generation: breeds a population of the same size from the
    /// present one and puts it into a fresh world. Where no fresh world can
    /// be made, which chance decides unless nothing is to be placed, the
    /// new population stays in the old world.
    pub fn evolve(&mut self, rng: &mut StdRng) -> (done: Result<Statistics, GridError>)
        requires
            old(self).wf(),
        ensures
            final(self).wf(),
            final(self).config == old(self).config,
            done matches Err(error) ==> error == GridError::NoFreePoint,
            final(self).age == 0,
            final(self).generation == next_generation(old(self).generation),
            final(self).population.population@.len() == old(self).population.population@.len(),
            forall|k: int|
                0 <= k < final(self).population.population@.len() ==> bred_from(
                    #[trigger] final(self).population.population@[k],
                    old(self).population.population@,
                    &old(self).config,
                ),
            done matches Ok(stats) ==> {
                &&& stats.generation == old(self).generation
                &&& stats.ga.max_similarity == 0
                &&& summarises::<Brain, Config>(stats.ga, old(self).population.population@)
                &&& fresh(&final(self).world, &old(self).config)
            },
            done is Err ==> final(self).world == old(self).world,
            nothing_to_place(&old(self).config, old(self).population.population@.len() as int)
                ==> done is Ok,
    {
        let finished: usize = self.generation;
        self.age = 0;
        if self.generation < usize::MAX {
            self.generation = self.generation + 1;
        }
        let (individuals, statistics) = self.population.evolve(&self.config, rng);
        self.population = individuals;
        let world = Simulation::init_world(&self.config, &self.population.population, rng)?;
        self.world = world;
        Ok(Statistics { generation: finished, ga: statistics })
    }

    /// Every creature looks around and decides: its target becomes the
    /// neighbour in the direction that its network chooses, or nothing where
    /// the network chooses to stay. All creatures see the world as it
    /// stands before any of them has decided.
    pub fn process_brains(world: &mut World<usize>, brains: &Vec<Brain>)
        requires
            bound(old(world), brains@),
            forall|i: int|
                0 <= i < brains@.len() ==> (#[trigger] old(world).creatures@[i]).pos.in_grid(),
            forall|i: int| 0 <= i < brains@.len() ==> (#[trigger] brains@[i]).ready(),
        ensures
            thought(old(world), brains@, final(world)),
    {
        let count: usize = world.creatures.len();
        let mut i: usize = 0;
        while i < count
            invariant
                count == brains@.len(),
                i <= count,
                bound(old(world), brains@),
                forall|k: int|
                    0 <= k < brains@.len() ==> (#[trigger] old(world).creatures@[k]).pos.in_grid(),
                forall|k: int| 0 <= k < brains@.len() ==> (#[trigger] brains@[k]).ready(),
                world.map == old(world).map,
                world.creatures@.len() == old(world).creatures@.len(),
                forall|k: int|
                    0 <= k < count ==> {
                        &&& (#[trigger] world.creatures@[k]).pos == old(world).creatures@[k].pos
                        &&& world.creatures@[k].brain == old(world).creatures@[k].brain
                        &&& world.creatures@[k].energy == old(world).creatures@[k].energy
                    },
                forall|k: int|
                    i <= k < count ==> (#[trigger] world.creatures@[k]) == old(
                        world,
                    ).creatures@[k],
                forall|k: int|
                    0 <= k < i ==> {
                        &&& (#[trigger] world.creatures@[k]).target_pos == proposal(
                            old(world),
                            brains@,
                            k,
                        )
                        &&& forall|m: int|
                            0 <= m < CREATURE_MEMORY_SIZE ==> world.creatures@[k].memory@[m]
                                == brains@[k].nn.outputs(
                                old(world).creatures@[k].brain_inputs(old(world)),
                            )[1 + NUM_DIRECTIONS + m]
                    },
            decreases count - i,
        {
            let ghost before = *world;
            assert(world.creatures@[i as int] == old(world).creatures@[i as int]);
            assert(old(world).creatures@[i as int].pos.in_grid());
            proof {
                lemma_inputs_same(old(world), world, i as int);
            }
            let inputs = world.creatures[i].form_brain_inputs(world);
            assert(brains@[i as int].ready());
            let (direction, new_memory) = brains[i].process(inputs);
            let pos = world.creatures[i].pos;
            if CREATURE_MEMORY_SIZE > 0 {
                world.creatures[i].memory = new_memory;
            }
            match direction {
                Some(direction) => {
                    let target = pos.move_dir(direction);
                    assert(target == neighbour(pos, direction));
                    world.creatures[i].target_pos = Some(target);
                },
                None => {
                    world.creatures[i].target_pos = None;
                },
            }
            i = i + 1;
        }
    }

    /// Settles every creature's claim from the world as it stands: the
    /// fitness of the creature's brain changes by what the outcome brings,
    /// and the creature loses its target unless it may step there. Gives the
    /// tiles whose food was eaten.
    pub fn process_collisions(world: &mut World<usize>, brains: &mut Vec<Brain>) -> (consumed: Vec<
        GridPoint,
    >)
        requires
            bound(old(world), old(brains)@),
            aimed(old(world)),
        ensures
            settled(old(world), old(brains)@, final(world), final(brains)@, consumed@),
            resolved(final(world)),
    {
        let count: usize = world.creatures.len();
        let occupied = occupied_points(world);
        let mut outcomes: Vec<Outcome> = Vec::new();
        let mut i: usize = 0;
        while i < count
            invariant
                count == world.creatures@.len(),
                aimed(world),
                holds_occupied(occupied@, world),
                i <= count,
                outcomes@.len() == i,
                forall|k: int|
                    0 <= k < i ==> {
                        &&& #[trigger] outcomes@[k] == outcome_of(world, k)
                        &&& outcomes@[k] matches Outcome::Crowded { claimants, .. } ==> claimants
                            >= 2
                    },
            decreases count - i,
        {
            assert(world.creatures@[i as int].claim().in_grid());
            outcomes.push(settle(world, i, &occupied));
            i = i + 1;
        }
        let mut consumed: Vec<GridPoint> = Vec::new();
        let mut i: usize = 0;
        while i < count
            invariant
                count == old(world).creatures@.len(),
                bound(old(world), old(brains)@),
                i <= count,
                outcomes@.len() == count,
                forall|k: int|
                    0 <= k < count ==> {
                        &&& #[trigger] outcomes@[k] == outcome_of(old(world), k)
                        &&& outcomes@[k] matches Outcome::Crowded { claimants, .. } ==> claimants
                            >= 2
                    },
                world.map == old(world).map,
                world.creatures@.len() == count,
                brains@.len() == count,
                forall|k: int|
                    i <= k < count ==> (#[trigger] world.creatures@[k]) == old(
                        world,
                    ).creatures@[k],
                forall|k: int| i <= k < count ==> (#[trigger] brains@[k]) == old(brains)@[k],
                forall|k: int|
                    0 <= k < i ==> {
                        &&& (#[trigger] world.creatures@[k]).target_pos == (if keeps_target(
                            outcome_of(old(world), k),
                        ) {
                            old(world).creatures@[k].target_pos
                        } else {
                            None
                        })
                        &&& world.creatures@[k].pos == old(world).creatures@[k].pos
                        &&& world.creatures@[k].brain == old(world).creatures@[k].brain
                        &&& world.creatures@[k].energy == old(world).creatures@[k].energy
                        &&& world.creatures@[k].memory == old(world).creatures@[k].memory
                    },
                forall|k: int|
                    0 <= k < i ==> {
                        &&& (#[trigger] brains@[k]).fitness == clamp_i64(
                            old(brains)@[k].fitness + fitness_change(outcome_of(old(world), k)),
                        )
                        &&& brains@[k].time_since_move == old(brains)@[k].time_since_move
                        &&& brains@[k].nn == old(brains)@[k].nn
                    },
                consumed@ == eaten(old(world), i as int),
            decreases count - i,
        {
            let outcome = outcomes[i];
            assert(outcome == outcome_of(old(world), i as int));
            assert(world.creatures@[i as int] == old(world).creatures@[i as int]);
            assert(brains@[i as int] == old(brains)@[i as int]);
            brains[i].add_fitness(change_for(outcome));
            match outcome {
                Outcome::Alone { tile } => {
                    match tile {
                        Tiles::EnergyGain => {
                            consumed.push(world.creatures[i].claimed());
                        },
                        Tiles::Wall => {
                            world.creatures[i].target_pos = None;
                        },
                        _ => {},
                    }
                },
                _ => {
                    world.creatures[i].target_pos = None;
                },
            }
            i = i + 1;
        }
        proof {
            lemma_settled_resolved(old(world), world);
        }
        consumed
    }

    /// Commits the steps: a creature with a target stands on it afterwards,
    /// has no target left, and its brain pays the price of a move; the
    /// brain of a creature without one counts a tick of standing still.
    /// Gives the number of creatures that moved.
    pub fn process_movements(world: &mut World<usize>, brains: &mut Vec<Brain>) -> (moved: usize)
        requires
            bound(old(world), old(brains)@),
        ensures
            stepped(old(world), old(brains)@, final(world), final(brains)@),
            moved == movers(old(world).creatures@, old(brains)@.len() as int),
            at_rest(final(world)),
            placed(old(world)) && resolved(old(world)) ==> placed(final(world)),
    {
        let count: usize = world.creatures.len();
        let mut moved: usize = 0;
        let mut i: usize = 0;
        while i < count
            invariant
                count == old(world).creatures@.len(),
                bound(old(world), old(brains)@),
                i <= count,
                moved <= i,
                moved == movers(old(world).creatures@, i as int),
                world.map == old(world).map,
                world.creatures@.len() == count,
                brains@.len() == count,
                forall|k: int|
                    i <= k < count ==> (#[trigger] world.creatures@[k]) == old(
                        world,
                    ).creatures@[k],
                forall|k: int| i <= k < count ==> (#[trigger] brains@[k]) == old(brains)@[k],
                forall|k: int|
                    0 <= k < i ==> {
                        &&& (#[trigger] world.creatures@[k]).pos == old(
                            world,
                        ).creatures@[k].claim()
                        &&& world.creatures@[k].target_pos is None
                        &&& world.creatures@[k].brain == old(world).creatures@[k].brain
                        &&& world.creatures@[k].energy == old(world).creatures@[k].energy
                        &&& world.creatures@[k].memory == old(world).creatures@[k].memory
                    },
                forall|k: int|
                    0 <= k < i ==> after_tick(
                        old(brains)@[k],
                        #[trigger] brains@[k],
                        old(world).creatures@[k].target_pos is Some,
                    ),
            decreases count - i,
        {
            assert(world.creatures@[i as int] == old(world).creatures@[i as int]);
            assert(brains@[i as int] == old(brains)@[i as int]);
            match world.creatures[i].target_pos {
                Some(target) => {
                    world.creatures[i].pos = target;
                    world.creatures[i].target_pos = None;
                    brains[i].add_fitness(-MOVE_COST);
                    brains[i].time_since_move = 0;
                    moved = moved + 1;
                },
                None => {
                    brains[i].not_moved();
                },
            }
            i = i + 1;
        }
        proof {
            if placed(old(world)) && resolved(old(world)) {
                lemma_moves_keep_apart(old(world), world);
            }
        }
        moved
    }
}

/// After the claims are settled, every target that is left can be stepped
/// to.
pub proof fn lemma_settled_resolved(before: &World<usize>, after: &World<usize>)
    requires
        aimed(before),
        after.map == before.map,
        after.creatures@.len() == before.creatures@.len(),
        forall|i: int|
            0 <= i < before.creatures@.len() ==> {
                &&& (#[trigger] after.creatures@[i]).target_pos == (if keeps_target(
                    outcome_of(before, i),
                ) {
                    before.creatures@[i].target_pos
                } else {
                    None
                })
                &&& after.creatures@[i].pos == before.creatures@[i].pos
            },
    ensures
        resolved(after),
{
    let n = before.creatures@.len() as int;
    assert forall|i: int|
        0 <= i < after.creatures@.len() && (#[trigger] after.creatures@[i]).target_pos is Some implies {
        &&& after.creatures@[i].claim().in_grid()
        &&& !after.occupied(after.creatures@[i].claim())
        &&& forall|j: int|
            0 <= j < after.creatures@.len() && j != i ==> (#[trigger] after.creatures@[j]).claim()
                != after.creatures@[i].claim()
    } by {
        let creature = before.creatures@[i];
        let pt = creature.claim();
        assert(keeps_target(outcome_of(before, i)));
        assert(creature.target_pos is Some);
        assert(after.creatures@[i].claim() == pt);
        assert(pt.in_grid());
        lemma_sole_claimant(before.creatures@, pt, n, i);
        assert(claimants(before.creatures@, pt, n) == 1);
        assert(!before.occupied(pt));
        if after.occupied(pt) {
            let k = choose|k: int|
                0 <= k < after.creatures@.len() && (#[trigger] after.creatures@[k]).pos == pt;
            assert(before.creatures@[k].pos == pt);
            assert(before.occupied(pt));
        }
        assert forall|j: int| 0 <= j < after.creatures@.len() && j != i implies (
        #[trigger] after.creatures@[j]).claim() != pt by {
            let other = before.creatures@[j];
            assert(other.claim() != pt);
            assert(other.pos != pt) by {
                if other.pos == pt {
                    assert(before.occupied(pt));
                }
            }
        }
    }
}

} // verus!
