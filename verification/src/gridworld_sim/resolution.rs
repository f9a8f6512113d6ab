//! How the claims that creatures make on tiles are settled.
//!
//! Every creature claims one tile: the one it wants to step to or, where it
//! wants to stay, the one it stands on. All claims are settled from the
//! world as it stands before any of them is.

use std::collections::HashSet;
use vstd::prelude::*;

use crate::gridworld::consts::{
    BUMP_ENERGY_LOSS, FOOD_ENERGY_GAIN, HAZARD_ENERGY_LOSS, WALL_ENERGY_LOSS,
};
use crate::gridworld::creature::Creature;
use crate::gridworld::grid_pt::GridPoint;
use crate::gridworld::tile::Tiles;
use crate::gridworld::world::World;

verus! {

broadcast use vstd::std_specs::hash::group_hash_axioms;

/// How the claim of one creature is settled.
#[derive(Copy, Clone, Debug, PartialEq, Eq, Structural)]
pub enum Outcome {
    /// Other creatures claim the tile too: all of them bump, none moves, and
    /// what the tile gives or takes is shared.
    Crowded { tile: Tiles, claimants: usize },
    /// The creature alone claims the tile and wants to step there, but a
    /// creature stands on it: a double bump, and no move.
    Blocked,
    /// The creature alone claims the tile, and nothing is in its way.
    Alone { tile: Tiles },
}

/// How many of the first `n` creatures claim the point.
pub open spec fn claimants<T>(creatures: Seq<Creature<T>>, pt: GridPoint, n: int) -> int
    decreases n,
{
    if n <= 0 {
        0
    } else if creatures[n - 1].claim() == pt {
        claimants(creatures, pt, n - 1) + 1
    } else {
        claimants(creatures, pt, n - 1)
    }
}

/// How the claim of creature `i` is settled.
pub open spec fn outcome_of<T>(world: &World<T>, i: int) -> Outcome {
    let creature = world.creatures@[i];
    let count = claimants(world.creatures@, creature.claim(), world.creatures@.len() as int);
    if count > 1 {
        Outcome::Crowded { tile: world.tile_at(creature.claim()), claimants: count as usize }
    } else if creature.target_pos is Some && world.occupied(creature.claim()) {
        Outcome::Blocked
    } else {
        Outcome::Alone { tile: world.tile_at(creature.claim()) }
    }
}

/// What a tile gives to, or takes from, a creature that claims it alone.
pub open spec fn tile_effect(tile: Tiles) -> int {
    match tile {
        Tiles::EnergyGain => FOOD_ENERGY_GAIN as int,
        Tiles::EnergyLoss => -HAZARD_ENERGY_LOSS,
        Tiles::Wall => -WALL_ENERGY_LOSS,
        Tiles::Floor => 0,
    }
}

/// What a tile gives to, or takes from, each of several creatures that claim
/// it: what it would give or take, divided by their number plus one and
/// rounded toward zero.
pub open spec fn shared_effect(tile: Tiles, claimants: int) -> int {
    match tile {
        Tiles::EnergyGain => (FOOD_ENERGY_GAIN as int) / (claimants + 1),
        Tiles::EnergyLoss => -((HAZARD_ENERGY_LOSS as int) / (claimants + 1)),
        Tiles::Wall => -((WALL_ENERGY_LOSS as int) / (claimants + 1)),
        Tiles::Floor => 0,
    }
}

/// What the outcome adds to the creature's fitness.
pub open spec fn fitness_change(outcome: Outcome) -> int {
    match outcome {
        Outcome::Crowded { tile, claimants } => -BUMP_ENERGY_LOSS + shared_effect(
            tile,
            claimants as int,
        ),
        Outcome::Blocked => -2 * BUMP_ENERGY_LOSS,
        Outcome::Alone { tile } => tile_effect(tile),
    }
}

/// The creature keeps its target, if it has one: it claims the tile alone,
/// nothing is in its way, and the tile is no wall.
pub open spec fn keeps_target(outcome: Outcome) -> bool {
    outcome matches Outcome::Alone { tile } && tile != Tiles::Wall
}

/// The creature eats the food of the tile it claims.
pub open spec fn feeds(outcome: Outcome) -> bool {
    outcome == (Outcome::Alone { tile: Tiles::EnergyGain })
}

/// The tiles whose food the first `n` creatures eat, in the creatures' order.
pub open spec fn eaten<T>(world: &World<T>, n: int) -> Seq<GridPoint>
    decreases n,
{
    if n <= 0 {
        Seq::empty()
    } else if feeds(outcome_of(world, n - 1)) {
        eaten(world, n - 1).push(world.creatures@[n - 1].claim())
    } else {
        eaten(world, n - 1)
    }
}

/// The change of fitness that an outcome brings.
pub fn change_for(outcome: Outcome) -> (change: i64)
    ensures
        change == fitness_change(outcome),
{
    match outcome {
        Outcome::Crowded { tile, claimants } => {
            let count: i128 = claimants as i128;
            let shared: i128 = match tile {
                Tiles::EnergyGain => FOOD_ENERGY_GAIN as i128 / (count + 1),
                Tiles::EnergyLoss => -(HAZARD_ENERGY_LOSS as i128 / (count + 1)),
                Tiles::Wall => -(WALL_ENERGY_LOSS as i128 / (count + 1)),
                Tiles::Floor => 0,
            };
            proof {
                lemma_share(FOOD_ENERGY_GAIN as int, count + 1);
                lemma_share(HAZARD_ENERGY_LOSS as int, count + 1);
                lemma_share(WALL_ENERGY_LOSS as int, count + 1);
            }
            (shared - BUMP_ENERGY_LOSS as i128) as i64
        },
        Outcome::Blocked => -2 * BUMP_ENERGY_LOSS,
        Outcome::Alone { tile } => match tile {
            Tiles::EnergyGain => FOOD_ENERGY_GAIN,
            Tiles::EnergyLoss => -HAZARD_ENERGY_LOSS,
            Tiles::Wall => -WALL_ENERGY_LOSS,
            Tiles::Floor => 0,
        },
    }
}

/// A share of a non-negative amount is not negative nor more than the
/// amount.
pub proof fn lemma_share(amount: int, parts: int)
    requires
        amount >= 0,
        parts >= 1,
    ensures
        0 <= amount / parts <= amount,
{
    vstd::arithmetic::div_mod::lemma_fundamental_div_mod(amount, parts);
    vstd::arithmetic::div_mod::lemma_mod_bound(amount, parts);
    let q = amount / parts;
    assert(0 <= q <= amount) by (nonlinear_arith)
        requires
            parts >= 1,
            amount >= 0,
            amount == parts * q + amount % parts,
            0 <= amount % parts < parts,
    ;
}

/// The count of claimants lies between zero and the number of creatures
/// counted.
pub proof fn lemma_claimants_bounds<T>(creatures: Seq<Creature<T>>, pt: GridPoint, n: int)
    requires
        0 <= n,
    ensures
        0 <= claimants(creatures, pt, n) <= n,
    decreases n,
{
    if n > 0 {
        lemma_claimants_bounds(creatures, pt, n - 1);
    }
}

/// A creature that claims a tile is counted among the tile's claimants, and
/// where the count is one, no other creature claims the tile.
pub proof fn lemma_sole_claimant<T>(creatures: Seq<Creature<T>>, pt: GridPoint, n: int, i: int)
    requires
        0 <= i < n <= creatures.len(),
        creatures[i].claim() == pt,
    ensures
        claimants(creatures, pt, n) >= 1,
        claimants(creatures, pt, n) == 1 ==> forall|j: int|
            0 <= j < n && j != i ==> (#[trigger] creatures[j]).claim() != pt,
    decreases n,
{
    lemma_claimants_bounds(creatures, pt, n - 1);
    if i < n - 1 {
        lemma_sole_claimant(creatures, pt, n - 1, i);
    } else {
        if claimants(creatures, pt, n) == 1 {
            assert(claimants(creatures, pt, n - 1) == 0);
            assert forall|j: int| 0 <= j < n - 1 implies (#[trigger] creatures[j]).claim()
                != pt by {
                if creatures[j].claim() == pt {
                    lemma_sole_claimant(creatures, pt, n - 1, j);
                }
            }
        }
    }
}

/// Counts the creatures that claim the point.
pub fn count_claimants<T>(world: &World<T>, pt: GridPoint) -> (count: usize)
    ensures
        count == claimants(world.creatures@, pt, world.creatures@.len() as int),
{
    let mut count: usize = 0;
    let mut j: usize = 0;
    while j < world.creatures.len()
        invariant
            j <= world.creatures@.len(),
            count <= j,
            count == claimants(world.creatures@, pt, j as int),
        decreases world.creatures@.len() - j,
    {
        if world.creatures[j].claimed() == pt {
            count = count + 1;
        }
        j = j + 1;
    }
    count
}

/// The number under which a point is kept in a set of points: its column
/// and row, side by side.
pub open spec fn key_of(pt: GridPoint) -> u32 {
    (pt.x * 0x1_0000 + pt.y) as u32
}

/// The number under which a point is kept in a set of points.
pub fn key(pt: GridPoint) -> (key: u32)
    ensures
        key == key_of(pt),
{
    pt.x as u32 * 0x1_0000 + pt.y as u32
}

/// The set holds the points, by their numbers, on which creatures of the
/// world stand, and no others.
pub open spec fn holds_occupied<T>(occupied: Set<u32>, world: &World<T>) -> bool {
    forall|pt: GridPoint| occupied.contains(key_of(pt)) <==> world.occupied(pt)
}

/// The points on which creatures stand.
pub fn occupied_points<T>(world: &World<T>) -> (occupied: HashSet<u32>)
    ensures
        holds_occupied(occupied@, world),
{
    let mut occupied: HashSet<u32> = HashSet::new();
    let mut i: usize = 0;
    while i < world.creatures.len()
        invariant
            i <= world.creatures@.len(),
            forall|pt: GridPoint|
                occupied@.contains(key_of(pt)) <==> exists|k: int|
                    0 <= k < i && (#[trigger] world.creatures@[k]).pos == pt,
        decreases world.creatures@.len() - i,
    {
        let ghost before = occupied@;
        let place = world.creatures[i].pos;
        occupied.insert(key(place));
        proof {
            assert forall|pt: GridPoint| occupied@.contains(key_of(pt)) <==> exists|k: int|
                0 <= k < i + 1 && (#[trigger] world.creatures@[k]).pos == pt by {
                if pt == place {
                    assert(world.creatures@[i as int].pos == pt);
                } else {
                    assert(key_of(pt) != key_of(place));
                    if before.contains(key_of(pt)) {
                        let k = choose|k: int|
                            0 <= k < i && (#[trigger] world.creatures@[k]).pos == pt;
                        assert(world.creatures@[k].pos == pt);
                    }
                }
            }
        }
        i = i + 1;
    }
    occupied
}

/// Settles the claim of creature `i`, given the points on which creatures
/// stand.
pub fn settle<T>(world: &World<T>, i: usize, occupied: &HashSet<u32>) -> (outcome: Outcome)
    requires
        i < world.creatures@.len(),
        world.creatures@[i as int].claim().in_grid(),
        holds_occupied(occupied@, world),
    ensures
        outcome == outcome_of(world, i as int),
        outcome matches Outcome::Crowded { claimants, .. } ==> claimants >= 2,
{
    let pt = world.creatures[i].claimed();
    let count = count_claimants(world, pt);
    if count > 1 {
        Outcome::Crowded { tile: *world.index(pt), claimants: count }
    } else if world.creatures[i].target_pos.is_some() && occupied.contains(&key(pt)) {
        Outcome::Blocked
    } else {
        Outcome::Alone { tile: *world.index(pt) }
    }
}

} // verus!
