use vstd::prelude::*;

use crate::fixed::{clamp_i32, saturate_i32, SCALE};
use crate::gridworld::bearing::{bearing_cell, eye_cell};
use crate::gridworld::consts::{
    CREATURE_MEMORY_SIZE, CREATURE_START_ENERGY, EYE_CELLS_TOTAL, EYE_RANGE, INPUTS_SIZE,
    NUM_CATEGORIES, NUM_TILES, SLOTS_PER_EYE_CELL,
};
use crate::gridworld::grid_pt::{chessboard, get_points_in_range, points_in_range, GridPoint};
use crate::gridworld::tile::Tiles;
use crate::gridworld::world::{places_in_range, World};

verus! {

/// An agent on the grid. `brain` is whatever the owner of the world uses to
/// find the creature's network.
pub struct Creature<T> {
    pub memory: [i32; CREATURE_MEMORY_SIZE],
    pub energy: i64,
    pub pos: GridPoint,
    /// The tile the creature wants to step to, until the world has decided
    /// on it.
    pub target_pos: Option<GridPoint>,
    pub brain: T,
}

/// One thing in view: the cell of the eye it falls in, its category (the
/// number of its kind of tile, or [`NUM_TILES`] for a creature) and its
/// chessboard distance. What is at distance zero is not seen.
pub struct Sighting {
    pub cell: usize,
    pub category: usize,
    pub distance: u16,
}

/// How a tile at `pt` appears to an eye at `pos`.
pub open spec fn tile_sighting<T>(world: &World<T>, pos: GridPoint, pt: GridPoint) -> Sighting {
    Sighting {
        cell: bearing_cell(pos.x - pt.x, pos.y - pt.y) as usize,
        category: world.tile_at(pt).ordinal() as usize,
        distance: chessboard(pos, pt) as u16,
    }
}

/// How a creature at `place` appears to an eye at `pos`.
pub open spec fn creature_sighting(pos: GridPoint, place: GridPoint) -> Sighting {
    Sighting {
        cell: bearing_cell(pos.x - place.x, pos.y - place.y) as usize,
        category: NUM_TILES,
        distance: chessboard(pos, place) as u16,
    }
}

/// All that an eye at `pos` has in view: the tiles around it, then the
/// creatures around it.
pub open spec fn sightings<T>(world: &World<T>, pos: GridPoint) -> Seq<Sighting> {
    points_in_range(pos, EYE_RANGE).map_values(|pt: GridPoint| tile_sighting(world, pos, pt))
        + places_in_range(
        world.creatures@,
        pos,
        EYE_RANGE,
        world.creatures@.len() as int,
    ).map_values(|place: GridPoint| creature_sighting(pos, place))
}

/// The sighting belongs to the given cell and category.
pub open spec fn falls_in(sighting: Sighting, cell: int, category: int) -> bool {
    sighting.distance > 0 && sighting.cell == cell && sighting.category == category
}

/// How strongly something at the given distance is seen: the inverse of the
/// distance.
pub open spec fn nearness(distance: int) -> int {
    (SCALE as int) / distance
}

/// The greatest nearness among those of the first `n` sightings that fall in
/// the cell and category; zero where none does.
pub open spec fn nearest(seen: Seq<Sighting>, cell: int, category: int, n: int) -> int
    decreases n,
{
    if n <= 0 {
        0
    } else {
        let before = nearest(seen, cell, category, n - 1);
        if falls_in(seen[n - 1], cell, category) && nearness(seen[n - 1].distance as int)
            > before {
            nearness(seen[n - 1].distance as int)
        } else {
            before
        }
    }
}

/// How many of the first `n` sightings fall in the cell and category.
pub open spec fn how_many(seen: Seq<Sighting>, cell: int, category: int, n: int) -> int
    decreases n,
{
    if n <= 0 {
        0
    } else if falls_in(seen[n - 1], cell, category) {
        how_many(seen, cell, category, n - 1) + 1
    } else {
        how_many(seen, cell, category, n - 1)
    }
}

/// The value of one input after the first `n` sightings are taken in.
///
/// The first [`NUM_TILES`] inputs mark the kind of tile the creature stands
/// on. Then come the cells of the eye, [`SLOTS_PER_EYE_CELL`] inputs each:
/// for every category the nearness of the nearest sighting, then for every
/// category the number of sightings. The memory comes last.
pub open spec fn input_value(
    own: Tiles,
    seen: Seq<Sighting>,
    memory: Seq<i32>,
    n: int,
    slot: int,
) -> int {
    if slot < NUM_TILES {
        if slot == own.ordinal() {
            SCALE as int
        } else {
            0
        }
    } else if slot < NUM_TILES + EYE_CELLS_TOTAL * SLOTS_PER_EYE_CELL {
        let cell = (slot - NUM_TILES) / (SLOTS_PER_EYE_CELL as int);
        let part = (slot - NUM_TILES) % (SLOTS_PER_EYE_CELL as int);
        if part < NUM_CATEGORIES {
            nearest(seen, cell, part, n)
        } else {
            clamp_i32(how_many(seen, cell, part - NUM_CATEGORIES, n) * SCALE)
        }
    } else {
        memory[slot - (NUM_TILES + EYE_CELLS_TOTAL * SLOTS_PER_EYE_CELL)] as int
    }
}

/// No count is negative.
pub proof fn lemma_how_many_bounds(seen: Seq<Sighting>, cell: int, category: int, n: int)
    ensures
        0 <= how_many(seen, cell, category, n),
    decreases n,
{
    if n > 0 {
        lemma_how_many_bounds(seen, cell, category, n - 1);
    }
}

/// No nearness is negative or more than one whole.
pub proof fn lemma_nearest_bounds(seen: Seq<Sighting>, cell: int, category: int, n: int)
    ensures
        0 <= nearest(seen, cell, category, n) <= SCALE,
    decreases n,
{
    if n > 0 {
        lemma_nearest_bounds(seen, cell, category, n - 1);
        if seen[n - 1].distance > 0 {
            lemma_nearness_bounds(seen[n - 1].distance as int);
        }
    }
}

/// The nearness of a positive distance is not negative nor more than one
/// whole.
pub proof fn lemma_nearness_bounds(distance: int)
    requires
        distance > 0,
    ensures
        0 <= nearness(distance) <= SCALE,
{
    let s = SCALE as int;
    vstd::arithmetic::div_mod::lemma_fundamental_div_mod(s, distance);
    vstd::arithmetic::div_mod::lemma_mod_bound(s, distance);
    let q = s / distance;
    assert(0 <= q <= s) by (nonlinear_arith)
        requires
            distance >= 1,
            s >= 0,
            s == distance * q + s % distance,
            0 <= s % distance < distance,
    ;
}

/// Takes one sighting into the inputs: the nearness slot of its cell and
/// category keeps the greater of what it held and the sighting's nearness,
/// and the count slot grows by one whole, saturating.
pub fn note_sighting(inputs: &mut Vec<i32>, cell: usize, category: usize, distance: u16)
    requires
        old(inputs)@.len() == INPUTS_SIZE,
        cell < EYE_CELLS_TOTAL,
        category < NUM_CATEGORIES,
        distance > 0,
    ensures
        final(inputs)@.len() == INPUTS_SIZE,
        forall|slot: int|
            0 <= slot < INPUTS_SIZE ==> #[trigger] final(inputs)@[slot] == (if slot == NUM_TILES
                + cell * SLOTS_PER_EYE_CELL + category {
                if nearness(distance as int) > old(inputs)@[slot] {
                    nearness(distance as int)
                } else {
                    old(inputs)@[slot] as int
                }
            } else if slot == NUM_TILES + cell * SLOTS_PER_EYE_CELL + NUM_CATEGORIES + category {
                clamp_i32(old(inputs)@[slot] + SCALE)
            } else {
                old(inputs)@[slot] as int
            }),
{
    let base: usize = NUM_TILES + cell * SLOTS_PER_EYE_CELL;
    proof {
        lemma_nearness_bounds(distance as int);
    }
    let strength: i32 = (SCALE / distance as i64) as i32;
    if strength > inputs[base + category] {
        inputs[base + category] = strength;
    }
    let count: i32 = inputs[base + NUM_CATEGORIES + category];
    inputs[base + NUM_CATEGORIES + category] = saturate_i32(count as i128 + SCALE as i128);
}

impl<T> Creature<T> {
    pub fn new(pos: GridPoint, brain: T) -> (creature: Self)
        ensures
            creature.pos == pos,
            creature.brain == brain,
            creature.target_pos is None,
            creature.energy == CREATURE_START_ENERGY,
            forall|i: int| 0 <= i < CREATURE_MEMORY_SIZE ==> creature.memory@[i] == 0,
    {
        Self {
            memory: [0; CREATURE_MEMORY_SIZE],
            energy: CREATURE_START_ENERGY,
            pos,
            target_pos: None,
            brain,
        }
    }

    /// The tile the creature claims for the coming step: its target, or,
    /// where it has none, the tile it stands on.
    pub open spec fn claim(&self) -> GridPoint {
        match self.target_pos {
            Some(target) => target,
            None => self.pos,
        }
    }

    pub fn claimed(&self) -> (pt: GridPoint)
        ensures
            pt == self.claim(),
    {
        match self.target_pos {
            Some(target) => target,
            None => self.pos,
        }
    }

    /// The inputs that the creature's network gets in the given world.
    pub open spec fn brain_inputs(&self, world: &World<T>) -> Seq<i32> {
        Seq::new(
            INPUTS_SIZE as nat,
            |slot: int|
                input_value(
                    world.tile_at(self.pos),
                    sightings(world, self.pos),
                    self.memory@,
                    sightings(world, self.pos).len() as int,
                    slot,
                ) as i32,
        )
    }

    /// Looks around: marks the tile stood on, takes in every tile and every
    /// creature within [`EYE_RANGE`], each in the cell of the eye in which
    /// it lies, and appends the memory. The creature does not see the tile
    /// it stands on nor anything else at distance zero.
    pub fn form_brain_inputs(&self, world: &World<T>) -> (inputs: Vec<i32>)
        requires
            self.pos.in_grid(),
        ensures
            inputs@ == self.brain_inputs(world),
            forall|slot: int|
                0 <= slot < NUM_TILES + EYE_CELLS_TOTAL * SLOTS_PER_EYE_CELL ==> inputs@[slot] >= 0,
    {
        let own: Tiles = *world.index(self.pos);
        let mut inputs: Vec<i32> = Vec::new();
        let mut slot: usize = 0;
        while slot < INPUTS_SIZE
            invariant
                slot <= INPUTS_SIZE,
                inputs@.len() == slot,
                forall|s: int| 0 <= s < slot ==> #[trigger] inputs@[s] == 0,
            decreases INPUTS_SIZE - slot,
        {
            inputs.push(0);
            slot = slot + 1;
        }
        inputs[own.index()] = SCALE as i32;

        let points = get_points_in_range(self.pos, EYE_RANGE);
        let places = world.get_creatures_in_range(self.pos, EYE_RANGE);
        let ghost seen = sightings(world, self.pos);
        let ghost memory = self.memory@;
        assert(seen.len() == points@.len() + places@.len());
        assert(forall|s: int|
            0 <= s < INPUTS_SIZE ==> #[trigger] inputs@[s] == input_value(own, seen, memory, 0, s));

        let mut i: usize = 0;
        while i < points.len()
            invariant
                self.pos.in_grid(),
                own == world.tile_at(self.pos),
                memory == self.memory@,
                seen == sightings(world, self.pos),
                points@ == points_in_range(self.pos, EYE_RANGE),
                forall|pt: GridPoint| points@.contains(pt) ==> pt.in_grid(),
                places@ == places_in_range(
                    world.creatures@,
                    self.pos,
                    EYE_RANGE,
                    world.creatures@.len() as int,
                ),
                i <= points@.len(),
                inputs@.len() == INPUTS_SIZE,
                forall|s: int|
                    0 <= s < INPUTS_SIZE ==> #[trigger] inputs@[s] == input_value(
                        own,
                        seen,
                        memory,
                        i as int,
                        s,
                    ),
            decreases points@.len() - i,
        {
            let pt = points[i];
            assert(points@.contains(pt));
            let distance: u16 = self.pos.dist(pt);
            assert(seen[i as int] == tile_sighting(world, self.pos, pt));
            if distance != 0 {
                let cell: usize = eye_cell(self.pos, pt);
                let category: usize = world.index(pt).index();
                let ghost before = inputs@;
                note_sighting(&mut inputs, cell, category, distance);
                proof {
                    lemma_noted(own, seen, memory, i as int, before, inputs@);
                }
            } else {
                proof {
                    lemma_unseen(own, seen, memory, i as int);
                }
            }
            i = i + 1;
        }

        let mut j: usize = 0;
        while j < places.len()
            invariant
                own == world.tile_at(self.pos),
                memory == self.memory@,
                seen == sightings(world, self.pos),
                points@ == points_in_range(self.pos, EYE_RANGE),
                places@ == places_in_range(
                    world.creatures@,
                    self.pos,
                    EYE_RANGE,
                    world.creatures@.len() as int,
                ),
                j <= places@.len(),
                inputs@.len() == INPUTS_SIZE,
                forall|s: int|
                    0 <= s < INPUTS_SIZE ==> #[trigger] inputs@[s] == input_value(
                        own,
                        seen,
                        memory,
                        points@.len() + j,
                        s,
                    ),
            decreases places@.len() - j,
        {
            let place = places[j];
            let distance: u16 = self.pos.dist(place);
            assert(seen[points@.len() + j] == creature_sighting(self.pos, place));
            if distance != 0 {
                let cell: usize = eye_cell(self.pos, place);
                let ghost before = inputs@;
                note_sighting(&mut inputs, cell, NUM_TILES, distance);
                proof {
                    lemma_noted(own, seen, memory, points@.len() + j, before, inputs@);
                }
            } else {
                proof {
                    lemma_unseen(own, seen, memory, points@.len() + j);
                }
            }
            j = j + 1;
        }

        let mut m: usize = 0;
        while m < CREATURE_MEMORY_SIZE
            invariant
                m <= CREATURE_MEMORY_SIZE,
                memory == self.memory@,
                inputs@.len() == INPUTS_SIZE,
                forall|s: int|
                    0 <= s < INPUTS_SIZE ==> #[trigger] inputs@[s] == input_value(
                        own,
                        seen,
                        memory,
                        seen.len() as int,
                        s,
                    ) || s >= NUM_TILES + EYE_CELLS_TOTAL * SLOTS_PER_EYE_CELL + m,
            decreases CREATURE_MEMORY_SIZE - m,
        {
            inputs[NUM_TILES + EYE_CELLS_TOTAL * SLOTS_PER_EYE_CELL + m] = self.memory[m];
            m = m + 1;
        }
        proof {
            assert forall|s: int| 0 <= s < INPUTS_SIZE implies inputs@[s] == self.brain_inputs(
                world,
            )[s] by {
                lemma_input_fits(own, seen, memory, seen.len() as int, s);
            }
            assert forall|s: int|
                0 <= s < NUM_TILES + EYE_CELLS_TOTAL * SLOTS_PER_EYE_CELL implies inputs@[s]
                >= 0 by {
                lemma_input_fits(own, seen, memory, seen.len() as int, s);
            }
            assert(inputs@ =~= self.brain_inputs(world));
        }
        inputs
    }
}

/// Every input fits in 32 bits, and none of those that tell of the tile
/// underfoot and of what the eye sees is negative.
pub proof fn lemma_input_fits(own: Tiles, seen: Seq<Sighting>, memory: Seq<i32>, n: int, slot: int)
    requires
        0 <= slot < INPUTS_SIZE,
        memory.len() == CREATURE_MEMORY_SIZE,
    ensures
        i32::MIN <= input_value(own, seen, memory, n, slot) <= i32::MAX,
        slot < NUM_TILES + EYE_CELLS_TOTAL * SLOTS_PER_EYE_CELL ==> input_value(
            own,
            seen,
            memory,
            n,
            slot,
        ) >= 0,
{
    if NUM_TILES <= slot < NUM_TILES + EYE_CELLS_TOTAL * SLOTS_PER_EYE_CELL {
        let cell = (slot - NUM_TILES) / (SLOTS_PER_EYE_CELL as int);
        let part = (slot - NUM_TILES) % (SLOTS_PER_EYE_CELL as int);
        if part < NUM_CATEGORIES {
            lemma_nearest_bounds(seen, cell, part, n);
        } else {
            lemma_how_many_bounds(seen, cell, part - NUM_CATEGORIES, n);
            assert(how_many(seen, cell, part - NUM_CATEGORIES, n) * SCALE >= 0)
                by (nonlinear_arith)
                requires
                    how_many(seen, cell, part - NUM_CATEGORIES, n) >= 0,
            ;
        }
    }
}

/// A sighting at distance zero changes no input.
pub proof fn lemma_unseen(own: Tiles, seen: Seq<Sighting>, memory: Seq<i32>, n: int)
    requires
        0 <= n < seen.len(),
        seen[n].distance == 0,
    ensures
        forall|slot: int|
            0 <= slot < INPUTS_SIZE ==> #[trigger] input_value(own, seen, memory, n + 1, slot)
                == input_value(own, seen, memory, n, slot),
{
    assert forall|slot: int| 0 <= slot < INPUTS_SIZE implies #[trigger] input_value(
        own,
        seen,
        memory,
        n + 1,
        slot,
    ) == input_value(own, seen, memory, n, slot) by {
        if NUM_TILES <= slot < NUM_TILES + EYE_CELLS_TOTAL * SLOTS_PER_EYE_CELL {
            let cell = (slot - NUM_TILES) / (SLOTS_PER_EYE_CELL as int);
            let part = (slot - NUM_TILES) % (SLOTS_PER_EYE_CELL as int);
            assert(!falls_in(seen[n], cell, part));
            assert(!falls_in(seen[n], cell, part - NUM_CATEGORIES));
        }
    }
}

/// Inputs that held the values for `n` sightings hold, after sighting `n` is
/// noted, the values for `n + 1`.
pub proof fn lemma_noted(
    own: Tiles,
    seen: Seq<Sighting>,
    memory: Seq<i32>,
    n: int,
    before: Seq<i32>,
    after: Seq<i32>,
)
    requires
        0 <= n < seen.len(),
        seen[n].distance > 0,
        seen[n].cell < EYE_CELLS_TOTAL,
        seen[n].category < NUM_CATEGORIES,
        before.len() == INPUTS_SIZE,
        after.len() == INPUTS_SIZE,
        forall|slot: int|
            0 <= slot < INPUTS_SIZE ==> #[trigger] before[slot] == input_value(
                own,
                seen,
                memory,
                n,
                slot,
            ),
        forall|slot: int|
            0 <= slot < INPUTS_SIZE ==> #[trigger] after[slot] == (if slot == NUM_TILES
                + seen[n].cell * SLOTS_PER_EYE_CELL + seen[n].category {
                if nearness(seen[n].distance as int) > before[slot] {
                    nearness(seen[n].distance as int)
                } else {
                    before[slot] as int
                }
            } else if slot == NUM_TILES + seen[n].cell * SLOTS_PER_EYE_CELL + NUM_CATEGORIES
                + seen[n].category {
                clamp_i32(before[slot] + SCALE)
            } else {
                before[slot] as int
            }),
    ensures
        forall|slot: int|
            0 <= slot < INPUTS_SIZE ==> #[trigger] after[slot] == input_value(
                own,
                seen,
                memory,
                n + 1,
                slot,
            ),
{
    let at = seen[n];
    assert forall|slot: int| 0 <= slot < INPUTS_SIZE implies #[trigger] after[slot] == input_value(
        own,
        seen,
        memory,
        n + 1,
        slot,
    ) by {
        let held = before[slot];
        if NUM_TILES <= slot < NUM_TILES + EYE_CELLS_TOTAL * SLOTS_PER_EYE_CELL {
            let cell = (slot - NUM_TILES) / (SLOTS_PER_EYE_CELL as int);
            let part = (slot - NUM_TILES) % (SLOTS_PER_EYE_CELL as int);
            if part < NUM_CATEGORIES {
                assert(falls_in(at, cell, part) <==> slot == NUM_TILES + at.cell
                    * SLOTS_PER_EYE_CELL + at.category);
            } else {
                let category = part - NUM_CATEGORIES;
                assert(falls_in(at, cell, category) <==> slot == NUM_TILES + at.cell
                    * SLOTS_PER_EYE_CELL + NUM_CATEGORIES + at.category);
                lemma_how_many_bounds(seen, cell, category, n);
                let count = how_many(seen, cell, category, n);
                assert(clamp_i32(clamp_i32(count * SCALE) + SCALE) == clamp_i32((count + 1)
                    * SCALE)) by (nonlinear_arith)
                    requires
                        count >= 0,
                ;
            }
        }
    }
}

} // verus!
