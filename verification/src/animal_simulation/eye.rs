//! What an animal sees.
//!
//! The field of view, centred on the animal's heading, is cut into cells of
//! equal angle. Each cell gives four values: how near the nearest food in it
//! is, how much food there is, how near the nearest animal is, and how many
//! animals there are.

use vstd::prelude::*;

use crate::animal_simulation::config::Config;
use crate::animal_simulation::food::Food;
use crate::animal_simulation::point::{distance_squared, Point2};
use crate::fixed::{clamp, clamp_i32, floor_div, saturate_i32, SCALE};
use crate::trig::{
    arc_tangent, arc_tangent2, lemma_quotient_bounds, normal, normalize, root_of, whole_root,
};

verus! {

/// What an animal shows of itself to the others: its place, its heading,
/// its speed and its satiation.
#[derive(Copy, Clone, Debug)]
pub struct VisibleAnimal(pub Point2, pub i32, pub i32, pub usize);

/// An eye: how far it sees, how wide, and in how many cells.
#[derive(Copy, Clone, Debug, PartialEq, Eq, Structural)]
pub struct Eye {
    pub fov_range: i32,
    pub fov_angle: i32,
    pub cells: usize,
}

/// One thing of a kind (0 for food, 1 for an animal) as the eye takes it in:
/// whether it is seen at all, the cell it falls in and how strongly it shows.
pub struct Sight {
    pub seen: bool,
    pub cell: usize,
    pub kind: usize,
    pub strength: i32,
}

/// Values that each cell of the eye gives.
pub const SLOTS_PER_CELL: usize = 4;

/// The angle of the direction from `position` to `target`, counted like a
/// heading: zero along the second axis, growing toward the falling first
/// axis.
pub open spec fn direction_to(position: Point2, target: Point2) -> int {
    arc_tangent(-(target.x - position.x), target.y - position.y)
}

/// The angle between the heading and the direction to the target, between
/// minus half a turn and half a turn.
pub open spec fn bearing(position: Point2, heading: i32, target: Point2) -> int {
    normal(direction_to(position, target) - heading)
}

/// How strongly something shows whose distance has the given square: the
/// inverse of the distance, saturated to 32 bits.
pub open spec fn strength_at(squared: int) -> int {
    clamp_i32(((SCALE as int) * (SCALE as int)) / root_of(squared))
}

/// The sight is seen and belongs to the given cell and kind.
pub open spec fn falls_in(sight: Sight, cell: int, kind: int) -> bool {
    sight.seen && sight.cell == cell && sight.kind == kind
}

/// The greatest strength among those of the first `n` sights that fall in
/// the cell and kind; zero where none does.
pub open spec fn strongest(sights: Seq<Sight>, cell: int, kind: int, n: int) -> int
    decreases n,
{
    if n <= 0 {
        0
    } else {
        let before = strongest(sights, cell, kind, n - 1);
        if falls_in(sights[n - 1], cell, kind) && sights[n - 1].strength > before {
            sights[n - 1].strength as int
        } else {
            before
        }
    }
}

/// How many of the first `n` sights fall in the cell and kind.
pub open spec fn how_many(sights: Seq<Sight>, cell: int, kind: int, n: int) -> int
    decreases n,
{
    if n <= 0 {
        0
    } else if falls_in(sights[n - 1], cell, kind) {
        how_many(sights, cell, kind, n - 1) + 1
    } else {
        how_many(sights, cell, kind, n - 1)
    }
}

/// The value of one slot after the first `n` sights are taken in. Slot
/// `4 * cell + 2 * kind` holds the strength of the strongest sight of the
/// kind in the cell, and the slot after it their number.
pub open spec fn slot_value(sights: Seq<Sight>, n: int, slot: int) -> int {
    let cell = slot / (SLOTS_PER_CELL as int);
    let part = slot % (SLOTS_PER_CELL as int);
    if part % 2 == 0 {
        strongest(sights, cell, part / 2, n)
    } else {
        clamp_i32(how_many(sights, cell, part / 2, n) * SCALE)
    }
}

/// No count is negative.
pub proof fn lemma_how_many_bounds(sights: Seq<Sight>, cell: int, kind: int, n: int)
    ensures
        0 <= how_many(sights, cell, kind, n),
    decreases n,
{
    if n > 0 {
        lemma_how_many_bounds(sights, cell, kind, n - 1);
    }
}

/// A strength kept in a slot fits in 32 bits and is not negative where no
/// sight has a negative strength.
pub proof fn lemma_strongest_bounds(sights: Seq<Sight>, cell: int, kind: int, n: int)
    requires
        n <= sights.len(),
    ensures
        0 <= strongest(sights, cell, kind, n) <= i32::MAX,
    decreases n,
{
    if n > 0 {
        lemma_strongest_bounds(sights, cell, kind, n - 1);
    }
}

/// No value that the eye gives is negative, and each fits in 32 bits.
pub proof fn lemma_slot_bounds(sights: Seq<Sight>, n: int, slot: int)
    requires
        n <= sights.len(),
    ensures
        0 <= slot_value(sights, n, slot) <= i32::MAX,
{
    let cell = slot / (SLOTS_PER_CELL as int);
    let part = slot % (SLOTS_PER_CELL as int);
    lemma_strongest_bounds(sights, cell, part / 2, n);
    lemma_how_many_bounds(sights, cell, part / 2, n);
    assert(how_many(sights, cell, part / 2, n) * SCALE >= 0) by (nonlinear_arith)
        requires
            how_many(sights, cell, part / 2, n) >= 0,
    ;
}

impl Eye {
    /// What lies at the eye's own place is not seen, whatever the heading,
    /// and so adds nothing to what the eye gives.
    pub proof fn lemma_own_place_unseen(&self, position: Point2, heading: i32, kind: int)
        ensures
            !self.sight_of(position, heading, position, kind).seen,
            self.sight_of(position, heading, position, kind).strength == 0,
    {
    }

    /// The eye sees some way, over some angle of at most a full turn, in at
    /// least one cell.
    pub open spec fn wf(&self) -> bool {
        &&& self.fov_range > 0
        &&& 0 < self.fov_angle <= crate::trig::FULL_TURN
        &&& self.cells >= 1
        &&& self.cells * SLOTS_PER_CELL <= usize::MAX
    }

    /// How something at `target` appears, as a thing of the given kind, to
    /// the eye of an animal at `position` with the given heading. It is
    /// seen where it is nearer than the range, not at the animal's own
    /// place, and no further than half the field of view to either side.
    /// What is not seen has no strength.
    pub open spec fn sight_of(&self, position: Point2, heading: i32, target: Point2, kind: int) -> Sight {
        let squared = distance_squared(position, target);
        let angle = bearing(position, heading, target);
        let half = self.fov_angle / 2;
        let place = ((angle + half) * self.cells) / (self.fov_angle as int);
        let seen = 0 < squared < self.fov_range * self.fov_range && -half <= angle <= half;
        Sight {
            seen,
            cell: clamp(place, 0, self.cells - 1) as usize,
            kind: kind as usize,
            strength: (if seen {
                strength_at(squared)
            } else {
                0
            }) as i32,
        }
    }

    /// All that the eye has before it: the food, then the animals.
    pub open spec fn sights(
        &self,
        position: Point2,
        heading: i32,
        foods: Seq<Food>,
        animals: Seq<VisibleAnimal>,
    ) -> Seq<Sight> {
        foods.map_values(|food: Food| self.sight_of(position, heading, food.position, 0))
            + animals.map_values(
            |animal: VisibleAnimal| self.sight_of(position, heading, animal.0, 1),
        )
    }

    /// What the eye makes of the food and the animals.
    pub open spec fn vision(
        &self,
        position: Point2,
        heading: i32,
        foods: Seq<Food>,
        animals: Seq<VisibleAnimal>,
    ) -> Seq<i32> {
        let sights = self.sights(position, heading, foods, animals);
        Seq::new(
            (self.cells * SLOTS_PER_CELL) as nat,
            |slot: int| slot_value(sights, sights.len() as int, slot) as i32,
        )
    }

    pub fn new(config: &Config) -> (eye: Self)
        ensures
            eye.fov_range == config.eye_fov_range,
            eye.fov_angle == config.eye_fov_angle,
            eye.cells == config.eye_cells,
    {
        Self {
            fov_range: config.eye_fov_range,
            fov_angle: config.eye_fov_angle,
            cells: config.eye_cells,
        }
    }

    /// Takes in one thing.
    pub fn look(&self, position: Point2, heading: i32, target: Point2, kind: usize) -> (sight:
        Sight)
        requires
            self.wf(),
        ensures
            sight == self.sight_of(position, heading, target, kind as int),
            sight.cell < self.cells,
            sight.strength >= 0,
    {
        let squared: u128 = position.distance_squared(&target);
        let across: i64 = -(target.x as i64 - position.x as i64);
        let along: i64 = target.y as i64 - position.y as i64;
        let angle: i32 = normalize(arc_tangent2(across, along) as i64 - heading as i64);
        let half: i32 = self.fov_angle / 2;
        assert(self.fov_range * self.fov_range < 0x8000_0000 * 0x8000_0000) by (nonlinear_arith)
            requires
                0 < self.fov_range < 0x8000_0000,
        ;
        let reach: u128 = (self.fov_range as u128) * (self.fov_range as u128);
        let seen: bool = 0 < squared && squared < reach && -half <= angle && angle <= half;
        let turned: i128 = angle as i128 + half as i128;
        assert(-0x1_0000_0000 * 0x1_0000_0000_0000_0000 <= turned * self.cells <= 0x1_0000_0000
            * 0x1_0000_0000_0000_0000) by (nonlinear_arith)
            requires
                -0x1_0000_0000 <= turned <= 0x1_0000_0000,
                0 <= self.cells <= 0x1_0000_0000_0000_0000,
        ;
        let place: i128 = floor_div(turned * self.cells as i128, self.fov_angle as i128);
        let cell: usize = if place < 0 {
            0
        } else if place < self.cells as i128 - 1 {
            place as usize
        } else {
            self.cells - 1
        };
        let strength: i32 = if seen {
            let distance: u64 = whole_root(squared as u64);
            assert(distance >= 1) by {
                if distance == 0 {
                    assert((distance + 1) * (distance + 1) == 1) by (nonlinear_arith)
                        requires
                            distance == 0,
                    ;
                }
            }
            proof {
                lemma_quotient_bounds(
                    (SCALE as int) * (SCALE as int),
                    distance as int,
                    (SCALE as int) * (SCALE as int),
                );
            }
            saturate_i32((SCALE as i128 * SCALE as i128) / distance as i128)
        } else {
            0
        };
        Sight { seen, cell, kind, strength }
    }

    /// Looks at all the food and all the animals. An animal at the eye's
    /// own place, which is the one that looks, is not seen.
    pub fn process_vision(
        &self,
        position: Point2,
        rotation: i32,
        foods: &Vec<Food>,
        animals: &Vec<VisibleAnimal>,
    ) -> (cells: Vec<i32>)
        requires
            self.wf(),
        ensures
            cells@ == self.vision(position, rotation, foods@, animals@),
            forall|slot: int| 0 <= slot < cells@.len() ==> cells@[slot] >= 0,
    {
        let slots: usize = self.cells * SLOTS_PER_CELL;
        let mut cells: Vec<i32> = Vec::new();
        let mut slot: usize = 0;
        while slot < slots
            invariant
                slot <= slots,
                cells@.len() == slot,
                forall|s: int| 0 <= s < slot ==> #[trigger] cells@[s] == 0,
            decreases slots - slot,
        {
            cells.push(0);
            slot = slot + 1;
        }
        let ghost sights = self.sights(position, rotation, foods@, animals@);
        assert(sights.len() == foods@.len() + animals@.len());
        let mut i: usize = 0;
        while i < foods.len()
            invariant
                self.wf(),
                slots == self.cells * SLOTS_PER_CELL,
                sights == self.sights(position, rotation, foods@, animals@),
                i <= foods@.len(),
                cells@.len() == slots,
                forall|s: int|
                    0 <= s < slots ==> #[trigger] cells@[s] == slot_value(sights, i as int, s),
            decreases foods@.len() - i,
        {
            let sight = self.look(position, rotation, foods[i].position, 0);
            assert(sights[i as int] == sight);
            let ghost before = cells@;
            note_sight(&mut cells, self.cells, &sight);
            proof {
                lemma_noted(sights, i as int, self.cells as int, before, cells@);
            }
            i = i + 1;
        }
        let mut j: usize = 0;
        while j < animals.len()
            invariant
                self.wf(),
                slots == self.cells * SLOTS_PER_CELL,
                sights == self.sights(position, rotation, foods@, animals@),
                j <= animals@.len(),
                cells@.len() == slots,
                forall|s: int|
                    0 <= s < slots ==> #[trigger] cells@[s] == slot_value(
                        sights,
                        foods@.len() + j,
                        s,
                    ),
            decreases animals@.len() - j,
        {
            let sight = self.look(position, rotation, animals[j].0, 1);
            assert(sights[foods@.len() + j] == sight);
            let ghost before = cells@;
            note_sight(&mut cells, self.cells, &sight);
            proof {
                lemma_noted(sights, foods@.len() + j, self.cells as int, before, cells@);
            }
            j = j + 1;
        }
        proof {
            assert forall|s: int| 0 <= s < slots implies cells@[s] == self.vision(
                position,
                rotation,
                foods@,
                animals@,
            )[s] && cells@[s] >= 0 by {
                lemma_slot_bounds(sights, sights.len() as int, s);
            }
            assert(cells@ =~= self.vision(position, rotation, foods@, animals@));
        }
        cells
    }
}

/// Takes one sight into the cells' values: where it is seen, the strength
/// slot of its cell and kind keeps the greater of what it held and the
/// sight's strength, and the count slot grows by one whole, saturating.
pub fn note_sight(cells: &mut Vec<i32>, count: usize, sight: &Sight)
    requires
        old(cells)@.len() == count * SLOTS_PER_CELL,
        sight.cell < count,
        sight.kind < 2,
    ensures
        final(cells)@.len() == old(cells)@.len(),
        forall|slot: int|
            0 <= slot < old(cells)@.len() ==> #[trigger] final(cells)@[slot] == (if sight.seen
                && slot == sight.cell * SLOTS_PER_CELL + 2 * sight.kind {
                if sight.strength > old(cells)@[slot] {
                    sight.strength as int
                } else {
                    old(cells)@[slot] as int
                }
            } else if sight.seen && slot == sight.cell * SLOTS_PER_CELL + 2 * sight.kind + 1 {
                clamp_i32(old(cells)@[slot] + SCALE)
            } else {
                old(cells)@[slot] as int
            }),
{
    if sight.seen {
        let total: usize = cells.len();
        assert(sight.cell * SLOTS_PER_CELL + 4 <= count * SLOTS_PER_CELL) by (nonlinear_arith)
            requires
                sight.cell < count,
        ;
        assert(sight.cell * 4 + 4 <= total);
        let base: usize = sight.cell * SLOTS_PER_CELL + 2 * sight.kind;
        if sight.strength > cells[base] {
            cells[base] = sight.strength;
        }
        let held: i32 = cells[base + 1];
        cells[base + 1] = saturate_i32(held as i128 + SCALE as i128);
    }
}

/// Cells that held the values for `n` sights hold, after sight `n` is
/// noted, the values for `n + 1`.
pub proof fn lemma_noted(sights: Seq<Sight>, n: int, count: int, before: Seq<i32>, after: Seq<i32>)
    requires
        0 <= n < sights.len(),
        sights[n].cell < count,
        sights[n].kind < 2,
        before.len() == count * SLOTS_PER_CELL,
        after.len() == before.len(),
        forall|slot: int|
            0 <= slot < before.len() ==> #[trigger] before[slot] == slot_value(sights, n, slot),
        forall|slot: int|
            0 <= slot < before.len() ==> #[trigger] after[slot] == (if sights[n].seen && slot
                == sights[n].cell * SLOTS_PER_CELL + 2 * sights[n].kind {
                if sights[n].strength > before[slot] {
                    sights[n].strength as int
                } else {
                    before[slot] as int
                }
            } else if sights[n].seen && slot == sights[n].cell * SLOTS_PER_CELL + 2
                * sights[n].kind + 1 {
                clamp_i32(before[slot] + SCALE)
            } else {
                before[slot] as int
            }),
    ensures
        forall|slot: int|
            0 <= slot < before.len() ==> #[trigger] after[slot] == slot_value(sights, n + 1, slot),
{
    let at = sights[n];
    assert forall|slot: int| 0 <= slot < before.len() implies #[trigger] after[slot] == slot_value(
        sights,
        n + 1,
        slot,
    ) by {
        let held = before[slot];
        let cell = slot / (SLOTS_PER_CELL as int);
        let part = slot % (SLOTS_PER_CELL as int);
        let kind = part / 2;
        if part % 2 == 0 {
            assert(falls_in(at, cell, kind) <==> at.seen && slot == at.cell * SLOTS_PER_CELL + 2
                * at.kind);
        } else {
            assert(falls_in(at, cell, kind) <==> at.seen && slot == at.cell * SLOTS_PER_CELL + 2
                * at.kind + 1);
            lemma_how_many_bounds(sights, cell, kind, n);
            let number = how_many(sights, cell, kind, n);
            assert(clamp_i32(clamp_i32(number * SCALE) + SCALE) == clamp_i32((number + 1) * SCALE))
                by (nonlinear_arith)
                requires
                    number >= 0,
            ;
        }
    }
}

} // verus!
