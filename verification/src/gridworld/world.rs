use rand::rngs::StdRng;
use vstd::prelude::*;

use crate::gridworld::consts::{FREE_POINT_ATTEMPTS, GRID_AREA, GRID_WIDTH};
use crate::gridworld::creature::Creature;
use crate::gridworld::grid_pt::{chessboard, GridPoint};
use crate::gridworld::tile::Tiles;

verus! {

/// Why a world on the grid could not be made or changed.
#[derive(Copy, Clone, Debug, PartialEq, Eq, Structural)]
pub enum GridError {
    /// No free tile was found in the number of attempts allowed.
    NoFreePoint,
    /// The operating system gave no seed for a generator.
    NoEntropy,
}

/// The grid of tiles and the creatures on it. The tile of the point
/// `(x, y)` is stored at `x * GRID_WIDTH + y`.
pub struct World<T> {
    pub map: [Tiles; GRID_AREA],
    pub creatures: Vec<Creature<T>>,
}

/// The point lies on the outer ring of the grid.
pub open spec fn on_border(pt: GridPoint) -> bool {
    pt.x == 0 || pt.y == 0 || pt.x == GRID_WIDTH - 1 || pt.y == GRID_WIDTH - 1
}

/// The places, among the first `n` creatures and in their order, of those
/// that are not at `pos` itself and no further from it than `max_range`.
pub open spec fn places_in_range<T>(
    creatures: Seq<Creature<T>>,
    pos: GridPoint,
    max_range: u16,
    n: int,
) -> Seq<GridPoint>
    decreases n,
{
    if n <= 0 {
        Seq::empty()
    } else {
        let before = places_in_range(creatures, pos, max_range, n - 1);
        let place = creatures[n - 1].pos;
        if 0 < chessboard(pos, place) <= max_range {
            before.push(place)
        } else {
            before
        }
    }
}

/// The place of a point of the grid in the row of all tiles.
pub fn offset_of(pt: GridPoint) -> (offset: usize)
    requires
        pt.in_grid(),
    ensures
        offset == pt.offset(),
        offset < GRID_AREA,
{
    let column: usize = pt.x as usize;
    let row: usize = pt.y as usize;
    assert(column < 64 && row < 64);
    column * 64 + row
}

impl<T> World<T> {
    /// The tile at a point of the grid.
    pub open spec fn tile_at(&self, pt: GridPoint) -> Tiles {
        self.map@[pt.offset()]
    }

    /// Some creature stands on the point.
    pub open spec fn occupied(&self, pt: GridPoint) -> bool {
        exists|i: int| 0 <= i < self.creatures@.len() && (#[trigger] self.creatures@[i]).pos == pt
    }

    /// The point is a floor tile of the grid on which no creature stands.
    pub open spec fn free(&self, pt: GridPoint) -> bool {
        pt.in_grid() && self.tile_at(pt) == Tiles::Floor && !self.occupied(pt)
    }

    /// `found` is what a search through the points `tried`, in their order,
    /// comes to: the first of them that is free, which ends the search, or
    /// nothing once [`FREE_POINT_ATTEMPTS`] points were tried and none was
    /// free.
    pub open spec fn searched(&self, tried: Seq<GridPoint>, found: Option<GridPoint>) -> bool {
        &&& tried.len() <= FREE_POINT_ATTEMPTS
        &&& forall|i: int| 0 <= i < tried.len() ==> (#[trigger] tried[i]).in_grid()
        &&& match found {
            Some(pt) => {
                &&& tried.len() >= 1
                &&& tried[tried.len() - 1] == pt
                &&& self.free(pt)
                &&& forall|i: int| 0 <= i < tried.len() - 1 ==> !self.free(#[trigger] tried[i])
            },
            None => {
                &&& tried.len() == FREE_POINT_ATTEMPTS
                &&& forall|i: int| 0 <= i < tried.len() ==> !self.free(#[trigger] tried[i])
            },
        }
    }

    /// Every point of the grid is free.
    pub open spec fn all_free(&self) -> bool {
        forall|pt: GridPoint| pt.in_grid() ==> #[trigger] self.free(pt)
    }

    /// How many tiles of the grid are of the given kind.
    pub open spec fn tile_count(&self, tile: Tiles) -> nat {
        self.map@.to_multiset().count(tile)
    }

    /// A kind of tile that no point of the grid holds is counted zero times.
    pub proof fn lemma_none_of(&self, tile: Tiles)
        requires
            forall|pt: GridPoint| pt.in_grid() ==> #[trigger] self.tile_at(pt) != tile,
        ensures
            self.tile_count(tile) == 0,
    {
        vstd::seq_lib::to_multiset_contains(self.map@, tile);
        if self.map@.contains(tile) {
            let at = choose|at: int| 0 <= at < self.map@.len() && self.map@[at] == tile;
            let pt = GridPoint { x: (at / 64) as u16, y: (at % 64) as u16 };
            assert(pt.in_grid());
            assert(pt.offset() == at);
            assert(self.tile_at(pt) == tile);
        }
    }

    /// Every tile of the outer ring is a wall.
    pub open spec fn walled(&self) -> bool {
        forall|pt: GridPoint|
            pt.in_grid() && on_border(pt) ==> #[trigger] self.tile_at(pt) == Tiles::Wall
    }

    /// Whether every tile of the outer ring is a wall.
    pub fn is_walled(&self) -> (ok: bool)
        ensures
            ok == self.walled(),
    {
        let last: u16 = GRID_WIDTH - 1;
        let mut k: u16 = 0;
        while k < GRID_WIDTH
            invariant
                last == GRID_WIDTH - 1,
                k <= GRID_WIDTH,
                forall|pt: GridPoint|
                    pt.in_grid() && on_border(pt) && (pt.x < k && (pt.y == 0 || pt.y == last)
                        || pt.y < k && (pt.x == 0 || pt.x == last)) ==> #[trigger] self.tile_at(pt)
                        == Tiles::Wall,
            decreases GRID_WIDTH - k,
        {
            let ring = [
                GridPoint { x: k, y: 0 },
                GridPoint { x: k, y: last },
                GridPoint { x: 0, y: k },
                GridPoint { x: last, y: k },
            ];
            let mut m: usize = 0;
            while m < 4
                invariant
                    m <= 4,
                    last == GRID_WIDTH - 1,
                    k < GRID_WIDTH,
                    ring@.len() == 4,
                    ring@[0] == (GridPoint { x: k, y: 0 }),
                    ring@[1] == (GridPoint { x: k, y: last }),
                    ring@[2] == (GridPoint { x: 0, y: k }),
                    ring@[3] == (GridPoint { x: last, y: k }),
                    forall|n: int| 0 <= n < m ==> self.tile_at(#[trigger] ring@[n]) == Tiles::Wall,
                decreases 4 - m,
            {
                let pt = ring[m];
                if !matches!(*self.index(pt), Tiles::Wall) {
                    assert(pt.in_grid() && on_border(pt));
                    return false;
                }
                m = m + 1;
            }
            proof {
                assert(self.tile_at(ring@[0]) == Tiles::Wall);
                assert(self.tile_at(ring@[1]) == Tiles::Wall);
                assert(self.tile_at(ring@[2]) == Tiles::Wall);
                assert(self.tile_at(ring@[3]) == Tiles::Wall);
                assert forall|pt: GridPoint|
                    pt.in_grid() && on_border(pt) && (pt.x < k + 1 && (pt.y == 0 || pt.y == last)
                        || pt.y < k + 1 && (pt.x == 0 || pt.x == last)) implies #[trigger] self.tile_at(
                    pt,
                ) == Tiles::Wall by {
                    if pt.x == k && pt.y == 0 {
                        assert(pt == ring@[0]);
                    } else if pt.x == k && pt.y == last {
                        assert(pt == ring@[1]);
                    } else if pt.y == k && pt.x == 0 {
                        assert(pt == ring@[2]);
                    } else if pt.y == k && pt.x == last {
                        assert(pt == ring@[3]);
                    }
                }
            }
            k = k + 1;
        }
        true
    }

    /// The tile at a point of the grid.
    pub fn index(&self, index: GridPoint) -> (tile: &Tiles)
        requires
            index.in_grid(),
        ensures
            *tile == self.tile_at(index),
    {
        &self.map[offset_of(index)]
    }

    pub fn new(map: [Tiles; GRID_AREA]) -> (world: Self)
        ensures
            world.map == map,
            world.creatures@.len() == 0,
    {
        Self { map, creatures: Vec::new() }
    }

    /// A world of floor tiles without creatures.
    pub fn default() -> (world: Self)
        ensures
            forall|i: int| 0 <= i < GRID_AREA ==> world.map@[i] == Tiles::Floor,
            world.creatures@.len() == 0,
    {
        Self::filled_with(Tiles::Floor)
    }

    pub fn filled_with(tile: Tiles) -> (world: Self)
        ensures
            forall|i: int| 0 <= i < GRID_AREA ==> world.map@[i] == tile,
            world.creatures@.len() == 0,
    {
        Self { map: [tile; GRID_AREA], creatures: Vec::new() }
    }

    /// Puts the tile on the whole outer ring of the grid.
    pub fn set_border(&mut self, tile: Tiles)
        ensures
            final(self).creatures == old(self).creatures,
            forall|pt: GridPoint|
                pt.in_grid() ==> #[trigger] final(self).tile_at(pt) == (if on_border(pt) {
                    tile
                } else {
                    old(self).tile_at(pt)
                }),
    {
        let last: u16 = GRID_WIDTH - 1;
        let mut x: u16 = 0;
        while x < GRID_WIDTH
            invariant
                last == GRID_WIDTH - 1,
                x <= GRID_WIDTH,
                self.creatures == old(self).creatures,
                forall|pt: GridPoint|
                    pt.in_grid() ==> #[trigger] self.tile_at(pt) == (if pt.x < x && (pt.y == 0
                        || pt.y == last) {
                        tile
                    } else {
                        old(self).tile_at(pt)
                    }),
            decreases GRID_WIDTH - x,
        {
            let ghost before = *self;
            self.set(GridPoint { x, y: 0 }, tile);
            self.set(GridPoint { x, y: last }, tile);
            proof {
                assert forall|pt: GridPoint| pt.in_grid() implies #[trigger] self.tile_at(pt) == (
                if pt.x < x + 1 && (pt.y == 0 || pt.y == last) {
                    tile
                } else {
                    old(self).tile_at(pt)
                }) by {
                    let earlier = before.tile_at(pt);
                }
            }
            x = x + 1;
        }
        let mut y: u16 = 1;
        while y < last
            invariant
                last == GRID_WIDTH - 1,
                1 <= y <= last,
                self.creatures == old(self).creatures,
                forall|pt: GridPoint|
                    pt.in_grid() ==> #[trigger] self.tile_at(pt) == (if pt.y == 0 || pt.y == last
                        || (pt.y < y && (pt.x == 0 || pt.x == last)) {
                        tile
                    } else {
                        old(self).tile_at(pt)
                    }),
            decreases last - y,
        {
            let ghost before = *self;
            self.set(GridPoint { x: 0, y }, tile);
            self.set(GridPoint { x: last, y }, tile);
            proof {
                assert forall|pt: GridPoint| pt.in_grid() implies #[trigger] self.tile_at(pt) == (
                if pt.y == 0 || pt.y == last || (pt.y < y + 1 && (pt.x == 0 || pt.x == last)) {
                    tile
                } else {
                    old(self).tile_at(pt)
                }) by {
                    let earlier = before.tile_at(pt);
                }
            }
            y = y + 1;
        }
    }

    /// Whether some creature stands on the point.
    pub fn is_occupied(&self, pt: GridPoint) -> (occupied: bool)
        ensures
            occupied == self.occupied(pt),
    {
        let mut i: usize = 0;
        while i < self.creatures.len()
            invariant
                i <= self.creatures@.len(),
                forall|k: int| 0 <= k < i ==> (#[trigger] self.creatures@[k]).pos != pt,
            decreases self.creatures@.len() - i,
        {
            if self.creatures[i].pos == pt {
                return true;
            }
            i = i + 1;
        }
        false
    }

    /// Whether the point is a floor tile on which no creature stands.
    pub fn is_free(&self, pt: GridPoint) -> (free: bool)
        requires
            pt.in_grid(),
        ensures
            free == self.free(pt),
    {
        matches!(*self.index(pt), Tiles::Floor) && !self.is_occupied(pt)
    }

    /// Tries random points of the grid until one is free, at most
    /// [`FREE_POINT_ATTEMPTS`] times. Chance decides whether a free point
    /// is hit, but for a grid on which every point is free: there the first
    /// point tried is found.
    pub fn get_random_free_pt(&self, rng: &mut StdRng) -> (found: Option<GridPoint>)
        ensures
            found matches Some(pt) ==> self.free(pt),
            self.all_free() ==> found is Some,
            exists|tried: Seq<GridPoint>| #[trigger] self.searched(tried, found),
    {
        let mut attempts: usize = 0;
        let ghost mut tried: Seq<GridPoint> = Seq::empty();
        while attempts < FREE_POINT_ATTEMPTS
            invariant
                attempts <= FREE_POINT_ATTEMPTS,
                attempts > 0 ==> !self.all_free(),
                tried.len() == attempts,
                forall|i: int|
                    0 <= i < tried.len() ==> (#[trigger] tried[i]).in_grid() && !self.free(
                        tried[i],
                    ),
            decreases FREE_POINT_ATTEMPTS - attempts,
        {
            let pt = GridPoint::rand(rng);
            if self.is_free(pt) {
                assert(self.searched(tried.push(pt), Some(pt)));
                return Some(pt);
            }
            proof {
                tried = tried.push(pt);
            }
            attempts = attempts + 1;
        }
        assert(self.searched(tried, None));
        None
    }

    /// Puts the tile on `amount` free points, found one after the other. On
    /// an error the tiles placed before it stay.
    pub fn spread_random_tile(&mut self, tile: Tiles, amount: usize, rng: &mut StdRng) -> (done:
        Result<(), GridError>)
        ensures
            final(self).creatures == old(self).creatures,
            forall|pt: GridPoint|
                pt.in_grid() ==> #[trigger] final(self).tile_at(pt) == old(self).tile_at(pt) || (
                old(self).free(pt) && final(self).tile_at(pt) == tile),
            amount == 0 ==> done is Ok,
            done matches Err(error) ==> error == GridError::NoFreePoint,
            done is Ok && tile != Tiles::Floor ==> final(self).tile_count(tile) == old(
                self,
            ).tile_count(tile) + amount,
            done is Ok && tile != Tiles::Floor ==> final(self).tile_count(Tiles::Floor) + amount
                == old(self).tile_count(Tiles::Floor),
            forall|other: Tiles|
                other != tile && other != Tiles::Floor ==> #[trigger] final(self).tile_count(other)
                    == old(self).tile_count(other),
    {
        let mut placed: usize = 0;
        while placed < amount
            invariant
                placed <= amount,
                self.creatures == old(self).creatures,
                forall|pt: GridPoint|
                    pt.in_grid() ==> #[trigger] self.tile_at(pt) == old(self).tile_at(pt) || (old(
                        self,
                    ).free(pt) && self.tile_at(pt) == tile),
                tile != Tiles::Floor ==> self.tile_count(tile) == old(self).tile_count(tile)
                    + placed,
                tile != Tiles::Floor ==> self.tile_count(Tiles::Floor) + placed == old(
                    self,
                ).tile_count(Tiles::Floor),
                forall|other: Tiles|
                    other != tile && other != Tiles::Floor ==> #[trigger] self.tile_count(other)
                        == old(self).tile_count(other),
            decreases amount - placed,
        {
            match self.get_random_free_pt(rng) {
                Some(pt) => {
                    let ghost before = self.map@;
                    let ghost earlier = *self;
                    assert(self.tile_at(pt) == Tiles::Floor);
                    assert(old(self).tile_at(pt) == Tiles::Floor);
                    assert(old(self).free(pt)) by {
                        assert(self.occupied(pt) == old(self).occupied(pt));
                    }
                    self.set(pt, tile);
                    proof {
                        assert forall|q: GridPoint| q.in_grid() implies #[trigger] self.tile_at(q)
                            == old(self).tile_at(q) || (old(self).free(q) && self.tile_at(q)
                            == tile) by {
                            let was = earlier.tile_at(q);
                        }
                        assert forall|other: Tiles|
                            other != tile && other != Tiles::Floor implies #[trigger] self.tile_count(
                            other,
                        ) == old(self).tile_count(other) by {
                            vstd::seq_lib::to_multiset_update(before, pt.offset(), tile);
                            assert(self.map@.to_multiset() == before.to_multiset().insert(
                                tile,
                            ).remove(Tiles::Floor));
                            assert(earlier.tile_count(other) == old(self).tile_count(other));
                            assert(before.to_multiset().insert(tile).remove(Tiles::Floor).count(
                                other,
                            ) == before.to_multiset().count(other));
                        }
                        vstd::seq_lib::to_multiset_update(before, pt.offset(), tile);
                        assert(before[pt.offset()] == Tiles::Floor);
                        assert(before.to_multiset().count(Tiles::Floor) > 0) by {
                            vstd::seq_lib::to_multiset_contains(before, Tiles::Floor);
                            assert(before.contains(Tiles::Floor));
                        }
                    }
                    placed = placed + 1;
                },
                None => {
                    return Err(GridError::NoFreePoint);
                },
            }
        }
        Ok(())
    }

    /// Puts the tile at a point of the grid.
    pub fn set(&mut self, pt: GridPoint, tile: Tiles)
        requires
            pt.in_grid(),
        ensures
            final(self).map@ == old(self).map@.update(pt.offset(), tile),
            final(self).creatures == old(self).creatures,
    {
        let at: usize = offset_of(pt);
        self.map[at] = tile;
    }

    /// The places of the creatures that are not at `pos` itself and no
    /// further from it than `max_range`, in the creatures' order.
    pub fn get_creatures_in_range(&self, pos: GridPoint, max_range: u16) -> (points: Vec<GridPoint>)
        ensures
            points@ == places_in_range(
                self.creatures@,
                pos,
                max_range,
                self.creatures@.len() as int,
            ),
    {
        let mut points: Vec<GridPoint> = Vec::new();
        let mut i: usize = 0;
        while i < self.creatures.len()
            invariant
                i <= self.creatures@.len(),
                points@ == places_in_range(self.creatures@, pos, max_range, i as int),
            decreases self.creatures@.len() - i,
        {
            let place = self.creatures[i].pos;
            let dist: u16 = pos.dist(place);
            if 0 < dist && dist <= max_range {
                points.push(place);
            }
            i = i + 1;
        }
        points
    }
}

} // verus!
