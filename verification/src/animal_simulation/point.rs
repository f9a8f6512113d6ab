use rand::rngs::StdRng;
use vstd::prelude::*;

use crate::fixed::{floor_div, SCALE};
use crate::rng::uniform_between;

verus! {

/// A place on the plane, in millionths. The arena is the square of side one
/// whose opposite edges are joined.
#[derive(Copy, Clone, Debug, PartialEq, Eq, Structural)]
pub struct Point2 {
    pub x: i32,
    pub y: i32,
}

/// A coordinate brought into `[0, 1)`: one itself becomes zero.
pub open spec fn wrapped_unit(coordinate: int) -> int {
    coordinate % (SCALE as int)
}

/// The square of the straight-line distance between two places.
pub open spec fn distance_squared(a: Point2, b: Point2) -> int {
    (a.x - b.x) * (a.x - b.x) + (a.y - b.y) * (a.y - b.y)
}

impl Point2 {
    /// Both coordinates lie in `[0, 1)`.
    pub open spec fn in_arena(self) -> bool {
        0 <= self.x < SCALE && 0 <= self.y < SCALE
    }

    pub fn new(x: i32, y: i32) -> (point: Self)
        ensures
            point.x == x,
            point.y == y,
    {
        Self { x, y }
    }

    /// A place of the arena, each coordinate drawn evenly.
    pub fn random(rng: &mut StdRng) -> (point: Self)
        ensures
            point.in_arena(),
    {
        let x: i32 = uniform_between(rng, 0, SCALE - 1) as i32;
        let y: i32 = uniform_between(rng, 0, SCALE - 1) as i32;
        Self { x, y }
    }

    /// The square of the straight-line distance to the other place.
    pub fn distance_squared(&self, other: &Self) -> (squared: u128)
        ensures
            squared == distance_squared(*self, *other),
            squared < 0x2_0000_0000_0000_0000,
    {
        let dx: i128 = self.x as i128 - other.x as i128;
        let dy: i128 = self.y as i128 - other.y as i128;
        assert(0 <= dx * dx < 0x1_0000_0000 * 0x1_0000_0000) by (nonlinear_arith)
            requires
                -0x1_0000_0000 < dx < 0x1_0000_0000,
        ;
        assert(0 <= dy * dy < 0x1_0000_0000 * 0x1_0000_0000) by (nonlinear_arith)
            requires
                -0x1_0000_0000 < dy < 0x1_0000_0000,
        ;
        (dx * dx + dy * dy) as u128
    }
}

/// Whatever a coordinate is before, it lies in `[0, 1)` once it is wrapped,
/// and one itself becomes zero.
pub proof fn lemma_wrapped_unit(coordinate: int)
    ensures
        0 <= wrapped_unit(coordinate) < SCALE,
        wrapped_unit(SCALE as int) == 0,
{
    vstd::arithmetic::div_mod::lemma_mod_bound(coordinate, SCALE as int);
}

/// Brings a coordinate into `[0, 1)`.
pub fn wrap_unit(coordinate: i64) -> (inside: i32)
    ensures
        inside == wrapped_unit(coordinate as int),
        0 <= inside < SCALE,
{
    let turns: i128 = floor_div(coordinate as i128, SCALE as i128);
    proof {
        vstd::arithmetic::div_mod::lemma_fundamental_div_mod(coordinate as int, SCALE as int);
        vstd::arithmetic::div_mod::lemma_mod_bound(coordinate as int, SCALE as int);
        assert(-0x1_0000_0000_0000_0000 <= turns * SCALE <= 0x1_0000_0000_0000_0000)
            by (nonlinear_arith)
            requires
                coordinate == SCALE * turns + (coordinate as int) % (SCALE as int),
                0 <= (coordinate as int) % (SCALE as int) < SCALE,
                -0x8000_0000_0000_0000 <= coordinate < 0x8000_0000_0000_0000,
        ;
    }
    (coordinate as i128 - turns * SCALE as i128) as i32
}

} // verus!
