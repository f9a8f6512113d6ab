//! The direction in which one tile lies from another, as a cell of the eye.
//!
//! The circle around a creature is cut into forty cells of nine degrees.
//! Cell 0 begins at the direction of falling columns (to the left); the
//! cells go on through the direction of falling rows (upward), to the right
//! and downward. Which cell a tile lies in is decided by comparing whole
//! numbers: first the quarter of the circle, then, within it, the slope
//! against the tangents of 9, 18, 27 and 36 degrees.

use vstd::prelude::*;

use crate::fixed::SCALE;
use crate::gridworld::consts::EYE_CELLS_TOTAL;
use crate::gridworld::grid_pt::GridPoint;
use crate::trig::{arc_tangent, FULL_TURN};

verus! {

/// The tangent of 9 degrees, in millionths.
pub const TAN_9: i64 = 158_384;

/// The tangent of 18 degrees, in millionths.
pub const TAN_18: i64 = 324_920;

/// The tangent of 27 degrees, in millionths.
pub const TAN_27: i64 = 509_525;

/// The tangent of 36 degrees, in millionths.
pub const TAN_36: i64 = 726_543;

/// The cell, of the five of an eighth of the circle, of a direction that
/// rises by `minor` over a run of `major`.
pub open spec fn slope_cell(minor: int, major: int) -> int {
    if minor * SCALE < major * TAN_9 {
        0
    } else if minor * SCALE < major * TAN_18 {
        1
    } else if minor * SCALE < major * TAN_27 {
        2
    } else if minor * SCALE < major * TAN_36 {
        3
    } else {
        4
    }
}

/// The cell, of the ten of a quarter of the circle, of the direction
/// `(run, rise)`, where `run > 0` and `rise >= 0`: below the diagonal the
/// slope decides, above it the slope toward the other axis.
pub open spec fn quarter_cell(run: int, rise: int) -> int {
    if rise < run {
        slope_cell(rise, run)
    } else {
        9 - slope_cell(run, rise)
    }
}

/// The cell of the direction `(u, v)`, counted from the direction `(1, 0)`
/// toward `(0, 1)`. The direction `(0, 0)` has cell 0.
pub open spec fn bearing_cell(u: int, v: int) -> int {
    if u > 0 && v >= 0 {
        quarter_cell(u, v)
    } else if u <= 0 && v > 0 {
        10 + quarter_cell(v, -u)
    } else if u < 0 && v <= 0 {
        20 + quarter_cell(-u, -v)
    } else if u >= 0 && v < 0 {
        30 + quarter_cell(-v, u)
    } else {
        0
    }
}

fn slope_cell_of(minor: i64, major: i64) -> (cell: usize)
    requires
        0 <= minor <= 0x1_0000,
        0 <= major <= 0x1_0000,
    ensures
        cell == slope_cell(minor as int, major as int),
        cell <= 4,
{
    let rise: i64 = minor * SCALE;
    if rise < major * TAN_9 {
        0
    } else if rise < major * TAN_18 {
        1
    } else if rise < major * TAN_27 {
        2
    } else if rise < major * TAN_36 {
        3
    } else {
        4
    }
}

fn quarter_cell_of(run: i64, rise: i64) -> (cell: usize)
    requires
        0 <= run <= 0x1_0000,
        0 <= rise <= 0x1_0000,
    ensures
        cell == quarter_cell(run as int, rise as int),
        cell <= 9,
{
    if rise < run {
        slope_cell_of(rise, run)
    } else {
        9 - slope_cell_of(run, rise)
    }
}

/// The angle at which `other` lies from `pos`, in millionths of a radian
/// between zero and a full turn.
pub fn get_angle(pos: GridPoint, other: GridPoint) -> (angle: i32)
    ensures
        angle == (if arc_tangent(other.y - pos.y, other.x - pos.x) < 0 {
            arc_tangent(other.y - pos.y, other.x - pos.x) + FULL_TURN
        } else {
            arc_tangent(other.y - pos.y, other.x - pos.x)
        }),
        0 <= angle < FULL_TURN,
{
    let angle: i32 = pos.angle_to(other);
    if angle < 0 {
        angle + FULL_TURN
    } else {
        angle
    }
}

/// The cell of the eye of a creature at `pos` in which the tile `other`
/// lies.
pub fn eye_cell(pos: GridPoint, other: GridPoint) -> (cell: usize)
    ensures
        cell == bearing_cell(pos.x - other.x, pos.y - other.y),
        cell < EYE_CELLS_TOTAL,
{
    let u: i64 = pos.x as i64 - other.x as i64;
    let v: i64 = pos.y as i64 - other.y as i64;
    if u > 0 && v >= 0 {
        quarter_cell_of(u, v)
    } else if u <= 0 && v > 0 {
        10 + quarter_cell_of(v, -u)
    } else if u < 0 && v <= 0 {
        20 + quarter_cell_of(-u, -v)
    } else if u >= 0 && v < 0 {
        30 + quarter_cell_of(-v, u)
    } else {
        0
    }
}

} // verus!
