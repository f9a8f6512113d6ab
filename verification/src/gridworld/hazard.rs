use vstd::prelude::*;

use crate::gridworld::grid_pt::GridPoint;

verus! {

/// Something harmful at a place of the grid.
#[derive(Copy, Clone, Debug)]
pub struct Hazard {
    pub walkable: bool,
    pub damage: u8,
    pub pos: GridPoint,
}

} // verus!
