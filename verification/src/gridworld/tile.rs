use vstd::prelude::*;

verus! {

/// What a tile of the grid holds.
#[derive(Clone, Copy, Debug, PartialEq, Eq, Structural)]
pub enum Tiles {
    EnergyGain,
    EnergyLoss,
    Wall,
    Floor,
}

impl Tiles {
    /// The tile's number among the kinds of tile, in the order in which they
    /// are declared.
    pub open spec fn ordinal(self) -> int {
        match self {
            Tiles::EnergyGain => 0,
            Tiles::EnergyLoss => 1,
            Tiles::Wall => 2,
            Tiles::Floor => 3,
        }
    }

    pub fn index(self) -> (index: usize)
        ensures
            index == self.ordinal(),
            index < 4,
    {
        match self {
            Tiles::EnergyGain => 0,
            Tiles::EnergyLoss => 1,
            Tiles::Wall => 2,
            Tiles::Floor => 3,
        }
    }
}

} // verus!
