use vstd::prelude::*;

verus! {

/// The eight neighbours of a tile, clockwise from the one above.
#[derive(Copy, Clone, Debug, PartialEq, Eq, Structural)]
pub enum Direction {
    Up,
    UpRight,
    Right,
    DownRight,
    Down,
    DownLeft,
    Left,
    UpLeft,
}

impl Direction {
    /// The direction's number, clockwise from `Up`, which is zero.
    pub open spec fn ordinal(self) -> int {
        match self {
            Direction::Up => 0,
            Direction::UpRight => 1,
            Direction::Right => 2,
            Direction::DownRight => 3,
            Direction::Down => 4,
            Direction::DownLeft => 5,
            Direction::Left => 6,
            Direction::UpLeft => 7,
        }
    }

    /// How a step in this direction changes the column.
    pub open spec fn dx(self) -> int {
        match self {
            Direction::UpRight | Direction::Right | Direction::DownRight => 1,
            Direction::DownLeft | Direction::Left | Direction::UpLeft => -1,
            Direction::Up | Direction::Down => 0,
        }
    }

    /// How a step in this direction changes the row. Rows count downward.
    pub open spec fn dy(self) -> int {
        match self {
            Direction::DownRight | Direction::Down | Direction::DownLeft => 1,
            Direction::UpLeft | Direction::Up | Direction::UpRight => -1,
            Direction::Left | Direction::Right => 0,
        }
    }

    /// The direction with the given number.
    pub fn from(value: u8) -> (direction: Self)
        requires
            value < 8,
        ensures
            direction.ordinal() == value,
    {
        match value {
            0 => Direction::Up,
            1 => Direction::UpRight,
            2 => Direction::Right,
            3 => Direction::DownRight,
            4 => Direction::Down,
            5 => Direction::DownLeft,
            6 => Direction::Left,
            _ => Direction::UpLeft,
        }
    }
}

} // verus!
