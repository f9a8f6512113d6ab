use vstd::prelude::*;

verus! {

/// Width and height of the square grid, in tiles.
pub const GRID_WIDTH: u16 = 64;

/// Number of tiles of the grid, the square of its width.
pub const GRID_AREA: usize = 4096;

/// How far a creature sees, in tiles of chessboard distance.
pub const EYE_RANGE: u16 = GRID_WIDTH / 4;

/// Angular cells of the eye in each eighth of the circle.
pub const EYE_CELLS_PER_OCTANT: usize = 5;

/// Angular cells of the eye around the full circle.
pub const EYE_CELLS_TOTAL: usize = EYE_CELLS_PER_OCTANT * 8;

/// Values a creature remembers from one tick to the next.
pub const CREATURE_MEMORY_SIZE: usize = 0;

/// Kinds of tile.
pub const NUM_TILES: usize = 4;

/// Kinds of thing the eye tells apart: the kinds of tile, and creatures.
pub const NUM_CATEGORIES: usize = NUM_TILES + 1;

/// Inputs that each cell of the eye gives: for every category how near the
/// nearest is, and for every category how many there are.
pub const SLOTS_PER_EYE_CELL: usize = NUM_CATEGORIES * 2;

/// Directions a creature can step in.
pub const NUM_DIRECTIONS: usize = 8;

/// Inputs of a creature's network: the tile it stands on, the eye's cells,
/// and its memory.
pub const INPUTS_SIZE: usize = EYE_CELLS_TOTAL * SLOTS_PER_EYE_CELL + NUM_TILES
    + CREATURE_MEMORY_SIZE;

/// Outputs of a creature's network: staying, each direction, and the memory.
pub const OUTPUTS_SIZE: usize = 1 + NUM_DIRECTIONS + CREATURE_MEMORY_SIZE;

/// Fitness a creature starts with.
pub const CREATURE_START_ENERGY: i64 = 0;

/// Fitness paid for a step that is made.
pub const MOVE_COST: i64 = 4_000;

/// Fitness gained from a food tile.
pub const FOOD_ENERGY_GAIN: i64 = 5_000_000;

/// Fitness lost on a hazard tile.
pub const HAZARD_ENERGY_LOSS: i64 = 12_500_000;

/// Fitness lost by walking into a wall.
pub const WALL_ENERGY_LOSS: i64 = 2_500_000;

/// Fitness lost by bumping into another creature.
pub const BUMP_ENERGY_LOSS: i64 = 1_000_000;

/// Fitness lost on every tick of standing still for too long.
pub const IDLE_PENALTY: i64 = 15_000;

/// Ticks a creature may stand still before the idle penalty sets in.
pub const IDLE_TICKS_ALLOWED: u16 = 25;

/// How often a random point is tried before the search for a free one is
/// given up.
pub const FREE_POINT_ATTEMPTS: usize = 65_536;

} // verus!
