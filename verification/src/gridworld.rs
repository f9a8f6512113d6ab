//! The tile grid: points, directions, tiles, creatures and what they see.

pub mod bearing;
pub mod consts;
pub mod creature;
pub mod direction;
pub mod grid_pt;
pub mod hazard;
pub mod tile;
pub mod world;

pub use bearing::{eye_cell, get_angle};
pub use consts::{
    BUMP_ENERGY_LOSS, CREATURE_MEMORY_SIZE, CREATURE_START_ENERGY, EYE_CELLS_PER_OCTANT,
    EYE_CELLS_TOTAL, EYE_RANGE, FOOD_ENERGY_GAIN, GRID_AREA, GRID_WIDTH, HAZARD_ENERGY_LOSS,
    IDLE_PENALTY, INPUTS_SIZE, MOVE_COST, NUM_DIRECTIONS, NUM_TILES, OUTPUTS_SIZE,
    SLOTS_PER_EYE_CELL, WALL_ENERGY_LOSS,
};
pub use creature::Creature;
pub use direction::Direction;
pub use grid_pt::{get_points_in_range, GridPoint};
pub use hazard::Hazard;
pub use tile::Tiles;
pub use world::{GridError, World};
