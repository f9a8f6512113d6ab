//! The simulation on the tile grid: creatures propose steps, the world
//! resolves them, and every generation the networks are bred anew.

pub mod brain;
pub mod config;
pub mod resolution;
pub mod simulation;

pub use brain::Brain;
pub use config::Config;
pub use resolution::Outcome;
pub use simulation::Simulation;
pub use crate::stats::Statistics;
