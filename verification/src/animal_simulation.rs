//! The simulation on the plane: animals steer by what their eyes see, eat,
//! stun one another, and every generation their networks are bred anew.

pub mod animal;
pub mod brain;
pub mod config;
pub mod eye;
pub mod food;
pub mod point;
pub mod simulation;
pub mod world;

pub use animal::Animal;
pub use brain::Brain;
pub use config::Config;
pub use eye::{Eye, VisibleAnimal};
pub use food::Food;
pub use point::Point2;
pub use simulation::Simulation;
pub use world::World;
pub use crate::stats::Statistics;
