//! Generational evolution: individuals with a fitness, selection in
//! proportion to it, crossover and mutation.

pub mod breeding;
pub mod individual;
pub mod population;
pub mod roulette_wheel;
pub mod statistics;

pub use individual::Individual;
pub use population::Population;
pub use roulette_wheel::RouletteWheelPopulation;
pub use statistics::PopulationStatistics;
