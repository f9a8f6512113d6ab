//! Neuro-evolution of simple agents: a feed-forward decision network, a
//! roulette-wheel genetic algorithm, and two worlds in which agents live, a
//! tile grid and a toroidal plane.
//!
//! Real-valued quantities are held in fixed point, in millionths (see
//! [`fixed`]), so that every rule of the simulation is exact integer
//! arithmetic with a stated rounding.

pub mod fixed;
pub mod rng;
pub mod stats;
pub mod trig;
pub mod neural_network;
pub mod genetic_algorithm;
pub mod gridworld;
pub mod gridworld_sim;
pub mod animal_simulation;
