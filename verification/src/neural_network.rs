//! A fixed-topology feed-forward network over fixed-point values.

pub mod layer;
pub mod network;

pub use layer::{Layer, LayerType};
pub use network::Network;
