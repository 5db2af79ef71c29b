//! A growing self-organizing map.

pub mod network;
pub mod weights;

pub use self::network::{Coordinate, IndividualStorageFactory, Network, NetworkConfig, Node};
