//! The graph genome and its breeder.
pub mod breeder;
pub mod distance;
pub mod gene;
pub mod genes;
pub mod genome;
pub mod mutation;
pub mod network;

pub use breeder::NeatBreeder;
pub use genome::NeatGenome;
pub use network::NeatNetwork;
