//! An engine for evolving genomes.
//!
//! A [`Breeder`] makes, mutates, crosses and compares the genomes of one
//! kind: plain numbers, lists of numbers, graphs of neurons, and whatever is
//! put together from these. A [`Pool`] hands out candidate genomes, takes in
//! their scores, sorts the genomes into species and breeds every next
//! generation from the best of the last.
//!
//! All real quantities are fixed-point numbers: see [`fixed`].
pub mod breeder;
pub mod derived;
pub mod fixed;
pub mod geometry;
pub mod neat;
pub mod nested_breeder;
pub mod pool;
pub mod quota;
pub mod ratios;
pub mod species;
pub mod steps;
pub mod utils;

pub use crate::breeder::{Breeder, FloatBreeder, VecBreeder};
pub use crate::neat::NeatBreeder;
pub use crate::neat::NeatGenome;
pub use crate::neat::NeatNetwork;
pub use crate::pool::Pool;
