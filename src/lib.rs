//! An evolutionary trainer for flappy fellers: a population of agents
//! flies through an endless stream of pipes, and each generation is bred
//! from the longest-lived agents of the one before.
//!
//! All positions and speeds are fixed-point integers in hundredths of a
//! pixel. The agents' controllers (neural networks) are kept by the caller,
//! in the same order as the agents of a [`population::Population`]; the
//! library hands out the decisions it needs from them (a flap or not) as
//! plain values, and names the parent of each bred agent by its index.
//!
//! A feller that leaves the world through its top or bottom dies; its
//! position is never clamped. Where the whole elite has a fitness of zero,
//! parents are picked from it with equal chances.

pub mod world;
pub mod rng;
pub mod pipe;
pub mod feller;
pub mod selection;
pub mod population;
pub mod simulation;
