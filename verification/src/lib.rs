//! A NEAT-style neuroevolution engine: genomes describing feed-forward
//! networks, an innovation registry giving structural changes stable
//! identities, mutation operators that grow topology, a compiler producing a
//! topologically ordered executable network, an activation engine, and a
//! generational evolution loop scored on the XOR task.
//!
//! All numeric state (weights, node values, fitness, probabilities) is held
//! in signed fixed-point with a scale of one million (see [`fixed`]), so the
//! whole engine is deterministic integer arithmetic.

pub mod evolve;
pub mod fixed;
pub mod network;
pub mod genome;
pub mod innovation;
mod rng;
