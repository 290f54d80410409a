//! Metropolis Monte Carlo simulation of a small two-dimensional Ising lattice,
//! driven by a reproducible xorshift generator.

pub mod prng;
pub mod lattice;
pub mod metropolis;
pub mod simulation;
pub mod public_values;
