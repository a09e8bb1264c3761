//! Ant colony optimisation for the symmetric travelling salesman problem,
//! with a genetic search over the colony's tuning parameters.
//!
//! Every real-valued quantity (coordinates, distances, pheromone levels,
//! probabilities, weights) is a fixed-point number: an integer count of
//! billionths. See [`fixed`] for the arithmetic.

pub mod fixed;
pub mod params;
pub mod random;
pub mod coordinates;
pub mod format;
pub mod pheromone_trail;
pub mod tsp;
pub mod ant;
pub mod colony;
pub mod ranking;
pub mod natural_selection;
