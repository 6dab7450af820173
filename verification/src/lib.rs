//! Simulation of rain falling on a one-dimensional landscape.
//!
//! A landscape is an ordered sequence of terrain cells; each hour every cell
//! receives one unit of rain, and the water is then redistributed between
//! adjacent cells until the redistribution pass finds nothing more to move.
//!
//! All heights and water amounts are measured in *half-units*: one unit of
//! rain is `2`, and a split between two neighbours moves `1` to each side.
//! Every quantity the simulation ever produces lies on this half-unit grid,
//! so all arithmetic is exact integer arithmetic and heights compare
//! exactly: no floating point and no approximate-equality tolerance is
//! needed anywhere.

pub mod algo;
pub mod landscape;
pub mod landscape_element;
pub mod model;
pub mod rain;
pub mod request;
pub mod sim;
pub mod util;
