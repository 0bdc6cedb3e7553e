//! Conway's Game of Life on a toroidal grid, with a double-buffered simulation.

pub mod field;
pub mod life;
pub mod patterns;
