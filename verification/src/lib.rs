//! Conway's Game of Life on a torus, with detection of repeating states.
//!
//! The grid wraps at every edge. [`gol::GameOfLife`] owns the current
//! generation, advances it one generation at a time and remembers each
//! generation it has produced, so that it can tell when one comes back.
//!
//! - [`util`]: the neighbors of a cell on the torus, and the colors of a
//!   grid for display.
//! - [`grid`] and [`rules`]: what a grid is, and which generation follows it.
//! - [`gol`]: the engine.
//! - [`model`]: the engine as a mathematical value, and what holds of every
//!   run of it.
//! - [`visited`]: the set of generations that an engine remembers.
//! - [`show`]: when a show of the game ends.

pub mod gol;
pub mod grid;
pub mod model;
mod rng;
pub mod rules;
pub mod show;
pub mod util;
pub mod visited;
