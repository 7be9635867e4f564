//! A Game of Life engine on a torus: a rectangular grid of cells whose edges
//! wrap around, advanced one generation at a time under Conway's rule.
//!
//! - `cell`: a cell and the rule by which it lives or dies.
//! - `torus`: coordinates that wrap around.
//! - `grid`: the mathematical model of the grid, and the laws of the engine.
//! - `motif`: the motifs a grid can be seeded with.
//! - `random`: coin tosses for the random motif.
//! - `universe`: the grid itself, with its operations.
//! - `model`: a running game that answers the messages of a driver.
//! - `error`: why a grid could not be made.
//!
//! Every function is verified against the model in `grid`: the contracts of
//! the executable functions say what they do to the grid as a `grid::Grid`.

pub mod cell;
pub mod error;
pub mod grid;
pub mod model;
pub mod motif;
pub mod random;
pub mod torus;
pub mod universe;
