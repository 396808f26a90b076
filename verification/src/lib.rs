//! Conway's Game of Life on a fixed-size two-dimensional grid.
//!
//! The library owns the simulation core: the grid of boolean cells, the
//! boundary policy for neighbor lookups at the edges, neighbor counting,
//! the B3/S23 evolution rule, one-generation stepping, and rendering a
//! grid as text. Argument handling, random seeding, terminal control and
//! frame pacing belong to the surrounding program, which feeds the core
//! plain values and displays what it returns.

pub mod engine;
pub mod grid;
