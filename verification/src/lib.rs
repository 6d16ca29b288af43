//! Life-like cellular automata on a toroidal grid.
//!
//! The grid wraps around at its edges, every cell keeps its current state
//! next to the state it will take at the next commit, and starting patterns
//! are read from four textual encodings under one of eight placements.

pub mod canvas;
pub mod cell;
pub mod error;
pub mod lifelike;
pub mod pattern;
pub mod rules;
pub mod runs;
pub mod tally;
pub mod transform;
