//! A small cellular-automaton engine: a row-major grid of cell values, a
//! bounds-checked neighbour probe, and a game that advances the grid one
//! generation at a time under a fixed neighbour-count threshold rule.

pub mod grid_math;
pub mod game;
