//! Constraint propagation for the Battleship solitaire deduction puzzle.
//!
//! The library enumerates every placement of a fixed fleet of ships on a
//! square board, precomputes which placements overlap, and narrows the
//! per-ship-type sets of still-possible placements as revealed cells (hits
//! and misses) are applied in log order.

pub mod catalog;
pub mod placement;
pub mod overlap;
pub mod candidates;
