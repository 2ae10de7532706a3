//! Rule engine and animation timing for a sliding-tile merge puzzle.
//!
//! The grid model tracks which scored tile occupies each cell of a fixed
//! 4x4 board. The merge engine computes, for one directional input, which
//! tiles slide one step, which merge, what score events result, where a
//! new tile spawns and whether the game is over. The session owns the
//! running score and the running/game-over state. The tween module drives
//! the time-stepped interpolations that animate the outcomes.

pub mod grid;
pub mod merge;
pub mod rng;
pub mod session;
pub mod tween;
