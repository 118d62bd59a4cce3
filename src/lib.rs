//! An arcade ball-and-paddle game simulation: walls, paddles, bricks and
//! balls on an integer grid, advanced one fixed time step at a time.

pub mod collision;
pub mod geometry;
pub mod level;
pub mod motion;
mod random;
pub mod step;
pub mod world;
