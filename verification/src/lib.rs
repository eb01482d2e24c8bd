//! A grid-based snake simulation: a snake that moves one cell per tick, grows
//! when it eats, and ends the session when it runs into a wall or into itself.
//!
//! The crate holds the rules only. A host feeds it direction changes and ticks
//! and reads the state back to draw a frame.

pub mod block;
pub mod snek;
pub mod grid;
pub mod food;
pub mod game;
