//! An authoritative multi-snake arena: geometry, snakes, bot steering, the
//! per-tick simulation engine and the registration protocol.

pub mod geometry;
pub mod snake;
pub mod game;
pub mod protocol;
pub mod client;
