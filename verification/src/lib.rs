//! A grid-combat board game core: boards that hide a fleet, shot resolution,
//! win detection and the turn state machine, with machine-checked contracts.

pub mod board;
pub mod cell;
pub mod game;
pub mod input;
pub mod laws;
mod random;
