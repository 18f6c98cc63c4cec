//! A falling-block grid simulation: settled blocks obey a per-tick gravity
//! rule, a single player-controlled tetromino descends and can be moved and
//! rotated, and a landed tetromino dismantles into individually falling
//! blocks.
pub mod board;
pub mod laws;
pub mod physics;
pub mod tetrominos;
