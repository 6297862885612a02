//! A falling-block puzzle engine: a piece catalog, a grid with line clearing,
//! a score ledger and the state machine that drives a session.

pub mod bricks;
pub mod record;
pub mod board;
pub mod game;
pub mod env;
