//! A tile simulation engine for a falling-block matching puzzle.
//!
//! The engine works on a snapshot of the board: every tick it computes an
//! ordered list of changes from the snapshot and then applies that list.

pub mod tile;
pub mod collision;
pub mod sound;
pub mod playing_state;
pub mod resolver;
pub mod apply;
pub mod stepping;
pub mod laws;
pub mod levels;
pub mod states;
pub mod menu_state;
pub mod controls;
pub mod hud;
