//! The engine of a falling-block puzzle game: piece catalog, field with collision, placement
//! and line clearing, the 7-bag queue, the command-driven state machine, and the decisions of
//! the renderer notifier and key-repeat scheduler.

pub mod bag;
pub mod field;
pub mod game;
pub mod input;
pub mod notify;
pub mod piece;
