//! Core of a falling-block puzzle game: input debouncing, the piece and
//! field model with collision rules, the tick-driven game engine with
//! deferred board effects, the score-table binary format, and the screen
//! stack that drives menu/game/scoreboard transitions.
//!
//! Rendering and window/input polling are not part of this crate; callers
//! feed raw per-tick key states in and read the resulting state out.

pub mod input;
pub mod piece;
pub mod field;
pub mod scores;
pub mod engine;
pub mod screens;
