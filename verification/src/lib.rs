//! Core of a terminal word-guessing game.
//!
//! The player has a fixed number of attempts to guess a hidden
//! fixed-length word and receives per-letter feedback after each guess.
//! This crate holds the verified core: letter normalization, the
//! dictionary validator, the duplicate-safe guess evaluator, and the
//! bounded-attempt game state machine.  Terminal rendering, keystroke
//! capture and random secret selection live outside the core and drive
//! it through plain values.

pub mod dict;
pub mod feedback;
pub mod game;
pub mod letters;
