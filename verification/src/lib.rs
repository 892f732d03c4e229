//! Rules of Flappy Rust that do not depend on floating-point physics:
//! the persisted best score and its text form, the round's phase and
//! scoring state machine, and the bird animation frame choice.

pub mod decimal;
pub mod game;
pub mod save;
