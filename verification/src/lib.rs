//! A Pac-Man game for a terminal pane, and the state behind selecting text with
//! the mouse.
//!
//! [`engine::Game`] plays the game; [`model::GameView`] says what it does;
//! [`laws`] says what follows for whole games. [`pane::GamePane`] is the pane
//! around it, and [`selection`] stands on its own.

pub mod clipboard;
pub mod clock;
pub mod conduct;
pub mod engine;
pub mod feast;
pub mod haunting;
pub mod history;
pub mod laws;
pub mod ledger;
pub mod maze;
pub mod model;
pub mod pane;
pub mod rules;
pub mod screen;
pub mod selection;
pub mod soundness;
pub mod storage;
pub mod text;
pub mod walk;
