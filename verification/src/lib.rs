//! A turn-based chase on a bordered grid: one player lures pursuing zombies
//! into holes before one of them reaches the player.

pub mod action;
pub mod census;
pub mod encounters;
pub mod entities;
pub mod game;
pub mod grid;
pub mod random;
pub mod soundness;
pub mod turn;
