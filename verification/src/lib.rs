//! A hexagonal tile-matching puzzle: the board, the rules that say which
//! tiles may leave it, and a search for an order of removals that clears it.

pub mod game;
pub mod solver;
pub mod game_reader;
pub mod image_manipulation;
pub mod screenshot;
