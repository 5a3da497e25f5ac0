//! Game-state core of a terminal word-placement board game: tiles, the tile
//! bag, the board, player racks and the turn coordinator.

pub mod constants;
pub mod error;
pub mod random;
pub mod tiles;
pub mod bag;
pub mod rack;
pub mod board;
pub mod app;
