//! The pipe puzzle: directions, mazes and the options they are generated
//! with, and the board of pipe parts.

pub mod direction;
pub mod game_board;
pub mod marks;
pub mod maze;
pub mod wrapper;
