//! Verified simulation cores for a small collection of grid games.
//!
//! `tetris` holds the falling-block simulation: board, piece catalog, bag
//! randomizer, rotation with wall kicks, gravity and lockdown timing, and
//! scoring. `pipes` holds the pipe puzzle: the generation of perfect mazes,
//! the pipe parts that a maze is laid out with, and the board that tells
//! which parts water reaches. `snake` holds the snake game: how the snake
//! steers, moves, eats and grows.

pub mod pipes;
pub mod snake;
pub mod tetris;
