//! The snake game: the snake, its food, and the rules by which it moves,
//! grows and dies.

pub mod components;
pub mod game;
