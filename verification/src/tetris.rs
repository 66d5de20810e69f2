//! The falling-block simulation. `game` holds the simulation object and the
//! model that its contracts are stated in; `laws` holds what is proved of
//! that model as a whole.

pub mod active;
pub mod bag;
pub mod board;
pub mod components;
pub mod consts;
pub mod dotarray;
pub mod game;
pub mod laws;
pub mod rotations;
pub mod state;
pub mod timers;
