//! A two-player grid targeting game: boards with randomly placed fleets,
//! shot resolution, move parsing and text rendering.
pub mod board;
pub mod game;
pub mod input;
mod random;
pub mod render;
pub mod room;
