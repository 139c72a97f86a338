//! Rules engine for a tile-drafting board game for two to four players.
//!
//! The engine tracks the shared tile bag, the factory displays and the centre
//! pool, each player's board (pattern lines, wall and floor), enumerates legal
//! moves, applies them, and scores rounds and games.

pub mod tiles;
mod rng;
pub mod wall;
pub mod gamestate;
pub mod playerboard;
pub mod players;
pub mod results;
pub mod runner;
