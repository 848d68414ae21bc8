//! Rules and state of a space-invaders style arcade game: the enemy swarm,
//! the destructible shields, the player's hit mask, the flying saucer,
//! the game's flow from intro to high score, and the leaderboard.
//!
//! Positions, speeds and timers are floating-point values and live with
//! the embedding application; this crate holds the discrete state that
//! those values are computed from and the decisions that are made on it.

pub mod size;
pub mod input;
pub mod game;
pub mod shield;
pub mod swarm;
pub mod leaderboard;
pub mod player;
pub mod ufo;
pub mod state;
