//! Rules engine of a turn-based hex board game: players place kittens on a
//! hexagonal board, a placed piece boops its weaker neighbours one cell
//! outward (off the board, back into their owner's hand), and three pieces of
//! one player in a line win the game.

pub mod hex;
pub mod board;
pub mod boop;
pub mod cats;
pub mod error;
pub mod players;
pub mod rules;
pub mod win;
pub mod gameplay;
