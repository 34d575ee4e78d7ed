//! A connect-four variant with cascading three-in-a-row scoring.
//!
//! Two players drop stones into an 8x8 grid or, at the price of a point,
//! switch two neighbouring stones. Lines of three score and vanish, the
//! stones above fall, and a line of exactly four ends the game.

pub mod action;
pub mod board;
pub mod cascade;
pub mod cell_set;
pub mod cycle;
pub mod encoding;
pub mod game;
pub mod grid;
pub mod lines;
pub mod player;
pub mod scoring;
pub mod selfplay;
pub mod text;

pub use game::BoardState;
