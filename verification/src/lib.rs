//! Rule engine of a falling-block puzzle game.
//!
//! The engine owns the playfield, the shapes of the pieces, the legality of
//! their moves and turns, the collision against settled material, and the
//! clearing of completed rows. Reading the keyboard and drawing are left to
//! the program around it.
//!
//! - [`grid`]: the playfield's dimensions and the unit square.
//! - [`shape`]: pieces and the geometric operations on them.
//! - [`catalog`]: the five archetypes.
//! - [`board`]: the state of a game and the rules of a tick.
//! - [`game`]: the loop that plays input samples.
//! - [`interface`]: decoding of keyboard bytes into key codes.
//! - [`random`]: the pseudorandom source of the next piece.
//! - [`laws`]: what holds of every piece and every board.

pub mod board;
pub mod catalog;
pub mod game;
pub mod grid;
pub mod interface;
pub mod laws;
pub mod random;
pub mod shape;
