//! Laws of the game: what holds of every piece and every board, proved from
//! the definitions that the contracts of the library's functions use.
//!
//! - [`moves`]: a rejected move or turn changes nothing.
//! - [`splitting`]: cutting a piece and merging the parts loses nothing.
//! - [`clearing`]: clearing rows is additive in the score and in the heap,
//!   and lowers each unit by the cleared rows below it.
//! - [`heights`]: the recorded heights are those of the settled material.
//! - [`counters`]: the row counters stay below the number of columns, move
//!   with their material and count the settled units.
//! - [`wellformed`]: a tick keeps a well-formed board well formed.
//! - [`games`]: what holds after every tick of a whole game.
//! - [`unturned`]: in a game without turns the heights are always exact.

pub mod clearing;
pub mod counters;
pub mod games;
pub mod heights;
pub mod moves;
pub mod splitting;
pub mod unturned;
pub mod wellformed;
