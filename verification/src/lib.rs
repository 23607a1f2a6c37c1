//! A verified engine for a Connect-Four-style grid game.
//!
//! The engine keeps an N-by-N board of cells, fills columns by gravity,
//! detects wins across rows, columns and the two main diagonals, reports
//! stalemates, renders the board as text, and can fill a fresh board from a
//! seeded random stream.  Every operation is specified and proved here; the
//! surrounding application only translates requests into engine calls.

pub mod board;
pub mod lockfile;
pub mod random;
pub mod render;

pub use board::Board;
pub use board::BoardError;
pub use board::GameState;
pub use board::Team;
