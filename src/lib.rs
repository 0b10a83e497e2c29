//! A minesweeper board engine: a grid of mines and hint cells, the rules
//! for revealing and marking cells, and win/loss detection.

pub mod neighbors;
pub mod counting;
pub mod board;
pub mod layout;
pub mod play;
pub mod laws;
