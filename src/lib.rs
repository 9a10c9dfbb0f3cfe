//! A chess rules engine: board, piece movement, check detection, special
//! moves and draw tracking, with every rule stated as a contract.

pub mod piece;
pub mod moves;
pub mod king;
pub mod history;
pub mod logic;
pub mod laws;
