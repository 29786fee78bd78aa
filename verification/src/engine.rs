//! The board representation and the rules that work on it.

pub mod board;
pub mod castle;
pub mod error;
pub mod piece;
pub mod position;
pub mod square;
