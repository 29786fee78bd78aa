//! Chess position representation: bitboards, a FEN decoder and a
//! move-shape validator.

pub mod engine;
pub mod piece_logic;
pub mod text;
