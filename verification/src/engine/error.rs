//! What can be wrong with a FEN string.

use vstd::prelude::*;

verus! {

/// The reason why a FEN string, or one of its fields, was turned down.
#[derive(Clone, Copy, Debug, PartialEq, Eq, Structural)]
pub enum FenError {
    /// The string has fewer than six fields.
    MissingField,
    /// A rank of the piece placement takes up more than 255 files.
    RankTooWide,
    /// The piece placement puts a piece outside the eight ranks and files.
    SquareOffBoard,
    /// A character that should name a piece is none of `k q b n r p`, in
    /// either case.
    InvalidPieceType,
    /// The active color is neither `w` nor `b`.
    InvalidTurn,
    /// The castling field holds a character other than `K`, `Q`, `k`, `q`.
    InvalidCastling,
    /// The en-passant target is neither `-` nor a square from `a1` to `h8`.
    InvalidEnPassant,
    /// The half-move clock is not an unsigned number that fits its counter.
    InvalidHalfMoveClock,
    /// The full-move number is not an unsigned number that fits its counter.
    InvalidFullMoveNumber,
}

} // verus!
