//! The six piece types and two colors, how they are written in FEN, and the
//! shape of the move that each piece type makes.

use super::error::FenError;
use super::square::{
    is_square_mask, lemma_square_mask_index, lemma_square_mask_of_index, square_index,
    square_mask,
};
use vstd::prelude::*;

verus! {

/// The number of squares, counted along the bits of the board, that a piece
/// travels when it goes from the square of `from` to that of `to`.
pub open spec fn displacement(from: u64, to: u64) -> int {
    square_index(from) - square_index(to)
}

/// The size of a displacement, whatever its direction.
pub open spec fn distance(diff: int) -> int {
    if diff < 0 {
        -diff
    } else {
        diff
    }
}

/// A king moves one square: along a rank (1), a file (8) or a diagonal (7, 9).
pub open spec fn king_shape(diff: int) -> bool {
    let steps = distance(diff);
    steps == 1 || steps == 7 || steps == 8 || steps == 9
}

/// A bishop moves along a diagonal: a multiple of 7 or of 9.
pub open spec fn bishop_shape(diff: int) -> bool {
    let steps = distance(diff);
    steps % 7 == 0 || steps % 9 == 0
}

/// A knight jumps two squares one way and one the other: 6, 10, 15 or 17.
pub open spec fn knight_shape(diff: int) -> bool {
    let steps = distance(diff);
    steps == 6 || steps == 10 || steps == 15 || steps == 17
}

/// A rook moves along a file (a multiple of 8) or along a rank (less than 8).
pub open spec fn rook_shape(diff: int) -> bool {
    let steps = distance(diff);
    steps % 8 == 0 || steps < 8
}

/// A queen moves as a rook or as a bishop.
pub open spec fn queen_shape(diff: int) -> bool {
    rook_shape(diff) || bishop_shape(diff)
}

/// A pawn advances one rank (8) or captures on a diagonal (7, 9). The double
/// step of 16 is not accepted from any square.
pub open spec fn pawn_shape(diff: int) -> bool {
    let steps = distance(diff);
    steps == 8 || steps == 7 || steps == 9
}

/// The displacement between two squares is the difference of their numbers,
/// so it lies between -63 and 63.
pub proof fn lemma_displacement(from: int, to: int)
    requires
        0 <= from < 64,
        0 <= to < 64,
    ensures
        displacement(square_mask(from), square_mask(to)) == from - to,
{
    lemma_square_mask_index(from);
    lemma_square_mask_index(to);
}

/// A king's move goes 1, 7, 8 or 9 squares, forwards or backwards along the
/// bits of the board, and no other number of squares.
pub proof fn lemma_king_steps(from: u64, to: u64)
    requires
        is_square_mask(from),
        is_square_mask(to),
    ensures
        Type::King.shape_allows(displacement(from, to)) <==> {
            let diff = square_index(from) - square_index(to);
            diff == 1 || diff == 7 || diff == 8 || diff == 9 || diff == -1 || diff == -7 || diff
                == -8 || diff == -9
        },
{
}

/// A knight's move goes 6, 10, 15 or 17 squares, forwards or backwards along
/// the bits of the board, and no other number of squares.
pub proof fn lemma_knight_steps(from: u64, to: u64)
    requires
        is_square_mask(from),
        is_square_mask(to),
    ensures
        Type::Knight.shape_allows(displacement(from, to)) <==> {
            let diff = square_index(from) - square_index(to);
            diff == 6 || diff == 10 || diff == 15 || diff == 17 || diff == -6 || diff == -10
                || diff == -15 || diff == -17
        },
{
}

/// A pawn's move never goes 16 squares: the double step is turned down from
/// every square, a pawn's first square too.
pub proof fn lemma_pawn_double_step(from: u64, to: u64)
    requires
        is_square_mask(from),
        is_square_mask(to),
        square_index(from) - square_index(to) == 16 || square_index(from) - square_index(to)
            == -16,
    ensures
        !Type::Pawn.shape_allows(displacement(from, to)),
{
}

/// A kind of chess piece.
#[derive(Clone, Copy, Debug, PartialEq, Eq, Structural)]
pub enum Type {
    King,
    Queen,
    Bishop,
    Knight,
    Rook,
    Pawn,
}

impl Type {
    /// The piece type that a FEN letter names, in either case.
    pub open spec fn spec_from_char(symbol: char) -> Option<Type> {
        if symbol == 'k' || symbol == 'K' {
            Some(Type::King)
        } else if symbol == 'q' || symbol == 'Q' {
            Some(Type::Queen)
        } else if symbol == 'b' || symbol == 'B' {
            Some(Type::Bishop)
        } else if symbol == 'n' || symbol == 'N' {
            Some(Type::Knight)
        } else if symbol == 'r' || symbol == 'R' {
            Some(Type::Rook)
        } else if symbol == 'p' || symbol == 'P' {
            Some(Type::Pawn)
        } else {
            None
        }
    }

    /// The piece type that a string names: a string of one FEN letter.
    pub open spec fn spec_from_str(text: Seq<char>) -> Option<Type> {
        if text.len() == 1 {
            Self::spec_from_char(text[0])
        } else {
            None
        }
    }

    /// Whether a move over `diff` squares has the shape of this piece's move.
    pub open spec fn shape_allows(self, diff: int) -> bool {
        match self {
            Type::King => king_shape(diff),
            Type::Queen => queen_shape(diff),
            Type::Bishop => bishop_shape(diff),
            Type::Knight => knight_shape(diff),
            Type::Rook => rook_shape(diff),
            Type::Pawn => pawn_shape(diff),
        }
    }

    /// Reads a piece type from its FEN letter, in either case.
    pub fn from_char(symbol: char) -> (parsed: Option<Type>)
        ensures
            parsed == Self::spec_from_char(symbol),
    {
        match symbol {
            'k' | 'K' => Some(Type::King),
            'q' | 'Q' => Some(Type::Queen),
            'b' | 'B' => Some(Type::Bishop),
            'n' | 'N' => Some(Type::Knight),
            'r' | 'R' => Some(Type::Rook),
            'p' | 'P' => Some(Type::Pawn),
            _ => None,
        }
    }

    /// Reads a piece type from a string that holds its FEN letter and nothing
    /// else.
    pub fn from_str(text: &str) -> (parsed: Result<Type, FenError>)
        ensures
            parsed == match Self::spec_from_str(text@) {
                Some(piece) => Ok::<Type, FenError>(piece),
                None => Err(FenError::InvalidPieceType),
            },
    {
        let mut letters = text.chars();
        let first = letters.next();
        let second = letters.next();
        match (first, second) {
            (Some(symbol), None) => match Self::from_char(symbol) {
                Some(piece) => Ok(piece),
                None => Err(FenError::InvalidPieceType),
            },
            _ => Err(FenError::InvalidPieceType),
        }
    }

    /// The displacement between two squares, each given by its mask.
    fn index_moved(from: u64, to: u64) -> (diff: i64)
        requires
            is_square_mask(from),
            is_square_mask(to),
        ensures
            diff == displacement(from, to),
            -63 <= diff <= 63,
    {
        proof {
            lemma_square_mask_of_index(from);
            lemma_square_mask_of_index(to);
        }
        from.trailing_zeros() as i64 - to.trailing_zeros() as i64
    }

    /// The size of the displacement between two squares.
    fn steps_moved(from: u64, to: u64) -> (steps: i64)
        requires
            is_square_mask(from),
            is_square_mask(to),
        ensures
            steps == distance(displacement(from, to)),
            0 <= steps <= 63,
    {
        let diff: i64 = Self::index_moved(from, to);
        if diff < 0 {
            -diff
        } else {
            diff
        }
    }

    fn king_valid_move(from: u64, to: u64) -> (valid: bool)
        requires
            is_square_mask(from),
            is_square_mask(to),
        ensures
            valid == king_shape(displacement(from, to)),
    {
        let steps: i64 = Self::steps_moved(from, to);
        steps == 1 || steps == 7 || steps == 8 || steps == 9
    }

    fn queen_valid_move(from: u64, to: u64) -> (valid: bool)
        requires
            is_square_mask(from),
            is_square_mask(to),
        ensures
            valid == queen_shape(displacement(from, to)),
    {
        Self::rook_valid_move(from, to) || Self::bishop_valid_move(from, to)
    }

    fn bishop_valid_move(from: u64, to: u64) -> (valid: bool)
        requires
            is_square_mask(from),
            is_square_mask(to),
        ensures
            valid == bishop_shape(displacement(from, to)),
    {
        let steps: i64 = Self::steps_moved(from, to);
        steps % 7 == 0 || steps % 9 == 0
    }

    fn knight_valid_move(from: u64, to: u64) -> (valid: bool)
        requires
            is_square_mask(from),
            is_square_mask(to),
        ensures
            valid == knight_shape(displacement(from, to)),
    {
        let steps: i64 = Self::steps_moved(from, to);
        steps == 6 || steps == 10 || steps == 15 || steps == 17
    }

    fn rook_valid_move(from: u64, to: u64) -> (valid: bool)
        requires
            is_square_mask(from),
            is_square_mask(to),
        ensures
            valid == rook_shape(displacement(from, to)),
    {
        let steps: i64 = Self::steps_moved(from, to);
        steps % 8 == 0 || steps < 8
    }

    fn pawn_valid_move(from: u64, to: u64) -> (valid: bool)
        requires
            is_square_mask(from),
            is_square_mask(to),
        ensures
            valid == pawn_shape(displacement(from, to)),
    {
        let steps: i64 = Self::steps_moved(from, to);
        if steps == 16 {
            return false;
        }
        steps == 8 || steps == 7 || steps == 9
    }

    /// Tells whether a move from the square of `from` to the square of `to`
    /// has the shape of this piece's move. Only the displacement is looked
    /// at: what stands on the board, and where the board ends, is not.
    pub fn valid_move(&self, from: u64, to: u64) -> (valid: bool)
        requires
            is_square_mask(from),
            is_square_mask(to),
        ensures
            valid == self.shape_allows(displacement(from, to)),
    {
        match self {
            Type::King => Self::king_valid_move(from, to),
            Type::Queen => Self::queen_valid_move(from, to),
            Type::Bishop => Self::bishop_valid_move(from, to),
            Type::Knight => Self::knight_valid_move(from, to),
            Type::Rook => Self::rook_valid_move(from, to),
            Type::Pawn => Self::pawn_valid_move(from, to),
        }
    }
}

/// The side that a piece belongs to.
#[derive(Clone, Copy, Debug, PartialEq, Eq, Structural)]
pub enum Color {
    White,
    Black,
}

impl Color {
    /// The color that a string names: `w` or `b`.
    pub open spec fn spec_from_str(text: Seq<char>) -> Option<Color> {
        if text.len() == 1 && text[0] == 'w' {
            Some(Color::White)
        } else if text.len() == 1 && text[0] == 'b' {
            Some(Color::Black)
        } else {
            None
        }
    }

    /// The color of the piece that a FEN letter names: white for a capital
    /// letter, black for a small one.
    pub open spec fn spec_color_from_fen(piece_fen: char) -> Option<Color> {
        if piece_fen == 'K' || piece_fen == 'Q' || piece_fen == 'B' || piece_fen == 'N'
            || piece_fen == 'R' || piece_fen == 'P' {
            Some(Color::White)
        } else if piece_fen == 'k' || piece_fen == 'q' || piece_fen == 'b' || piece_fen == 'n'
            || piece_fen == 'r' || piece_fen == 'p' {
            Some(Color::Black)
        } else {
            None
        }
    }

    /// Reads a color from `w` or `b`.
    pub fn from_str(text: &str) -> (parsed: Result<Color, FenError>)
        ensures
            parsed == match Self::spec_from_str(text@) {
                Some(color) => Ok::<Color, FenError>(color),
                None => Err(FenError::InvalidTurn),
            },
    {
        let mut letters = text.chars();
        let first = letters.next();
        let second = letters.next();
        match (first, second) {
            (Some('w'), None) => Ok(Color::White),
            (Some('b'), None) => Ok(Color::Black),
            _ => Err(FenError::InvalidTurn),
        }
    }

    /// Tells the color of a piece from the case of its FEN letter. A
    /// character that names no piece is turned down.
    pub fn get_color_from_fen(piece_fen: char) -> (color: Result<Color, FenError>)
        ensures
            color == match Self::spec_color_from_fen(piece_fen) {
                Some(side) => Ok::<Color, FenError>(side),
                None => Err(FenError::InvalidPieceType),
            },
            color is Ok <==> Type::spec_from_char(piece_fen) is Some,
    {
        match piece_fen {
            'K' | 'Q' | 'B' | 'N' | 'R' | 'P' => Ok(Color::White),
            'k' | 'q' | 'b' | 'n' | 'r' | 'p' => Ok(Color::Black),
            _ => Err(FenError::InvalidPieceType),
        }
    }
}

} // verus!
