//! A chess position as mathematics, and what a FEN string says of one.
//!
//! A FEN string has six fields with a space between one and the next: the
//! piece placement, the side to move, the castling rights, the en-passant
//! target, the half-move clock and the full-move number.

use super::castle::CastleAvailable;
use super::error::FenError;
use super::piece::{Color, Type};
use crate::text::{digit_value, is_digit, parse_unsigned, split};
use vstd::prelude::*;

verus! {

/// A position: what stands on each square, and the state of the game.
pub struct Position {
    /// The piece on each occupied square. Square `i` lies on file `i % 8`
    /// and rank `i / 8 + 1`.
    pub pieces: Map<int, (Color, Type)>,
    /// The side to move.
    pub turn: Color,
    /// The castling moves left to White.
    pub white_castle: Set<CastleAvailable>,
    /// The castling moves left to Black.
    pub black_castle: Set<CastleAvailable>,
    /// The square that a pawn has just passed over, if there is one.
    pub en_passant: Option<int>,
    /// The plies since the last pawn move or capture.
    pub half_moves: nat,
    /// The number of the move to come. The first move has number 1.
    pub moves: nat,
}

/// The square on `rank` (from 1) and `file` (from 0).
pub open spec fn square_of(rank: int, file: int) -> int {
    8 * (rank - 1) + file
}

/// The piece that stands on a square before the first move, if any.
pub open spec fn starting_piece(square: int) -> Option<(Color, Type)> {
    let officer = if square % 8 == 0 || square % 8 == 7 {
        Type::Rook
    } else if square % 8 == 1 || square % 8 == 6 {
        Type::Knight
    } else if square % 8 == 2 || square % 8 == 5 {
        Type::Bishop
    } else if square % 8 == 3 {
        Type::Queen
    } else {
        Type::King
    };
    if 0 <= square < 8 {
        Some((Color::White, officer))
    } else if 8 <= square < 16 {
        Some((Color::White, Type::Pawn))
    } else if 48 <= square < 56 {
        Some((Color::Black, Type::Pawn))
    } else if 56 <= square < 64 {
        Some((Color::Black, officer))
    } else {
        None
    }
}

impl Position {
    /// The board without pieces: White to move, both sides free to castle
    /// either way, and the counters where a game starts.
    pub open spec fn blank() -> Position {
        Position {
            pieces: Map::empty(),
            turn: Color::White,
            white_castle: Set::full(),
            black_castle: Set::full(),
            en_passant: None,
            half_moves: 0,
            moves: 1,
        }
    }

    /// The position before the first move.
    pub open spec fn starting() -> Position {
        Position {
            pieces: Map::new(
                |square: int| starting_piece(square) is Some,
                |square: int| starting_piece(square)->0,
            ),
            ..Self::blank()
        }
    }
}

/// The piece that a FEN letter names: the letter gives the type, its case the
/// color.
pub open spec fn piece_of(symbol: char) -> Option<(Color, Type)> {
    match (Color::spec_color_from_fen(symbol), Type::spec_from_char(symbol)) {
        (Some(color), Some(piece)) => Some((color, piece)),
        _ => None,
    }
}

/// The files that a character of a rank takes up: a digit as many as it
/// says, any other character one.
pub open spec fn files_taken(symbol: char) -> nat {
    if is_digit(symbol) {
        digit_value(symbol)
    } else {
        1
    }
}

/// The files that a rank's text takes up.
pub open spec fn files_used(text: Seq<char>) -> nat
    decreases text.len(),
{
    if text.len() == 0 {
        0
    } else {
        files_used(text.drop_last()) + files_taken(text.last())
    }
}

/// What a rank's text puts on the board: for each character that is no
/// digit, from left to right, the row it was read in, the file it stands on
/// (the files that the text before it takes up) and the character.
pub open spec fn rank_entries(row: int, text: Seq<char>) -> Seq<(int, int, char)>
    decreases text.len(),
{
    if text.len() == 0 {
        Seq::empty()
    } else if is_digit(text.last()) {
        rank_entries(row, text.drop_last())
    } else {
        rank_entries(row, text.drop_last()).push(
            (row, files_used(text.drop_last()) as int, text.last()),
        )
    }
}

/// A rank's text takes up no fewer files than any text that it starts with.
pub proof fn lemma_files_used_grows(text: Seq<char>, length: int)
    requires
        0 <= length <= text.len(),
    ensures
        files_used(text.take(length)) <= files_used(text),
    decreases text.len(),
{
    if length == text.len() {
        assert(text.take(length) =~= text);
    } else {
        lemma_files_used_grows(text.drop_last(), length);
        assert(text.drop_last().take(length) =~= text.take(length));
    }
}

/// The entries of a rank all carry its row, stand on files that the rank's
/// text takes up, and come in the order of their files.
pub proof fn lemma_rank_entries_ordered(row: int, text: Seq<char>)
    ensures
        forall|i: int|
            0 <= i < rank_entries(row, text).len() ==> {
                &&& (#[trigger] rank_entries(row, text)[i]).0 == row
                &&& 0 <= rank_entries(row, text)[i].1 < files_used(text)
            },
        forall|i: int, j: int|
            0 <= i < j < rank_entries(row, text).len() ==> (#[trigger] rank_entries(row, text)[i]).1
                < (#[trigger] rank_entries(row, text)[j]).1,
    decreases text.len(),
{
    if text.len() > 0 {
        let entries = rank_entries(row, text);
        let before = rank_entries(row, text.drop_last());
        lemma_rank_entries_ordered(row, text.drop_last());
        assert forall|i: int| 0 <= i < entries.len() implies {
            &&& (#[trigger] entries[i]).0 == row
            &&& 0 <= entries[i].1 < files_used(text)
        } by {
            if i < before.len() {
                assert(entries[i] == before[i]);
            }
        }
        assert forall|i: int, j: int| 0 <= i < j < entries.len() implies (#[trigger] entries[i]).1
            < (#[trigger] entries[j]).1 by {
            assert(entries[i] == before[i]);
            if j < before.len() {
                assert(entries[j] == before[j]);
            }
        }
    }
}

/// Puts one entry of a rank on the board. Row 0 is rank 8, row 7 is rank 1.
pub open spec fn place_entry(pieces: Map<int, (Color, Type)>, entry: (int, int, char)) -> Result<
    Map<int, (Color, Type)>,
    FenError,
> {
    let (row, file, symbol) = entry;
    if !(0 <= row < 8 && 0 <= file < 8) {
        Err(FenError::SquareOffBoard)
    } else {
        match piece_of(symbol) {
            Some(piece) => Ok(pieces.insert(square_of(8 - row, file), piece)),
            None => Err(FenError::InvalidPieceType),
        }
    }
}

/// Puts the entries on the board one after the other, up to the first that
/// cannot be put.
pub open spec fn place_entries(
    pieces: Map<int, (Color, Type)>,
    entries: Seq<(int, int, char)>,
) -> Result<Map<int, (Color, Type)>, FenError>
    decreases entries.len(),
{
    if entries.len() == 0 {
        Ok(pieces)
    } else {
        match place_entry(pieces, entries[0]) {
            Ok(next) => place_entries(next, entries.drop_first()),
            Err(error) => Err(error),
        }
    }
}

/// Puts the ranks on the board one after the other, the first of them read
/// in row `row`, up to the first that cannot be put.
pub open spec fn place_ranks(
    pieces: Map<int, (Color, Type)>,
    ranks: Seq<Seq<char>>,
    row: int,
) -> Result<Map<int, (Color, Type)>, FenError>
    decreases ranks.len(),
{
    if ranks.len() == 0 {
        Ok(pieces)
    } else if files_used(ranks[0]) > u8::MAX {
        Err(FenError::RankTooWide)
    } else {
        match place_entries(pieces, rank_entries(row, ranks[0])) {
            Ok(next) => place_ranks(next, ranks.drop_first(), row + 1),
            Err(error) => Err(error),
        }
    }
}

/// The square that an entry of a rank stands on. Row 0 is rank 8.
pub open spec fn entry_square(entry: (int, int, char)) -> int {
    square_of(8 - entry.0, entry.1)
}

/// Entry number `i` of rank number `rank`, where the first rank is read in
/// row `first_row`.
pub open spec fn entry_in(ranks: Seq<Seq<char>>, first_row: int, rank: int, i: int) -> (
    int,
    int,
    char,
) {
    rank_entries(first_row + rank, ranks[rank])[i]
}

/// Whether `rank` and `i` are the numbers of an entry of `ranks`.
pub open spec fn is_entry(ranks: Seq<Seq<char>>, first_row: int, rank: int, i: int) -> bool {
    0 <= rank < ranks.len() && 0 <= i < rank_entries(first_row + rank, ranks[rank]).len()
}

/// What the entries of one rank do to a board on which their squares are
/// empty: each entry names a piece and a square of the board, and that piece
/// stands on that square afterwards. What stood on the board still stands
/// there, and nothing else was added.
pub proof fn lemma_place_entries(
    pieces: Map<int, (Color, Type)>,
    entries: Seq<(int, int, char)>,
    row: int,
    placed: Map<int, (Color, Type)>,
)
    requires
        place_entries(pieces, entries) == Ok::<Map<int, (Color, Type)>, FenError>(placed),
        forall|i: int| 0 <= i < entries.len() ==> (#[trigger] entries[i]).0 == row,
        forall|i: int, j: int|
            0 <= i < j < entries.len() ==> (#[trigger] entries[i]).1 < (#[trigger] entries[j]).1,
        forall|i: int|
            0 <= i < entries.len() && 0 <= (#[trigger] entries[i]).1 < 8 ==> !pieces.dom().contains(
                entry_square(entries[i]),
            ),
    ensures
        forall|i: int|
            0 <= i < entries.len() ==> {
                &&& 0 <= (#[trigger] entries[i]).0 < 8
                &&& 0 <= entries[i].1 < 8
                &&& piece_of(entries[i].2) is Some
                &&& placed.contains_pair(entry_square(entries[i]), piece_of(entries[i].2)->0)
            },
        forall|square: int| #[trigger]
            pieces.dom().contains(square) ==> placed.contains_pair(square, pieces[square]),
        forall|square: int| #[trigger]
            placed.dom().contains(square) ==> pieces.dom().contains(square) || exists|i: int|
                0 <= i < entries.len() && square == entry_square(#[trigger] entries[i]),
    decreases entries.len(),
{
    if entries.len() > 0 {
        let first = entries[0];
        let rest = entries.drop_first();
        let next = place_entry(pieces, first)->Ok_0;
        assert forall|i: int|
            0 <= i < rest.len() && 0 <= (#[trigger] rest[i]).1 < 8 implies !next.dom().contains(
            entry_square(rest[i]),
        ) by {
            assert(rest[i] == entries[i + 1]);
            assert(entries[0].1 < entries[i + 1].1);
        }
        assert forall|i: int, j: int| 0 <= i < j < rest.len() implies (#[trigger] rest[i]).1 < (
        #[trigger] rest[j]).1 by {
            assert(rest[i] == entries[i + 1]);
            assert(rest[j] == entries[j + 1]);
        }
        assert forall|i: int| 0 <= i < rest.len() implies (#[trigger] rest[i]).0 == row by {
            assert(rest[i] == entries[i + 1]);
        }
        lemma_place_entries(next, rest, row, placed);
        assert(next.dom().contains(entry_square(first)));
        assert forall|i: int| 0 <= i < entries.len() implies {
            &&& 0 <= (#[trigger] entries[i]).0 < 8
            &&& 0 <= entries[i].1 < 8
            &&& piece_of(entries[i].2) is Some
            &&& placed.contains_pair(entry_square(entries[i]), piece_of(entries[i].2)->0)
        } by {
            if i > 0 {
                assert(entries[i] == rest[i - 1]);
            }
        }
        assert forall|square: int| #[trigger]
            pieces.dom().contains(square) implies placed.contains_pair(square, pieces[square]) by {
            assert(next.dom().contains(square));
        }
        assert forall|square: int| #[trigger]
            placed.dom().contains(square) implies pieces.dom().contains(square) || exists|i: int|
            0 <= i < entries.len() && square == entry_square(#[trigger] entries[i]) by {
            if !pieces.dom().contains(square) {
                if next.dom().contains(square) {
                    assert(square == entry_square(entries[0]));
                } else {
                    let i = choose|i: int|
                        0 <= i < rest.len() && square == entry_square(#[trigger] rest[i]);
                    assert(rest[i] == entries[i + 1]);
                }
            }
        }
    }
}

/// What the ranks of a placement do to a board whose pieces all stand on
/// ranks above theirs: each entry of each rank names a piece and a square of
/// the board, and that piece stands on that square afterwards. What stood on
/// the board still stands there, and nothing else was added.
pub proof fn lemma_place_ranks(
    pieces: Map<int, (Color, Type)>,
    ranks: Seq<Seq<char>>,
    first_row: int,
    placed: Map<int, (Color, Type)>,
)
    requires
        place_ranks(pieces, ranks, first_row) == Ok::<Map<int, (Color, Type)>, FenError>(placed),
        0 <= first_row,
        forall|square: int| #[trigger]
            pieces.dom().contains(square) ==> square >= 8 * (8 - first_row),
    ensures
        forall|rank: int, i: int| #[trigger]
            is_entry(ranks, first_row, rank, i) ==> {
                let entry = entry_in(ranks, first_row, rank, i);
                &&& 0 <= entry.0 < 8
                &&& 0 <= entry.1 < 8
                &&& piece_of(entry.2) is Some
                &&& placed.contains_pair(entry_square(entry), piece_of(entry.2)->0)
            },
        forall|square: int| #[trigger]
            pieces.dom().contains(square) ==> placed.contains_pair(square, pieces[square]),
        forall|square: int| #[trigger]
            placed.dom().contains(square) ==> pieces.dom().contains(square) || exists|
                rank: int,
                i: int,
            | #[trigger]
                is_entry(ranks, first_row, rank, i) && square == entry_square(
                    entry_in(ranks, first_row, rank, i),
                ),
    decreases ranks.len(),
{
    if ranks.len() > 0 {
        let entries = rank_entries(first_row, ranks[0]);
        let rest = ranks.drop_first();
        let next = place_entries(pieces, entries)->Ok_0;
        lemma_rank_entries_ordered(first_row, ranks[0]);
        lemma_place_entries(pieces, entries, first_row, next);
        assert forall|square: int| #[trigger] next.dom().contains(square) implies square >= 8 * (8
            - (first_row + 1)) by {
            if !pieces.dom().contains(square) {
                let i = choose|i: int|
                    0 <= i < entries.len() && square == entry_square(#[trigger] entries[i]);
                assert(0 <= entries[i].1 < 8);
            }
        }
        lemma_place_ranks(next, rest, first_row + 1, placed);
        assert forall|rank: int, i: int| #[trigger]
            is_entry(ranks, first_row, rank, i) implies {
            let entry = entry_in(ranks, first_row, rank, i);
            &&& 0 <= entry.0 < 8
            &&& 0 <= entry.1 < 8
            &&& piece_of(entry.2) is Some
            &&& placed.contains_pair(entry_square(entry), piece_of(entry.2)->0)
        } by {
            if rank == 0 {
                let entry = entries[i];
                assert(next.contains_pair(entry_square(entry), piece_of(entry.2)->0));
                assert(next.dom().contains(entry_square(entry)));
            } else {
                assert(rest[rank - 1] == ranks[rank]);
                assert(is_entry(rest, first_row + 1, rank - 1, i));
                assert(entry_in(rest, first_row + 1, rank - 1, i) == entry_in(
                    ranks,
                    first_row,
                    rank,
                    i,
                ));
            }
        }
        assert forall|square: int| #[trigger]
            pieces.dom().contains(square) implies placed.contains_pair(square, pieces[square]) by {
            assert(next.dom().contains(square));
        }
        assert forall|square: int| #[trigger]
            placed.dom().contains(square) implies pieces.dom().contains(square) || exists|
            rank: int,
            i: int,
        | #[trigger]
            is_entry(ranks, first_row, rank, i) && square == entry_square(
                entry_in(ranks, first_row, rank, i),
            ) by {
            if !pieces.dom().contains(square) {
                if next.dom().contains(square) {
                    let i = choose|i: int|
                        0 <= i < entries.len() && square == entry_square(#[trigger] entries[i]);
                    assert(is_entry(ranks, first_row, 0, i));
                    assert(entry_in(ranks, first_row, 0, i) == entries[i]);
                } else {
                    let (rank, i) = choose|rank: int, i: int| #[trigger]
                        is_entry(rest, first_row + 1, rank, i) && square == entry_square(
                            entry_in(rest, first_row + 1, rank, i),
                        );
                    assert(rest[rank] == ranks[rank + 1]);
                    assert(is_entry(ranks, first_row, rank + 1, i));
                    assert(entry_in(ranks, first_row, rank + 1, i) == entry_in(
                        rest,
                        first_row + 1,
                        rank,
                        i,
                    ));
                }
            }
        }
    }
}

/// What a piece placement means. If it can be read onto a board without
/// pieces, then afterwards a piece stands on a square exactly if the
/// placement says so: if one of its ranks, the one read in row `row`, holds
/// the piece's letter as an entry on the square's file, and the square lies
/// on rank `8 - row`. Every entry then names a piece and a square of the
/// board.
pub proof fn lemma_placement_meaning(position: Position, field: Seq<char>, read: Position)
    requires
        position.pieces == Map::<int, (Color, Type)>::empty(),
        read_placement(position, field) == Ok::<Position, FenError>(read),
    ensures
        forall|row: int, i: int| #[trigger]
            is_entry(split(field, '/'), 0, row, i) ==> {
                let entry = rank_entries(row, split(field, '/')[row])[i];
                &&& entry.0 == row
                &&& 0 <= row < 8
                &&& 0 <= entry.1 < 8
                &&& piece_of(entry.2) is Some
                &&& read.pieces.contains_pair(square_of(8 - row, entry.1), piece_of(entry.2)->0)
            },
        forall|square: int| #[trigger]
            read.pieces.dom().contains(square) ==> exists|row: int, i: int| #[trigger]
                is_entry(split(field, '/'), 0, row, i) && square == square_of(
                    8 - row,
                    rank_entries(row, split(field, '/')[row])[i].1,
                ),
{
    let ranks = split(field, '/');
    lemma_place_ranks(position.pieces, ranks, 0, read.pieces);
    assert forall|row: int, i: int| #[trigger] is_entry(ranks, 0, row, i) implies {
        let entry = rank_entries(row, ranks[row])[i];
        &&& entry.0 == row
        &&& 0 <= row < 8
        &&& 0 <= entry.1 < 8
        &&& piece_of(entry.2) is Some
        &&& read.pieces.contains_pair(square_of(8 - row, entry.1), piece_of(entry.2)->0)
    } by {
        lemma_rank_entries_ordered(row, ranks[row]);
        assert(entry_in(ranks, 0, row, i) == rank_entries(row, ranks[row])[i]);
    }
    assert forall|square: int| #[trigger] read.pieces.dom().contains(square) implies exists|
        row: int,
        i: int,
    | #[trigger]
        is_entry(ranks, 0, row, i) && square == square_of(
            8 - row,
            rank_entries(row, ranks[row])[i].1,
        ) by {
        let (row, i) = choose|row: int, i: int| #[trigger]
            is_entry(ranks, 0, row, i) && square == entry_square(entry_in(ranks, 0, row, i));
        lemma_rank_entries_ordered(row, ranks[row]);
        assert(entry_in(ranks, 0, row, i) == rank_entries(row, ranks[row])[i]);
    }
}

/// Whether `symbol` may stand in a castling field.
pub open spec fn is_castling_symbol(symbol: char) -> bool {
    symbol == 'K' || symbol == 'Q' || symbol == 'k' || symbol == 'q'
}

/// `rights`, and `side` as well if `given` holds.
pub open spec fn grant(rights: Set<CastleAvailable>, given: bool, side: CastleAvailable) -> Set<
    CastleAvailable,
> {
    if given {
        rights.insert(side)
    } else {
        rights
    }
}

/// The position after its piece placement was read: the ranks, which a `/`
/// parts, are put on the board from rank 8 down.
pub open spec fn read_placement(position: Position, field: Seq<char>) -> Result<
    Position,
    FenError,
> {
    match place_ranks(position.pieces, split(field, '/'), 0) {
        Ok(pieces) => Ok(Position { pieces, ..position }),
        Err(error) => Err(error),
    }
}

/// The position after the side to move was read: `w` or `b`.
pub open spec fn read_turn(position: Position, field: Seq<char>) -> Result<Position, FenError> {
    match Color::spec_from_str(field) {
        Some(turn) => Ok(Position { turn, ..position }),
        None => Err(FenError::InvalidTurn),
    }
}

/// The position after the castling field was read. A lone `-` takes every
/// right away. Any other field adds to the rights held so far: `K` and `Q`
/// give White the king side and the queen side, `k` and `q` give them to
/// Black.
pub open spec fn read_castling(position: Position, field: Seq<char>) -> Result<
    Position,
    FenError,
> {
    if field == seq!['-'] {
        Ok(Position { white_castle: Set::empty(), black_castle: Set::empty(), ..position })
    } else if forall|i: int| 0 <= i < field.len() ==> is_castling_symbol(#[trigger] field[i]) {
        Ok(
            Position {
                white_castle: grant(
                    grant(position.white_castle, field.contains('K'), CastleAvailable::KingSide),
                    field.contains('Q'),
                    CastleAvailable::QueenSide,
                ),
                black_castle: grant(
                    grant(position.black_castle, field.contains('k'), CastleAvailable::KingSide),
                    field.contains('q'),
                    CastleAvailable::QueenSide,
                ),
                ..position
            },
        )
    } else {
        Err(FenError::InvalidCastling)
    }
}

/// The position after the en-passant field was read. A lone `-` leaves the
/// target as it is. Any other field names the target: a file from `a` to
/// `h`, then a rank from `1` to `8`.
pub open spec fn read_en_passant(position: Position, field: Seq<char>) -> Result<
    Position,
    FenError,
> {
    if field == seq!['-'] {
        Ok(position)
    } else if field.len() == 2 && 'a' <= field[0] <= 'h' && '1' <= field[1] <= '8' {
        Ok(
            Position {
                en_passant: Some(
                    square_of(field[1] as int - '0' as int, field[0] as int - 'a' as int),
                ),
                ..position
            },
        )
    } else {
        Err(FenError::InvalidEnPassant)
    }
}

/// The position after the half-move clock was read: an unsigned number that
/// fits 32 bits.
pub open spec fn read_half_moves(position: Position, field: Seq<char>) -> Result<
    Position,
    FenError,
> {
    match parse_unsigned(field, u32::MAX as nat) {
        Some(half_moves) => Ok(Position { half_moves, ..position }),
        None => Err(FenError::InvalidHalfMoveClock),
    }
}

/// The position after the full-move number was read: an unsigned number that
/// fits the machine's word.
pub open spec fn read_moves(position: Position, field: Seq<char>) -> Result<Position, FenError> {
    match parse_unsigned(field, usize::MAX as nat) {
        Some(moves) => Ok(Position { moves, ..position }),
        None => Err(FenError::InvalidFullMoveNumber),
    }
}

/// The position after field number `index` was read.
pub open spec fn read_field(position: Position, index: int, field: Seq<char>) -> Result<
    Position,
    FenError,
> {
    if index == 0 {
        read_placement(position, field)
    } else if index == 1 {
        read_turn(position, field)
    } else if index == 2 {
        read_castling(position, field)
    } else if index == 3 {
        read_en_passant(position, field)
    } else if index == 4 {
        read_half_moves(position, field)
    } else {
        read_moves(position, field)
    }
}

/// The position after the fields from number `index` to the sixth were read,
/// in their order. The first field that is missing or wrong decides the
/// error. Fields after the sixth are not looked at.
pub open spec fn read_fields(position: Position, fields: Seq<Seq<char>>, index: int) -> Result<
    Position,
    FenError,
>
    decreases 6 - index,
{
    if index >= 6 {
        Ok(position)
    } else if index >= fields.len() {
        Err(FenError::MissingField)
    } else {
        match read_field(position, index, fields[index]) {
            Ok(next) => read_fields(next, fields, index + 1),
            Err(error) => Err(error),
        }
    }
}

/// The position that a FEN string describes, or what is wrong with the
/// string: its fields, which a space parts, read onto a blank position.
pub open spec fn decode_fen(fen: Seq<char>) -> Result<Position, FenError> {
    read_fields(Position::blank(), split(fen, ' '), 0)
}

} // verus!
