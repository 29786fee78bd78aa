//! The position as twelve bitboards, and the FEN decoder that fills them.

use super::castle::{CastleAvailable, CastleRights};
use super::error::FenError;
use super::piece::{Color, Type};
use super::position::{
    decode_fen, files_used, grant, is_castling_symbol, lemma_files_used_grows,
    lemma_rank_entries_ordered, piece_of, place_entries, place_ranks, rank_entries,
    read_castling, read_en_passant, read_fields, read_placement, read_turn, square_of,
    starting_piece, Position,
};
use super::square::{
    bit_set, count_ones, is_square_mask, lemma_add_square, lemma_bits_decide, lemma_empty_board,
    lemma_meets_square, lemma_square_mask_bits, lemma_square_mask_count,
    lemma_square_mask_index, lemma_square_mask_of_index, square_index, square_mask,
};
use crate::text::{digit, lemma_split_join, parse_number, split, split_on, views};
use vstd::prelude::*;

verus! {

/// The mask of the square on `rank` (1 to 8) and `file` (0 to 7): the word
/// whose only set bit is bit `8 * (rank - 1) + file`.
pub fn select_rank_file(rank: u8, file: u8) -> (mask: u64)
    requires
        1 <= rank <= 8,
        file <= 7,
    ensures
        mask == square_mask(square_of(rank as int, file as int)),
        is_square_mask(mask),
        square_index(mask) == square_of(rank as int, file as int),
        count_ones(mask) == 1,
        mask != 0,
        forall|i: int| bit_set(mask, i) <==> i == square_of(rank as int, file as int),
{
    let shifts: u8 = rank - 1;
    let index: u8 = 8 * shifts + file;
    proof {
        lemma_square_mask_index(index as int);
        lemma_square_mask_count(index as int);
        lemma_square_mask_bits(index as int);
    }
    1u64 << index
}

/// The mask of the square on `rank` and `file`, if there is such a square:
/// if `rank` is one of 1 to 8 and `file` one of 0 to 7.
pub fn try_select_rank_file(rank: u8, file: u8) -> (mask: Option<u64>)
    ensures
        mask is Some <==> 1 <= rank <= 8 && file <= 7,
        mask matches Some(found) ==> found == square_mask(square_of(rank as int, file as int))
            && is_square_mask(found) && square_index(found) == square_of(
            rank as int,
            file as int,
        ),
{
    if 1 <= rank && rank <= 8 && file <= 7 {
        Some(select_rank_file(rank, file))
    } else {
        None
    }
}

/// The entries that `fen_to_rank` hands out, as mathematics.
pub open spec fn entries_of(found: Seq<(usize, u8, char)>) -> Seq<(int, int, char)> {
    Seq::new(found.len(), |i: int| (found[i].0 as int, found[i].1 as int, found[i].2))
}

/// Reads one rank of a piece placement. `entry` holds the row in which the
/// rank was read and the rank's text. In the text a digit stands for as many
/// empty files, and any other character for a piece on one file. The result
/// holds, for each piece from left to right, the row, the file (from 0) and
/// the character. A rank that takes up more than 255 files is turned down.
pub fn fen_to_rank(entry: (usize, &str)) -> (found: Result<Vec<(usize, u8, char)>, FenError>)
    ensures
        match found {
            Ok(entries) => files_used(entry.1@) <= u8::MAX && entries_of(entries@) == rank_entries(
                entry.0 as int,
                entry.1@,
            ),
            Err(error) => files_used(entry.1@) > u8::MAX && error == FenError::RankTooWide,
        },
{
    let (rank, fen_string) = entry;
    let mut file: u8 = 0;
    let mut entries: Vec<(usize, u8, char)> = Vec::new();
    assert(fen_string@.take(0) =~= Seq::<char>::empty());
    assert(entries_of(entries@) =~= Seq::<(int, int, char)>::empty());
    for symbol in it: fen_string.chars()
        invariant
            it.seq() == fen_string@,
            fen_string@ == entry.1@,
            file == files_used(fen_string@.take(it.index())),
            entries_of(entries@) == rank_entries(rank as int, fen_string@.take(it.index())),
    {
        let ghost read = fen_string@.take(it.index());
        let ghost longer = fen_string@.take(it.index() + 1);
        assert(longer.drop_last() =~= read);
        assert(longer.last() == symbol);
        let step: u8 = match digit(symbol) {
            Some(count) => count,
            None => {
                let ghost before = entries_of(entries@);
                entries.push((rank, file, symbol));
                assert(entries_of(entries@) =~= before.push((rank as int, file as int, symbol)));
                1
            },
        };
        assert(files_used(longer) == file + step);
        match file.checked_add(step) {
            Some(next) => {
                file = next;
            },
            None => {
                proof {
                    lemma_files_used_grows(fen_string@, it.index() + 1);
                }
                return Err(FenError::RankTooWide);
            },
        }
    }
    assert(fen_string@.take(fen_string@.len() as int) =~= fen_string@);
    Ok(entries)
}

/// Tells whether `text` is a lone `-`, which stands for an empty field.
fn is_dash(text: &str) -> (dash: bool)
    ensures
        dash == (text@ == seq!['-']),
{
    let mut letters = text.chars();
    let first = letters.next();
    let second = letters.next();
    let dash = match (first, second) {
        (Some('-'), None) => true,
        _ => false,
    };
    proof {
        if dash {
            assert(text@ =~= seq!['-']);
        } else if text@.len() == 1 {
            assert(seq!['-'][0] == '-');
        }
    }
    dash
}

proof fn lemma_starting_boards(i: u64)
    by (bit_vector)
    requires
        i < 64,
    ensures
        ((0x10u64 >> i) & 1 == 1) <==> i == 4,
        ((0x08u64 >> i) & 1 == 1) <==> i == 3,
        ((0x42u64 >> i) & 1 == 1) <==> (i == 1 || i == 6),
        ((0x24u64 >> i) & 1 == 1) <==> (i == 2 || i == 5),
        ((0x81u64 >> i) & 1 == 1) <==> (i == 0 || i == 7),
        ((0xFF00u64 >> i) & 1 == 1) <==> 8 <= i < 16,
        ((0x1000_0000_0000_0000u64 >> i) & 1 == 1) <==> i == 60,
        ((0x0800_0000_0000_0000u64 >> i) & 1 == 1) <==> i == 59,
        ((0x4200_0000_0000_0000u64 >> i) & 1 == 1) <==> (i == 57 || i == 62),
        ((0x2400_0000_0000_0000u64 >> i) & 1 == 1) <==> (i == 58 || i == 61),
        ((0x8100_0000_0000_0000u64 >> i) & 1 == 1) <==> (i == 56 || i == 63),
        ((0x00FF_0000_0000_0000u64 >> i) & 1 == 1) <==> 48 <= i < 56,
{
}

/// A position held as bitboards: for each color and piece type one 64-bit
/// word, in which bit `i` says whether such a piece stands on square `i`.
/// Bit 0 is a1, bit 1 is b1, and so on through the files and then the ranks.
#[derive(Clone, Copy, Debug, PartialEq, Eq, Structural)]
pub struct PerformantRepr {
    w_king: u64,
    w_queen: u64,
    w_knight: u64,
    w_bishop: u64,
    w_rook: u64,
    w_pawn: u64,
    b_king: u64,
    b_queen: u64,
    b_knight: u64,
    b_bishop: u64,
    b_rook: u64,
    b_pawn: u64,
    white_castle: CastleRights,
    black_castle: CastleRights,
    current_turn: Color,
    moves_count: usize,
    half_moves_count: u32,
    en_passant: u64,
}

impl View for PerformantRepr {
    type V = Position;

    closed spec fn view(&self) -> Position {
        Position {
            pieces: Map::new(
                |square: int| self.occupant(square) is Some,
                |square: int| self.occupant(square)->0,
            ),
            turn: self.current_turn,
            white_castle: self.white_castle@,
            black_castle: self.black_castle@,
            en_passant: if self.en_passant == 0 {
                None
            } else {
                Some(square_index(self.en_passant))
            },
            half_moves: self.half_moves_count as nat,
            moves: self.moves_count as nat,
        }
    }
}

impl PerformantRepr {
    /// The bitboard of the pieces of one color and type.
    pub closed spec fn spec_board(self, color: Color, piece: Type) -> u64 {
        match (color, piece) {
            (Color::White, Type::King) => self.w_king,
            (Color::White, Type::Queen) => self.w_queen,
            (Color::White, Type::Knight) => self.w_knight,
            (Color::White, Type::Bishop) => self.w_bishop,
            (Color::White, Type::Rook) => self.w_rook,
            (Color::White, Type::Pawn) => self.w_pawn,
            (Color::Black, Type::King) => self.b_king,
            (Color::Black, Type::Queen) => self.b_queen,
            (Color::Black, Type::Knight) => self.b_knight,
            (Color::Black, Type::Bishop) => self.b_bishop,
            (Color::Black, Type::Rook) => self.b_rook,
            (Color::Black, Type::Pawn) => self.b_pawn,
        }
    }

    /// The first piece, in the order of the bitboards, that has its bit set
    /// on `square`.
    pub closed spec fn occupant(self, square: int) -> Option<(Color, Type)> {
        if bit_set(self.w_king, square) {
            Some((Color::White, Type::King))
        } else if bit_set(self.w_queen, square) {
            Some((Color::White, Type::Queen))
        } else if bit_set(self.w_knight, square) {
            Some((Color::White, Type::Knight))
        } else if bit_set(self.w_bishop, square) {
            Some((Color::White, Type::Bishop))
        } else if bit_set(self.w_rook, square) {
            Some((Color::White, Type::Rook))
        } else if bit_set(self.w_pawn, square) {
            Some((Color::White, Type::Pawn))
        } else if bit_set(self.b_king, square) {
            Some((Color::Black, Type::King))
        } else if bit_set(self.b_queen, square) {
            Some((Color::Black, Type::Queen))
        } else if bit_set(self.b_knight, square) {
            Some((Color::Black, Type::Knight))
        } else if bit_set(self.b_bishop, square) {
            Some((Color::Black, Type::Bishop))
        } else if bit_set(self.b_rook, square) {
            Some((Color::Black, Type::Rook))
        } else if bit_set(self.b_pawn, square) {
            Some((Color::Black, Type::Pawn))
        } else {
            None
        }
    }

    /// No square holds two pieces, and the en-passant target is one square
    /// or none.
    pub closed spec fn wf(self) -> bool {
        &&& forall|square: int, color: Color, piece: Type|
            #[trigger] bit_set(self.spec_board(color, piece), square) ==> self.occupant(square)
                == Some((color, piece))
        &&& self.en_passant == 0 || is_square_mask(self.en_passant)
    }

    /// In a well-formed position, the bitboards say what the view says: a
    /// piece has its bit set on a square exactly if it stands there.
    pub proof fn lemma_boards_match_view(self, color: Color, piece: Type, square: int)
        requires
            self.wf(),
        ensures
            bit_set(self.spec_board(color, piece), square) <==> self@.pieces.contains_pair(
                square,
                (color, piece),
            ),
    {
    }

    /// This position with the bits of `mask` added to the bitboard of one
    /// color and piece type.
    pub closed spec fn with_bits(self, color: Color, piece: Type, mask: u64) -> PerformantRepr {
        match (color, piece) {
            (Color::White, Type::King) => PerformantRepr { w_king: self.w_king | mask, ..self },
            (Color::White, Type::Queen) => PerformantRepr { w_queen: self.w_queen | mask, ..self },
            (Color::White, Type::Knight) => PerformantRepr {
                w_knight: self.w_knight | mask,
                ..self
            },
            (Color::White, Type::Bishop) => PerformantRepr {
                w_bishop: self.w_bishop | mask,
                ..self
            },
            (Color::White, Type::Rook) => PerformantRepr { w_rook: self.w_rook | mask, ..self },
            (Color::White, Type::Pawn) => PerformantRepr { w_pawn: self.w_pawn | mask, ..self },
            (Color::Black, Type::King) => PerformantRepr { b_king: self.b_king | mask, ..self },
            (Color::Black, Type::Queen) => PerformantRepr { b_queen: self.b_queen | mask, ..self },
            (Color::Black, Type::Knight) => PerformantRepr {
                b_knight: self.b_knight | mask,
                ..self
            },
            (Color::Black, Type::Bishop) => PerformantRepr {
                b_bishop: self.b_bishop | mask,
                ..self
            },
            (Color::Black, Type::Rook) => PerformantRepr { b_rook: self.b_rook | mask, ..self },
            (Color::Black, Type::Pawn) => PerformantRepr { b_pawn: self.b_pawn | mask, ..self },
        }
    }

    /// Adding a square to a bitboard puts the piece on that square, if the
    /// square was empty.
    proof fn lemma_with_bits(self, color: Color, piece: Type, square: int)
        requires
            self.wf(),
            0 <= square < 64,
            !self@.pieces.dom().contains(square),
        ensures
            self.with_bits(color, piece, square_mask(square)).wf(),
            self.with_bits(color, piece, square_mask(square))@ == (Position {
                pieces: self@.pieces.insert(square, (color, piece)),
                ..self@
            }),
    {
        let next = self.with_bits(color, piece, square_mask(square));
        lemma_add_square(self.spec_board(color, piece), square);
        assert(self.occupant(square) is None);
        assert forall|at: int| #[trigger]
            next.occupant(at) == (if at == square {
                Some((color, piece))
            } else {
                self.occupant(at)
            }) by {
            assert(bit_set(next.spec_board(color, piece), at) <==> bit_set(
                self.spec_board(color, piece),
                at,
            ) || at == square);
            assert(bit_set(self.spec_board(color, piece), at) ==> self.occupant(at) == Some(
                (color, piece),
            ));
        }
        assert(next@.pieces =~= self@.pieces.insert(square, (color, piece)));
        assert forall|at: int, side: Color, kind: Type| #[trigger]
            bit_set(next.spec_board(side, kind), at) implies next.occupant(at) == Some(
            (side, kind),
        ) by {
            assert(bit_set(self.spec_board(side, kind), at) ==> self.occupant(at) == Some(
                (side, kind),
            ));
        }
    }

    /// Puts a piece on the square of `mask`, which must be empty.
    fn place(&mut self, color: Color, piece: Type, mask: u64)
        requires
            old(self).wf(),
            is_square_mask(mask),
            !old(self)@.pieces.dom().contains(square_index(mask)),
        ensures
            final(self).wf(),
            final(self)@ == (Position {
                pieces: old(self)@.pieces.insert(square_index(mask), (color, piece)),
                ..old(self)@
            }),
    {
        proof {
            lemma_square_mask_of_index(mask);
            old(self).lemma_with_bits(color, piece, square_index(mask));
        }
        match (color, piece) {
            (Color::White, Type::King) => self.w_king |= mask,
            (Color::White, Type::Queen) => self.w_queen |= mask,
            (Color::White, Type::Knight) => self.w_knight |= mask,
            (Color::White, Type::Bishop) => self.w_bishop |= mask,
            (Color::White, Type::Rook) => self.w_rook |= mask,
            (Color::White, Type::Pawn) => self.w_pawn |= mask,
            (Color::Black, Type::King) => self.b_king |= mask,
            (Color::Black, Type::Queen) => self.b_queen |= mask,
            (Color::Black, Type::Knight) => self.b_knight |= mask,
            (Color::Black, Type::Bishop) => self.b_bishop |= mask,
            (Color::Black, Type::Rook) => self.b_rook |= mask,
            (Color::Black, Type::Pawn) => self.b_pawn |= mask,
        }
        assert(*self == old(self).with_bits(color, piece, mask));
    }

    /// The piece on the square of `square`, if there is one.
    pub fn piece_at(&self, square: u64) -> (found: Option<(Color, Type)>)
        requires
            is_square_mask(square),
        ensures
            found == (if self@.pieces.dom().contains(square_index(square)) {
                Some(self@.pieces[square_index(square)])
            } else {
                None
            }),
    {
        proof {
            lemma_square_mask_of_index(square);
            let at = square_index(square);
            lemma_meets_square(self.w_king, at);
            lemma_meets_square(self.w_queen, at);
            lemma_meets_square(self.w_knight, at);
            lemma_meets_square(self.w_bishop, at);
            lemma_meets_square(self.w_rook, at);
            lemma_meets_square(self.w_pawn, at);
            lemma_meets_square(self.b_king, at);
            lemma_meets_square(self.b_queen, at);
            lemma_meets_square(self.b_knight, at);
            lemma_meets_square(self.b_bishop, at);
            lemma_meets_square(self.b_rook, at);
            lemma_meets_square(self.b_pawn, at);
        }
        if self.w_king & square != 0 {
            Some((Color::White, Type::King))
        } else if self.w_queen & square != 0 {
            Some((Color::White, Type::Queen))
        } else if self.w_knight & square != 0 {
            Some((Color::White, Type::Knight))
        } else if self.w_bishop & square != 0 {
            Some((Color::White, Type::Bishop))
        } else if self.w_rook & square != 0 {
            Some((Color::White, Type::Rook))
        } else if self.w_pawn & square != 0 {
            Some((Color::White, Type::Pawn))
        } else if self.b_king & square != 0 {
            Some((Color::Black, Type::King))
        } else if self.b_queen & square != 0 {
            Some((Color::Black, Type::Queen))
        } else if self.b_knight & square != 0 {
            Some((Color::Black, Type::Knight))
        } else if self.b_bishop & square != 0 {
            Some((Color::Black, Type::Bishop))
        } else if self.b_rook & square != 0 {
            Some((Color::Black, Type::Rook))
        } else if self.b_pawn & square != 0 {
            Some((Color::Black, Type::Pawn))
        } else {
            None
        }
    }

    /// Reads the piece placement onto this position, which must hold no piece
    /// yet. A placement that cannot be read leaves the position as it was.
    fn board_position_fen(&mut self, board_fen: &str) -> (done: Result<(), FenError>)
        requires
            old(self).wf(),
            old(self)@.pieces == Map::<int, (Color, Type)>::empty(),
        ensures
            match read_placement(old(self)@, board_fen@) {
                Ok(position) => done is Ok && final(self).wf() && final(self)@ == position,
                Err(error) => done == Err::<(), FenError>(error) && *final(self) == *old(self),
            },
    {
        let ranks = split_on(board_fen, '/');
        let ghost texts = views(ranks@);
        let mut next = *self;
        let mut row: usize = 0;
        assert(texts.skip(0) =~= texts);
        while row < ranks.len()
            invariant
                row <= ranks.len(),
                texts == views(ranks@),
                texts == split(board_fen@, '/'),
                next.wf(),
                next@ == (Position { pieces: next@.pieces, ..old(self)@ }),
                *self == *old(self),
                place_ranks(old(self)@.pieces, texts, 0) == place_ranks(
                    next@.pieces,
                    texts.skip(row as int),
                    row as int,
                ),
                forall|square: int| #[trigger]
                    next@.pieces.dom().contains(square) ==> square >= 8 * (8 - row),
            decreases ranks.len() - row,
        {
            let ghost rest = texts.skip(row as int);
            assert(rest[0] == ranks@[row as int]@);
            assert(rest.drop_first() =~= texts.skip(row + 1));
            let entries = match fen_to_rank((row, ranks[row])) {
                Ok(entries) => entries,
                Err(error) => {
                    return Err(error);
                },
            };
            let ghost listed = entries_of(entries@);
            proof {
                lemma_rank_entries_ordered(row as int, rest[0]);
            }
            assert(listed.skip(0) =~= listed);
            let ghost start = next@.pieces;
            let ghost bound: int = 0;
            let mut index: usize = 0;
            while index < entries.len()
                invariant
                    index <= entries.len(),
                    texts == split(board_fen@, '/'),
                    listed == entries_of(entries@),
                    forall|i: int| 0 <= i < listed.len() ==> (#[trigger] listed[i]).0 == row,
                    forall|i: int, j: int|
                        0 <= i < j < listed.len() ==> (#[trigger] listed[i]).1 < (
                        #[trigger] listed[j]).1,
                    next.wf(),
                    next@ == (Position { pieces: next@.pieces, ..old(self)@ }),
                    *self == *old(self),
                    place_entries(start, listed) == place_entries(
                        next@.pieces,
                        listed.skip(index as int),
                    ),
                    place_ranks(old(self)@.pieces, texts, 0) == (match place_entries(
                        start,
                        listed,
                    ) {
                        Ok(placed) => place_ranks(placed, texts.skip(row + 1), row + 1),
                        Err(error) => Err(error),
                    }),
                    0 <= bound <= 8,
                    index < listed.len() ==> listed[index as int].1 >= bound,
                    forall|square: int| #[trigger]
                        next@.pieces.dom().contains(square) ==> square >= 8 * (8 - row) || (8 * (7
                            - row) <= square < 8 * (7 - row) + bound),
                decreases entries.len() - index,
            {
                let (rank, file, symbol) = entries[index];
                let ghost left = listed.skip(index as int);
                assert(left[0] == listed[index as int]);
                assert(left[0] == (rank as int, file as int, symbol));
                assert(left.drop_first() =~= listed.skip(index + 1));
                if rank >= 8 {
                    return Err(FenError::SquareOffBoard);
                }
                let mask = match try_select_rank_file((8 - rank) as u8, file) {
                    Some(mask) => mask,
                    None => {
                        return Err(FenError::SquareOffBoard);
                    },
                };
                let piece = match Type::from_char(symbol) {
                    Some(piece) => piece,
                    None => {
                        return Err(FenError::InvalidPieceType);
                    },
                };
                let color = match Color::get_color_from_fen(symbol) {
                    Ok(color) => color,
                    Err(error) => {
                        return Err(error);
                    },
                };
                assert(piece_of(symbol) == Some((color, piece)));
                next.place(color, piece, mask);
                proof {
                    bound = file + 1;
                    if index + 1 < listed.len() {
                        assert(listed[index as int].1 < listed[index + 1].1);
                    }
                }
                index += 1;
            }
            assert(listed.skip(listed.len() as int) =~= Seq::<(int, int, char)>::empty());
            row += 1;
        }
        assert(texts.skip(texts.len() as int) =~= Seq::<Seq<char>>::empty());
        *self = next;
        Ok(())
    }

    /// Reads the side to move. A field that cannot be read leaves the
    /// position as it was.
    fn turn_fen(&mut self, turn_fen: &str) -> (done: Result<(), FenError>)
        ensures
            match read_turn(old(self)@, turn_fen@) {
                Ok(position) => done is Ok && final(self)@ == position,
                Err(error) => done == Err::<(), FenError>(error) && *final(self) == *old(self),
            },
            old(self).wf() ==> final(self).wf(),
    {
        match Color::from_str(turn_fen) {
            Ok(color) => {
                self.current_turn = color;
                proof {
                    self.lemma_same_boards(*old(self));
                }
                Ok(())
            },
            Err(error) => Err(error),
        }
    }

    /// Reads the castling rights. A field that cannot be read leaves the
    /// position as it was.
    fn castling_fen(&mut self, castling_fen: &str) -> (done: Result<(), FenError>)
        ensures
            match read_castling(old(self)@, castling_fen@) {
                Ok(position) => done is Ok && final(self)@ == position,
                Err(error) => done == Err::<(), FenError>(error) && *final(self) == *old(self),
            },
            old(self).wf() ==> final(self).wf(),
    {
        if is_dash(castling_fen) {
            self.white_castle = CastleRights::none();
            self.black_castle = CastleRights::none();
            proof {
                self.lemma_same_boards(*old(self));
            }
            return Ok(());
        }
        let mut white = self.white_castle;
        let mut black = self.black_castle;
        let ghost field = castling_fen@;
        assert(field.take(0) =~= Seq::<char>::empty());
        for symbol in it: castling_fen.chars()
            invariant
                it.seq() == field,
                field == castling_fen@,
                field != seq!['-'],
                *self == *old(self),
                forall|i: int| 0 <= i < it.index() ==> is_castling_symbol(#[trigger] field[i]),
                white@ == grant(
                    grant(
                        old(self).white_castle@,
                        field.take(it.index()).contains('K'),
                        CastleAvailable::KingSide,
                    ),
                    field.take(it.index()).contains('Q'),
                    CastleAvailable::QueenSide,
                ),
                black@ == grant(
                    grant(
                        old(self).black_castle@,
                        field.take(it.index()).contains('k'),
                        CastleAvailable::KingSide,
                    ),
                    field.take(it.index()).contains('q'),
                    CastleAvailable::QueenSide,
                ),
        {
            let ghost read = field.take(it.index());
            let ghost longer = field.take(it.index() + 1);
            assert(longer =~= read.push(symbol));
            assert forall|wanted: char| #[trigger]
                longer.contains(wanted) <==> read.contains(wanted) || symbol == wanted by {
                if read.contains(wanted) {
                    let at = choose|at: int| 0 <= at < read.len() && read[at] == wanted;
                    assert(longer[at] == wanted);
                }
                if symbol == wanted {
                    assert(longer[longer.len() - 1] == wanted);
                }
            }
            match symbol {
                'K' => {
                    white = white.with(CastleAvailable::KingSide);
                },
                'Q' => {
                    white = white.with(CastleAvailable::QueenSide);
                },
                'k' => {
                    black = black.with(CastleAvailable::KingSide);
                },
                'q' => {
                    black = black.with(CastleAvailable::QueenSide);
                },
                _ => {
                    assert(!is_castling_symbol(field[it.index()]));
                    return Err(FenError::InvalidCastling);
                },
            }
            assert(white@ =~= grant(
                grant(old(self).white_castle@, longer.contains('K'), CastleAvailable::KingSide),
                longer.contains('Q'),
                CastleAvailable::QueenSide,
            ));
            assert(black@ =~= grant(
                grant(old(self).black_castle@, longer.contains('k'), CastleAvailable::KingSide),
                longer.contains('q'),
                CastleAvailable::QueenSide,
            ));
        }
        assert(field.take(field.len() as int) =~= field);
        self.white_castle = white;
        self.black_castle = black;
        proof {
            self.lemma_same_boards(*old(self));
        }
        Ok(())
    }

    /// Reads the en-passant target. A field that cannot be read leaves the
    /// position as it was.
    fn en_passant_fen(&mut self, en_passant_fen: &str) -> (done: Result<(), FenError>)
        ensures
            match read_en_passant(old(self)@, en_passant_fen@) {
                Ok(position) => done is Ok && final(self)@ == position,
                Err(error) => done == Err::<(), FenError>(error) && *final(self) == *old(self),
            },
            old(self).wf() ==> final(self).wf(),
    {
        if is_dash(en_passant_fen) {
            return Ok(());
        }
        let mut letters = en_passant_fen.chars();
        let file = letters.next();
        let rank = letters.next();
        let more = letters.next();
        match (file, rank, more) {
            (Some(file), Some(rank), None) => {
                if 'a' <= file && file <= 'h' && '1' <= rank && rank <= '8' {
                    let mask = select_rank_file(
                        (rank as u32 - '0' as u32) as u8,
                        (file as u32 - 'a' as u32) as u8,
                    );
                    self.en_passant = mask;
                    proof {
                        self.lemma_same_boards(*old(self));
                    }
                    Ok(())
                } else {
                    Err(FenError::InvalidEnPassant)
                }
            },
            _ => Err(FenError::InvalidEnPassant),
        }
    }

    /// Decodes a FEN string: six fields with a space between one and the
    /// next, read onto a blank position in their order. The first field that
    /// is missing or cannot be read decides the error.
    pub fn from_fen(fen_string: &str) -> (decoded: Result<PerformantRepr, FenError>)
        ensures
            match decode_fen(fen_string@) {
                Ok(position) => decoded matches Ok(board) && board.wf() && board@ == position,
                Err(error) => decoded == Err::<PerformantRepr, FenError>(error),
            },
    {
        let mut board = Self::blank();
        let fen_split = split_on(fen_string, ' ');
        proof {
            reveal_with_fuel(read_fields, 7);
            assert(views(fen_split@).len() >= 1) by {
                lemma_split_join(fen_string@, ' ');
            }
            assert forall|i: int| 0 <= i < fen_split@.len() implies views(fen_split@)[i]
                == fen_split@[i]@ by {}
        }
        match board.board_position_fen(fen_split[0]) {
            Ok(()) => {},
            Err(error) => {
                return Err(error);
            },
        }
        if fen_split.len() < 2 {
            return Err(FenError::MissingField);
        }
        match board.turn_fen(fen_split[1]) {
            Ok(()) => {},
            Err(error) => {
                return Err(error);
            },
        }
        if fen_split.len() < 3 {
            return Err(FenError::MissingField);
        }
        match board.castling_fen(fen_split[2]) {
            Ok(()) => {},
            Err(error) => {
                return Err(error);
            },
        }
        if fen_split.len() < 4 {
            return Err(FenError::MissingField);
        }
        match board.en_passant_fen(fen_split[3]) {
            Ok(()) => {},
            Err(error) => {
                return Err(error);
            },
        }
        if fen_split.len() < 5 {
            return Err(FenError::MissingField);
        }
        let ghost read = board;
        match parse_number(fen_split[4], u32::MAX as u64) {
            Some(count) => {
                board.half_moves_count = count as u32;
            },
            None => {
                return Err(FenError::InvalidHalfMoveClock);
            },
        }
        if fen_split.len() < 6 {
            return Err(FenError::MissingField);
        }
        match parse_number(fen_split[5], usize::MAX as u64) {
            Some(count) => {
                board.moves_count = count as usize;
            },
            None => {
                return Err(FenError::InvalidFullMoveNumber);
            },
        }
        proof {
            board.lemma_same_boards(read);
        }
        Ok(board)
    }

    /// Tells whether `moving` may move `piece` from the square of `from` to
    /// the square of `to`. A move that has not the shape of the piece's move
    /// is turned down at once. Nothing vouches for the others: what stands in
    /// the way, or on the target square, is not looked at, so no move is
    /// accepted. The position stays as it is.
    #[allow(unused_variables)]
    pub fn valid_move(&self, piece: &Type, moving: &Color, from: u64, to: u64) -> (valid: bool)
        requires
            is_square_mask(from),
            is_square_mask(to),
        ensures
            !valid,
    {
        if !piece.valid_move(from, to) {
            return false;
        }
        false
    }

    /// The bitboard of the pieces of one color and type.
    pub fn board(&self, color: Color, piece: Type) -> (bits: u64)
        ensures
            bits == self.spec_board(color, piece),
            self.wf() ==> forall|square: int| #[trigger]
                bit_set(bits, square) <==> self@.pieces.contains_pair(square, (color, piece)),
    {
        let bits = match (color, piece) {
            (Color::White, Type::King) => self.w_king,
            (Color::White, Type::Queen) => self.w_queen,
            (Color::White, Type::Knight) => self.w_knight,
            (Color::White, Type::Bishop) => self.w_bishop,
            (Color::White, Type::Rook) => self.w_rook,
            (Color::White, Type::Pawn) => self.w_pawn,
            (Color::Black, Type::King) => self.b_king,
            (Color::Black, Type::Queen) => self.b_queen,
            (Color::Black, Type::Knight) => self.b_knight,
            (Color::Black, Type::Bishop) => self.b_bishop,
            (Color::Black, Type::Rook) => self.b_rook,
            (Color::Black, Type::Pawn) => self.b_pawn,
        };
        proof {
            if self.wf() {
                assert forall|square: int| #[trigger]
                    bit_set(bits, square) <==> self@.pieces.contains_pair(
                        square,
                        (color, piece),
                    ) by {
                    self.lemma_boards_match_view(color, piece, square);
                }
            }
        }
        bits
    }

    /// The side to move.
    pub fn current_turn(&self) -> (turn: Color)
        ensures
            turn == self@.turn,
    {
        self.current_turn
    }

    /// The castling moves left to White.
    pub fn white_castle(&self) -> (rights: CastleRights)
        ensures
            rights@ == self@.white_castle,
    {
        self.white_castle
    }

    /// The castling moves left to Black.
    pub fn black_castle(&self) -> (rights: CastleRights)
        ensures
            rights@ == self@.black_castle,
    {
        self.black_castle
    }

    /// The number of the move to come.
    pub fn moves_count(&self) -> (count: usize)
        ensures
            count == self@.moves,
    {
        self.moves_count
    }

    /// The plies since the last pawn move or capture.
    pub fn half_moves_count(&self) -> (count: u32)
        ensures
            count == self@.half_moves,
    {
        self.half_moves_count
    }

    /// The mask of the en-passant target, or 0 if there is none.
    pub fn en_passant(&self) -> (mask: u64)
        ensures
            match self@.en_passant {
                Some(square) => mask != 0 && square_index(mask) == square,
                None => mask == 0,
            },
            self.wf() && mask != 0 ==> is_square_mask(mask),
    {
        self.en_passant
    }

    /// A position with the same bitboards holds the same pieces, and no
    /// square of it holds two if none does here.
    proof fn lemma_same_boards(self, other: PerformantRepr)
        requires
            forall|color: Color, piece: Type| #[trigger]
                self.spec_board(color, piece) == other.spec_board(color, piece),
        ensures
            self@.pieces == other@.pieces,
            other.wf() && (self.en_passant == 0 || is_square_mask(self.en_passant)) ==> self.wf(),
    {
        assert(self.spec_board(Color::White, Type::King) == other.spec_board(
            Color::White,
            Type::King,
        ));
        assert(self.spec_board(Color::White, Type::Queen) == other.spec_board(
            Color::White,
            Type::Queen,
        ));
        assert(self.spec_board(Color::White, Type::Knight) == other.spec_board(
            Color::White,
            Type::Knight,
        ));
        assert(self.spec_board(Color::White, Type::Bishop) == other.spec_board(
            Color::White,
            Type::Bishop,
        ));
        assert(self.spec_board(Color::White, Type::Rook) == other.spec_board(
            Color::White,
            Type::Rook,
        ));
        assert(self.spec_board(Color::White, Type::Pawn) == other.spec_board(
            Color::White,
            Type::Pawn,
        ));
        assert(self.spec_board(Color::Black, Type::King) == other.spec_board(
            Color::Black,
            Type::King,
        ));
        assert(self.spec_board(Color::Black, Type::Queen) == other.spec_board(
            Color::Black,
            Type::Queen,
        ));
        assert(self.spec_board(Color::Black, Type::Knight) == other.spec_board(
            Color::Black,
            Type::Knight,
        ));
        assert(self.spec_board(Color::Black, Type::Bishop) == other.spec_board(
            Color::Black,
            Type::Bishop,
        ));
        assert(self.spec_board(Color::Black, Type::Rook) == other.spec_board(
            Color::Black,
            Type::Rook,
        ));
        assert(self.spec_board(Color::Black, Type::Pawn) == other.spec_board(
            Color::Black,
            Type::Pawn,
        ));
        assert forall|square: int| #[trigger] self.occupant(square) == other.occupant(square) by {}
        assert(self@.pieces =~= other@.pieces);
        if other.wf() {
            assert forall|square: int, color: Color, piece: Type| #[trigger]
                bit_set(self.spec_board(color, piece), square) implies self.occupant(square)
                == Some((color, piece)) by {
                assert(bit_set(other.spec_board(color, piece), square));
            }
        }
    }

    /// Two well-formed positions that hold the same pieces on the same
    /// squares have the same bitboard for each color and piece type.
    proof fn lemma_pieces_decide_board(self, other: PerformantRepr, color: Color, piece: Type)
        requires
            self.wf(),
            other.wf(),
            self@.pieces == other@.pieces,
        ensures
            self.spec_board(color, piece) == other.spec_board(color, piece),
    {
        assert forall|square: int|
            bit_set(self.spec_board(color, piece), square) == bit_set(
                other.spec_board(color, piece),
                square,
            ) by {
            self.lemma_boards_match_view(color, piece, square);
            other.lemma_boards_match_view(color, piece, square);
        }
        lemma_bits_decide(self.spec_board(color, piece), other.spec_board(color, piece));
    }

    /// Well-formed positions with the same view are the same: what a
    /// contract says of the view, it says of every bit.
    pub proof fn lemma_view_decides(self, other: PerformantRepr)
        requires
            self.wf(),
            other.wf(),
            self@ == other@,
        ensures
            self == other,
    {
        self.lemma_pieces_decide_board(other, Color::White, Type::King);
        self.lemma_pieces_decide_board(other, Color::White, Type::Queen);
        self.lemma_pieces_decide_board(other, Color::White, Type::Knight);
        self.lemma_pieces_decide_board(other, Color::White, Type::Bishop);
        self.lemma_pieces_decide_board(other, Color::White, Type::Rook);
        self.lemma_pieces_decide_board(other, Color::White, Type::Pawn);
        self.lemma_pieces_decide_board(other, Color::Black, Type::King);
        self.lemma_pieces_decide_board(other, Color::Black, Type::Queen);
        self.lemma_pieces_decide_board(other, Color::Black, Type::Knight);
        self.lemma_pieces_decide_board(other, Color::Black, Type::Bishop);
        self.lemma_pieces_decide_board(other, Color::Black, Type::Rook);
        self.lemma_pieces_decide_board(other, Color::Black, Type::Pawn);
        self.white_castle.lemma_view_decides(other.white_castle);
        self.black_castle.lemma_view_decides(other.black_castle);
        if self.en_passant != 0 {
            lemma_square_mask_of_index(self.en_passant);
            lemma_square_mask_of_index(other.en_passant);
        }
    }

    /// The board without pieces.
    pub fn blank() -> (board: PerformantRepr)
        ensures
            board.wf(),
            board@ == Position::blank(),
    {
        let board = PerformantRepr {
            w_king: 0,
            w_queen: 0,
            w_knight: 0,
            w_bishop: 0,
            w_rook: 0,
            w_pawn: 0,
            b_king: 0,
            b_queen: 0,
            b_knight: 0,
            b_bishop: 0,
            b_rook: 0,
            b_pawn: 0,
            white_castle: CastleRights::all(),
            black_castle: CastleRights::all(),
            current_turn: Color::White,
            moves_count: 1,
            half_moves_count: 0,
            en_passant: 0,
        };
        proof {
            assert forall|square: int| board.occupant(square) is None by {
                lemma_empty_board(square);
            }
            assert(board@.pieces =~= Map::<int, (Color, Type)>::empty());
            assert forall|square: int, color: Color, piece: Type|
                #[trigger] bit_set(board.spec_board(color, piece), square) implies board.occupant(
                square,
            ) == Some((color, piece)) by {
                lemma_empty_board(square);
            }
        }
        board
    }
}

impl Default for PerformantRepr {
    /// The position before the first move.
    fn default() -> (board: PerformantRepr)
        ensures
            board.wf(),
            board@ == Position::starting(),
    {
        let board = PerformantRepr {
            w_king: 0x10,
            w_queen: 0x08,
            w_knight: 0x42,
            w_bishop: 0x24,
            w_rook: 0x81,
            w_pawn: 0xFF00,
            b_king: 0x1000_0000_0000_0000,
            b_queen: 0x0800_0000_0000_0000,
            b_knight: 0x4200_0000_0000_0000,
            b_bishop: 0x2400_0000_0000_0000,
            b_rook: 0x8100_0000_0000_0000,
            b_pawn: 0x00FF_0000_0000_0000,
            white_castle: CastleRights::all(),
            black_castle: CastleRights::all(),
            current_turn: Color::White,
            moves_count: 1,
            half_moves_count: 0,
            en_passant: 0,
        };
        proof {
            assert forall|square: int| #[trigger]
                board.occupant(square) == starting_piece(square) by {
                if 0 <= square < 64 {
                    lemma_starting_boards(square as u64);
                }
            }
            assert(board@.pieces =~= Position::starting().pieces);
            assert forall|square: int, color: Color, piece: Type| #[trigger]
                bit_set(board.spec_board(color, piece), square) implies board.occupant(square)
                == Some((color, piece)) by {
                lemma_starting_boards(square as u64);
            }
        }
        board
    }
}

} // verus!
