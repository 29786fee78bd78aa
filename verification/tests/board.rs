use chess_engine::engine::board::{
    fen_to_rank, select_rank_file, try_select_rank_file, PerformantRepr,
};
use chess_engine::engine::castle::{CastleAvailable, CastleRights};
use chess_engine::engine::error::FenError;
use chess_engine::engine::piece::{Color, Type};

const STARTING_FEN: &str = "rnbqkbnr/pppppppp/8/8/8/8/PPPPPPPP/RNBQKBNR w KQkq - 0 1";

#[test]
fn test_color_from_string() {
    assert_eq!(Color::get_color_from_fen('K'), Ok(Color::White));
    assert_eq!(Color::get_color_from_fen('Q'), Ok(Color::White));
    assert_eq!(Color::get_color_from_fen('p'), Ok(Color::Black));
    assert_eq!(Color::get_color_from_fen('n'), Ok(Color::Black));
}

#[test]
fn test_color_from_string_number() {
    assert_eq!(Color::get_color_from_fen('1'), Err(FenError::InvalidPieceType));
}

#[test]
fn test_color_from_string_not_chess() {
    assert_eq!(Color::get_color_from_fen('h'), Err(FenError::InvalidPieceType));
}

#[test]
fn test_location_mask() {
    for rank in 1..=8 {
        for file in 0..=7 {
            let mask = select_rank_file(rank, file);
            assert_eq!(mask.count_ones(), 1);
            assert_eq!(mask.trailing_zeros(), ((rank - 1) * 8 + file).into());
        }
    }
}

#[test]
fn test_location_mask_rank_low() {
    assert_eq!(try_select_rank_file(0, 2), None);
}

#[test]
fn test_location_mask_rank_high() {
    assert_eq!(try_select_rank_file(10, 2), None);
    assert_eq!(try_select_rank_file(9, 2), None);
}

#[test]
fn test_location_mask_file_high() {
    assert_eq!(try_select_rank_file(3, 10), None);
    assert_eq!(try_select_rank_file(3, 8), None);
}

#[test]
fn test_location_mask_checked_agrees() {
    for rank in 1..=8 {
        for file in 0..=7 {
            assert_eq!(try_select_rank_file(rank, file), Some(select_rank_file(rank, file)));
        }
    }
    assert_eq!(select_rank_file(1, 0), 1);
    assert_eq!(select_rank_file(1, 7), 128);
    assert_eq!(select_rank_file(2, 0), 256);
    assert_eq!(select_rank_file(8, 7), 1 << 63);
}

#[test]
fn test_default_fen() {
    let starting_pos = "rnbqkbnr/pppppppp/8/8/8/8/PPPPPPPP/RNBQKBNR w KQkq - 0 1";
    let board = PerformantRepr::from_fen(starting_pos);
    assert_eq!(board, Ok(PerformantRepr::default()));
}

#[test]
fn test_default_bitboards() {
    let board = PerformantRepr::default();
    assert_eq!(board.board(Color::White, Type::King), 16);
    assert_eq!(board.board(Color::White, Type::Queen), 8);
    assert_eq!(board.board(Color::White, Type::Knight), 66);
    assert_eq!(board.board(Color::White, Type::Bishop), 36);
    assert_eq!(board.board(Color::White, Type::Rook), 129);
    assert_eq!(board.board(Color::White, Type::Pawn), 65_280);
    assert_eq!(board.board(Color::Black, Type::King), 1_152_921_504_606_846_976);
    assert_eq!(board.board(Color::Black, Type::Queen), 576_460_752_303_423_488);
    assert_eq!(board.board(Color::Black, Type::Knight), 4_755_801_206_503_243_776);
    assert_eq!(board.board(Color::Black, Type::Bishop), 2_594_073_385_365_405_696);
    assert_eq!(board.board(Color::Black, Type::Rook), 9_295_429_630_892_703_744);
    assert_eq!(board.board(Color::Black, Type::Pawn), 71_776_119_061_217_280);
    assert_eq!(board.current_turn(), Color::White);
    assert_eq!(board.white_castle(), CastleRights::all());
    assert_eq!(board.black_castle(), CastleRights::all());
    assert_eq!(board.moves_count(), 1);
    assert_eq!(board.half_moves_count(), 0);
    assert_eq!(board.en_passant(), 0);
}

#[test]
fn test_blank_board() {
    let board = PerformantRepr::blank();
    for color in [Color::White, Color::Black] {
        for piece in [Type::King, Type::Queen, Type::Bishop, Type::Knight, Type::Rook, Type::Pawn]
        {
            assert_eq!(board.board(color, piece), 0);
        }
    }
    assert_eq!(board.current_turn(), Color::White);
    assert_eq!(board.white_castle(), CastleRights::all());
    assert_eq!(board.black_castle(), CastleRights::all());
    assert_eq!(board.moves_count(), 1);
    assert_eq!(board.half_moves_count(), 0);
    assert_eq!(board.en_passant(), 0);
}

#[test]
fn test_piece_at_starting_position() {
    let board = PerformantRepr::from_fen(STARTING_FEN).unwrap();
    assert_eq!(board.piece_at(select_rank_file(1, 4)), Some((Color::White, Type::King)));
    assert_eq!(board.piece_at(select_rank_file(1, 3)), Some((Color::White, Type::Queen)));
    assert_eq!(board.piece_at(select_rank_file(1, 0)), Some((Color::White, Type::Rook)));
    assert_eq!(board.piece_at(select_rank_file(1, 6)), Some((Color::White, Type::Knight)));
    assert_eq!(board.piece_at(select_rank_file(2, 5)), Some((Color::White, Type::Pawn)));
    assert_eq!(board.piece_at(select_rank_file(8, 3)), Some((Color::Black, Type::Queen)));
    assert_eq!(board.piece_at(select_rank_file(8, 2)), Some((Color::Black, Type::Bishop)));
    assert_eq!(board.piece_at(select_rank_file(7, 7)), Some((Color::Black, Type::Pawn)));
    for rank in 3..=6 {
        for file in 0..=7 {
            assert_eq!(board.piece_at(select_rank_file(rank, file)), None);
        }
    }
}

#[test]
fn test_placement_reads_ranks_from_the_eighth_down() {
    let board = PerformantRepr::from_fen("k7/8/8/8/8/8/8/7K b - - 3 9").unwrap();
    assert_eq!(board.board(Color::Black, Type::King), 1 << 56);
    assert_eq!(board.board(Color::White, Type::King), 1 << 7);
    assert_eq!(board.board(Color::White, Type::Pawn), 0);
    assert_eq!(board.current_turn(), Color::Black);
    assert_eq!(board.half_moves_count(), 3);
    assert_eq!(board.moves_count(), 9);
}

#[test]
fn test_placement_digits_skip_files() {
    let board = PerformantRepr::from_fen("8/8/8/2p1P3/8/8/8/8 w - - 0 1").unwrap();
    assert_eq!(board.board(Color::Black, Type::Pawn), select_rank_file(5, 2));
    assert_eq!(board.board(Color::White, Type::Pawn), select_rank_file(5, 4));
    assert_eq!(board.piece_at(select_rank_file(5, 3)), None);
}

#[test]
fn test_placement_may_have_fewer_ranks() {
    let board = PerformantRepr::from_fen("q w - - 0 1").unwrap();
    assert_eq!(board.board(Color::Black, Type::Queen), select_rank_file(8, 0));
}

#[test]
fn test_placement_may_be_wider_than_the_board_where_it_is_empty() {
    let board = PerformantRepr::from_fen("9/p9 w - - 0 1").unwrap();
    assert_eq!(board.board(Color::Black, Type::Pawn), select_rank_file(7, 0));
}

#[test]
fn test_fen_to_rank_back_rank() {
    assert_eq!(
        fen_to_rank((0, "rnbqkbnr")),
        Ok(vec![
            (0, 0, 'r'),
            (0, 1, 'n'),
            (0, 2, 'b'),
            (0, 3, 'q'),
            (0, 4, 'k'),
            (0, 5, 'b'),
            (0, 6, 'n'),
            (0, 7, 'r'),
        ])
    );
}

#[test]
fn test_fen_to_rank_counts_empty_files() {
    assert_eq!(fen_to_rank((3, "8")), Ok(vec![]));
    assert_eq!(fen_to_rank((3, "")), Ok(vec![]));
    assert_eq!(fen_to_rank((5, "3p4")), Ok(vec![(5, 3, 'p')]));
    assert_eq!(fen_to_rank((7, "p2P1x")), Ok(vec![(7, 0, 'p'), (7, 3, 'P'), (7, 5, 'x')]));
    assert_eq!(fen_to_rank((1, "0k0")), Ok(vec![(1, 0, 'k')]));
}

#[test]
fn test_fen_to_rank_too_wide() {
    let mut wide = String::new();
    for _ in 0..28 {
        wide.push('9');
    }
    wide.push('3');
    assert_eq!(fen_to_rank((0, &wide)), Ok(vec![]));
    wide.push('1');
    assert_eq!(fen_to_rank((0, &wide)), Err(FenError::RankTooWide));
    let mut pieces = String::new();
    for _ in 0..255 {
        pieces.push('p');
    }
    assert_eq!(fen_to_rank((0, &pieces)).map(|entries| entries.len()), Ok(255));
    pieces.push('p');
    assert_eq!(fen_to_rank((0, &pieces)), Err(FenError::RankTooWide));
}

#[test]
fn test_castling_dash_clears_both_sides() {
    let board = PerformantRepr::from_fen("8/8/8/8/8/8/8/8 w - - 0 1").unwrap();
    assert_eq!(board.white_castle(), CastleRights::none());
    assert_eq!(board.black_castle(), CastleRights::none());
    assert!(board.white_castle().is_empty());
    assert!(!board.white_castle().contains(CastleAvailable::KingSide));
    assert!(!board.white_castle().contains(CastleAvailable::QueenSide));
    assert!(!board.black_castle().contains(CastleAvailable::KingSide));
    assert!(!board.black_castle().contains(CastleAvailable::QueenSide));
}

#[test]
fn test_castling_all_letters_give_all_rights() {
    let board = PerformantRepr::from_fen("8/8/8/8/8/8/8/8 w KQkq - 0 1").unwrap();
    assert!(board.white_castle().contains(CastleAvailable::KingSide));
    assert!(board.white_castle().contains(CastleAvailable::QueenSide));
    assert!(board.black_castle().contains(CastleAvailable::KingSide));
    assert!(board.black_castle().contains(CastleAvailable::QueenSide));
}

#[test]
fn test_castling_letters_add_to_the_rights_of_a_blank_board() {
    let board = PerformantRepr::from_fen("8/8/8/8/8/8/8/8 w K - 0 1").unwrap();
    assert_eq!(board.white_castle(), CastleRights::all());
    assert_eq!(board.black_castle(), CastleRights::all());
    let board = PerformantRepr::from_fen("8/8/8/8/8/8/8/8 w  - 0 1").unwrap();
    assert_eq!(board.white_castle(), CastleRights::all());
    assert_eq!(board.black_castle(), CastleRights::all());
}

#[test]
fn test_castle_rights_as_a_set() {
    let none = CastleRights::none();
    assert!(none.is_empty());
    let king = none.with(CastleAvailable::KingSide);
    assert!(king.contains(CastleAvailable::KingSide));
    assert!(!king.contains(CastleAvailable::QueenSide));
    assert!(!king.is_empty());
    assert_eq!(king.with(CastleAvailable::KingSide), king);
    assert_eq!(king.with(CastleAvailable::QueenSide), CastleRights::all());
    assert_eq!(
        none.with(CastleAvailable::QueenSide).with(CastleAvailable::KingSide),
        CastleRights::all()
    );
}

#[test]
fn test_en_passant_target() {
    let board = PerformantRepr::from_fen("8/8/8/8/4P3/8/8/8 b - e3 0 1").unwrap();
    assert_eq!(board.en_passant(), select_rank_file(3, 4));
    assert_eq!(board.en_passant(), 1 << 20);
    let board = PerformantRepr::from_fen("8/8/8/8/8/8/8/8 w - a1 0 1").unwrap();
    assert_eq!(board.en_passant(), 1);
    let board = PerformantRepr::from_fen("8/8/8/8/8/8/8/8 w - h8 0 1").unwrap();
    assert_eq!(board.en_passant(), 1 << 63);
    let board = PerformantRepr::from_fen("8/8/8/8/8/8/8/8 w - - 0 1").unwrap();
    assert_eq!(board.en_passant(), 0);
}

#[test]
fn test_counters() {
    let board = PerformantRepr::from_fen("8/8/8/8/8/8/8/8 w - - 12 34").unwrap();
    assert_eq!(board.half_moves_count(), 12);
    assert_eq!(board.moves_count(), 34);
    let board = PerformantRepr::from_fen("8/8/8/8/8/8/8/8 w - - 4294967295 +007").unwrap();
    assert_eq!(board.half_moves_count(), u32::MAX);
    assert_eq!(board.moves_count(), 7);
    let board = PerformantRepr::from_fen("8/8/8/8/8/8/8/8 w - - 0 0").unwrap();
    assert_eq!(board.moves_count(), 0);
}

#[test]
fn test_fields_after_the_sixth_are_ignored() {
    assert_eq!(
        PerformantRepr::from_fen("rnbqkbnr/pppppppp/8/8/8/8/PPPPPPPP/RNBQKBNR w KQkq - 0 1 x y"),
        Ok(PerformantRepr::default())
    );
}

#[test]
fn test_error_missing_field() {
    assert_eq!(PerformantRepr::from_fen(""), Err(FenError::MissingField));
    assert_eq!(PerformantRepr::from_fen("8/8"), Err(FenError::MissingField));
    assert_eq!(PerformantRepr::from_fen("8/8 w"), Err(FenError::MissingField));
    assert_eq!(PerformantRepr::from_fen("8/8 w KQ"), Err(FenError::MissingField));
    assert_eq!(PerformantRepr::from_fen("8/8 w KQ -"), Err(FenError::MissingField));
    assert_eq!(PerformantRepr::from_fen("8/8 w KQ - 0"), Err(FenError::MissingField));
}

#[test]
fn test_error_invalid_piece_type() {
    assert_eq!(
        PerformantRepr::from_fen("rnbqkbnr/pppppppp/8/8/8/8/PPPPPPPP/RNBQKBNX w KQkq - 0 1"),
        Err(FenError::InvalidPieceType)
    );
    assert_eq!(PerformantRepr::from_fen("8/8/8/3h4 w - - 0 1"), Err(FenError::InvalidPieceType));
    assert_eq!(PerformantRepr::from_fen("x"), Err(FenError::InvalidPieceType));
}

#[test]
fn test_error_square_off_board() {
    assert_eq!(PerformantRepr::from_fen("8p w - - 0 1"), Err(FenError::SquareOffBoard));
    assert_eq!(PerformantRepr::from_fen("ppppppppp w - - 0 1"), Err(FenError::SquareOffBoard));
    assert_eq!(
        PerformantRepr::from_fen("8/8/8/8/8/8/8/8/K w - - 0 1"),
        Err(FenError::SquareOffBoard)
    );
    assert_eq!(PerformantRepr::from_fen("8x w - - 0 1"), Err(FenError::SquareOffBoard));
}

#[test]
fn test_error_rank_too_wide() {
    let mut fen = String::new();
    for _ in 0..29 {
        fen.push('9');
    }
    fen.push_str(" w - - 0 1");
    assert_eq!(PerformantRepr::from_fen(&fen), Err(FenError::RankTooWide));
}

#[test]
fn test_error_invalid_turn() {
    assert_eq!(PerformantRepr::from_fen("8/8 x - - 0 1"), Err(FenError::InvalidTurn));
    assert_eq!(PerformantRepr::from_fen("8/8 W - - 0 1"), Err(FenError::InvalidTurn));
    assert_eq!(PerformantRepr::from_fen("8/8 wb - - 0 1"), Err(FenError::InvalidTurn));
    assert_eq!(PerformantRepr::from_fen("8/8  w - - 0 1"), Err(FenError::InvalidTurn));
}

#[test]
fn test_error_invalid_castling() {
    assert_eq!(PerformantRepr::from_fen("8/8 w KQxq - 0 1"), Err(FenError::InvalidCastling));
    assert_eq!(PerformantRepr::from_fen("8/8 w -- - 0 1"), Err(FenError::InvalidCastling));
    assert_eq!(PerformantRepr::from_fen("8/8 w K- - 0 1"), Err(FenError::InvalidCastling));
}

#[test]
fn test_error_invalid_en_passant() {
    assert_eq!(PerformantRepr::from_fen("8/8 w - e9 0 1"), Err(FenError::InvalidEnPassant));
    assert_eq!(PerformantRepr::from_fen("8/8 w - e0 0 1"), Err(FenError::InvalidEnPassant));
    assert_eq!(PerformantRepr::from_fen("8/8 w - i3 0 1"), Err(FenError::InvalidEnPassant));
    assert_eq!(PerformantRepr::from_fen("8/8 w - E3 0 1"), Err(FenError::InvalidEnPassant));
    assert_eq!(PerformantRepr::from_fen("8/8 w - e 0 1"), Err(FenError::InvalidEnPassant));
    assert_eq!(PerformantRepr::from_fen("8/8 w - e33 0 1"), Err(FenError::InvalidEnPassant));
    assert_eq!(PerformantRepr::from_fen("8/8 w -  0 1"), Err(FenError::InvalidEnPassant));
}

#[test]
fn test_error_invalid_counters() {
    assert_eq!(PerformantRepr::from_fen("8/8 w - - x 1"), Err(FenError::InvalidHalfMoveClock));
    assert_eq!(PerformantRepr::from_fen("8/8 w - - -1 1"), Err(FenError::InvalidHalfMoveClock));
    assert_eq!(
        PerformantRepr::from_fen("8/8 w - - 4294967296 1"),
        Err(FenError::InvalidHalfMoveClock)
    );
    assert_eq!(PerformantRepr::from_fen("8/8 w - - 0 x"), Err(FenError::InvalidFullMoveNumber));
    assert_eq!(PerformantRepr::from_fen("8/8 w - - 0 1.5"), Err(FenError::InvalidFullMoveNumber));
    assert_eq!(
        PerformantRepr::from_fen("8/8 w - - 0 99999999999999999999999999"),
        Err(FenError::InvalidFullMoveNumber)
    );
}

#[test]
fn test_errors_come_in_the_order_of_the_fields() {
    assert_eq!(PerformantRepr::from_fen("x8 x x x x x"), Err(FenError::InvalidPieceType));
    assert_eq!(PerformantRepr::from_fen("8 x x x x x"), Err(FenError::InvalidTurn));
    assert_eq!(PerformantRepr::from_fen("8 w x x x x"), Err(FenError::InvalidCastling));
    assert_eq!(PerformantRepr::from_fen("8 w - x x x"), Err(FenError::InvalidEnPassant));
    assert_eq!(PerformantRepr::from_fen("8 w - - x x"), Err(FenError::InvalidHalfMoveClock));
    assert_eq!(PerformantRepr::from_fen("8 w - - 0 x"), Err(FenError::InvalidFullMoveNumber));
    assert_eq!(PerformantRepr::from_fen("8x/x w - - 0 1"), Err(FenError::SquareOffBoard));
    assert_eq!(PerformantRepr::from_fen("x/8x w - - 0 1"), Err(FenError::InvalidPieceType));
}

#[test]
fn test_board_valid_move_accepts_nothing() {
    let board = PerformantRepr::default();
    let from = select_rank_file(2, 4);
    assert!(!board.valid_move(&Type::Pawn, &Color::White, from, select_rank_file(3, 4)));
    assert!(!board.valid_move(&Type::Pawn, &Color::White, from, select_rank_file(5, 1)));
    assert!(!board.valid_move(&Type::Knight, &Color::White, 1 << 1, 1 << 18));
    assert_eq!(board, PerformantRepr::default());
}

fn piece_of_side(board: &PerformantRepr, side: Color, (rank, file): (u8, u8)) -> Option<Type> {
    let Some(square) = try_select_rank_file(rank, file) else {
        return None;
    };
    match board.piece_at(square) {
        Some((owner, piece)) if owner == side => Some(piece),
        _ => None,
    }
}

#[test]
fn test_starting_arrangement_by_side() {
    let board = PerformantRepr::default();
    let officers = [
        Type::Rook,
        Type::Knight,
        Type::Bishop,
        Type::Queen,
        Type::King,
        Type::Bishop,
        Type::Knight,
        Type::Rook,
    ];
    for file in 0..8u8 {
        let officer = officers[usize::from(file)];
        assert_eq!(piece_of_side(&board, Color::White, (1, file)), Some(officer));
        assert_eq!(piece_of_side(&board, Color::White, (2, file)), Some(Type::Pawn));
        assert_eq!(piece_of_side(&board, Color::Black, (8, file)), Some(officer));
        assert_eq!(piece_of_side(&board, Color::Black, (7, file)), Some(Type::Pawn));
        assert_eq!(piece_of_side(&board, Color::Black, (1, file)), None);
        assert_eq!(piece_of_side(&board, Color::White, (8, file)), None);
        assert_eq!(piece_of_side(&board, Color::White, (4, file)), None);
        assert_eq!(piece_of_side(&board, Color::White, (0, file)), None);
        assert_eq!(piece_of_side(&board, Color::White, (9, file)), None);
    }
    assert_eq!(piece_of_side(&board, Color::White, (1, 8)), None);
}
