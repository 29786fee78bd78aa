use chess_engine::engine::error::FenError;
use chess_engine::engine::piece::{Color, Type};
use chess_engine::engine::square::{is_square, light_square};

fn steps(from: u32, to: u32) -> u32 {
    from.abs_diff(to)
}

#[test]
fn test_king_shape() {
    for from in 0..64u32 {
        for to in 0..64u32 {
            let expected = matches!(steps(from, to), 1 | 7 | 8 | 9);
            assert_eq!(Type::King.valid_move(1 << from, 1 << to), expected);
        }
    }
    assert!(Type::King.valid_move(1 << 4, 1 << 5));
    assert!(Type::King.valid_move(1 << 5, 1 << 4));
    assert!(Type::King.valid_move(1 << 4, 1 << 11));
    assert!(Type::King.valid_move(1 << 4, 1 << 12));
    assert!(Type::King.valid_move(1 << 4, 1 << 13));
    assert!(!Type::King.valid_move(1 << 4, 1 << 4));
    assert!(!Type::King.valid_move(1 << 4, 1 << 6));
    assert!(!Type::King.valid_move(1 << 4, 1 << 20));
}

#[test]
fn test_knight_shape() {
    for from in 0..64u32 {
        for to in 0..64u32 {
            let expected = matches!(steps(from, to), 6 | 10 | 15 | 17);
            assert_eq!(Type::Knight.valid_move(1 << from, 1 << to), expected);
        }
    }
    assert!(Type::Knight.valid_move(1 << 1, 1 << 18));
    assert!(Type::Knight.valid_move(1 << 18, 1 << 1));
    assert!(!Type::Knight.valid_move(1 << 1, 1 << 2));
}

#[test]
fn test_pawn_shape() {
    for from in 0..64u32 {
        for to in 0..64u32 {
            let expected = matches!(steps(from, to), 7 | 8 | 9);
            assert_eq!(Type::Pawn.valid_move(1 << from, 1 << to), expected);
        }
    }
}

#[test]
fn test_pawn_double_step_is_rejected() {
    for from in 0..48u32 {
        assert!(!Type::Pawn.valid_move(1 << from, 1 << (from + 16)));
        assert!(!Type::Pawn.valid_move(1 << (from + 16), 1 << from));
    }
    assert!(!Type::Pawn.valid_move(1 << 12, 1 << 28));
    assert!(!Type::Pawn.valid_move(1 << 52, 1 << 36));
}

#[test]
fn test_bishop_shape() {
    for from in 0..64u32 {
        for to in 0..64u32 {
            let d = steps(from, to);
            assert_eq!(Type::Bishop.valid_move(1 << from, 1 << to), d % 7 == 0 || d % 9 == 0);
        }
    }
    assert!(Type::Bishop.valid_move(1 << 2, 1 << 47));
    assert!(Type::Bishop.valid_move(1 << 2, 1 << 16));
    assert!(Type::Bishop.valid_move(1 << 2, 1 << 2));
    assert!(!Type::Bishop.valid_move(1 << 2, 1 << 3));
}

#[test]
fn test_rook_shape() {
    for from in 0..64u32 {
        for to in 0..64u32 {
            let d = steps(from, to);
            assert_eq!(Type::Rook.valid_move(1 << from, 1 << to), d % 8 == 0 || d < 8);
        }
    }
    assert!(Type::Rook.valid_move(1, 1 << 56));
    assert!(Type::Rook.valid_move(1, 1 << 7));
    assert!(Type::Rook.valid_move(1 << 7, 1 << 8));
    assert!(!Type::Rook.valid_move(1, 1 << 9));
}

#[test]
fn test_queen_shape() {
    for from in 0..64u32 {
        for to in 0..64u32 {
            let d = steps(from, to);
            let expected = d % 8 == 0 || d < 8 || d % 7 == 0 || d % 9 == 0;
            assert_eq!(Type::Queen.valid_move(1 << from, 1 << to), expected);
        }
    }
    assert!(!Type::Queen.valid_move(1, 1 << 10));
    assert!(Type::Queen.valid_move(1, 1 << 63));
}

#[test]
fn test_type_from_char() {
    assert_eq!(Type::from_char('k'), Some(Type::King));
    assert_eq!(Type::from_char('K'), Some(Type::King));
    assert_eq!(Type::from_char('q'), Some(Type::Queen));
    assert_eq!(Type::from_char('Q'), Some(Type::Queen));
    assert_eq!(Type::from_char('b'), Some(Type::Bishop));
    assert_eq!(Type::from_char('B'), Some(Type::Bishop));
    assert_eq!(Type::from_char('n'), Some(Type::Knight));
    assert_eq!(Type::from_char('N'), Some(Type::Knight));
    assert_eq!(Type::from_char('r'), Some(Type::Rook));
    assert_eq!(Type::from_char('R'), Some(Type::Rook));
    assert_eq!(Type::from_char('p'), Some(Type::Pawn));
    assert_eq!(Type::from_char('P'), Some(Type::Pawn));
    assert_eq!(Type::from_char('h'), None);
    assert_eq!(Type::from_char('1'), None);
    assert_eq!(Type::from_char(' '), None);
}

#[test]
fn test_type_from_str() {
    assert_eq!(Type::from_str("k"), Ok(Type::King));
    assert_eq!(Type::from_str("N"), Ok(Type::Knight));
    assert_eq!(Type::from_str(""), Err(FenError::InvalidPieceType));
    assert_eq!(Type::from_str("kk"), Err(FenError::InvalidPieceType));
    assert_eq!(Type::from_str("e"), Err(FenError::InvalidPieceType));
}

#[test]
fn test_color_from_str() {
    assert_eq!(Color::from_str("w"), Ok(Color::White));
    assert_eq!(Color::from_str("b"), Ok(Color::Black));
    assert_eq!(Color::from_str("W"), Err(FenError::InvalidTurn));
    assert_eq!(Color::from_str(""), Err(FenError::InvalidTurn));
    assert_eq!(Color::from_str("wb"), Err(FenError::InvalidTurn));
}

#[test]
fn test_color_of_every_piece_letter() {
    for letter in ['K', 'Q', 'B', 'N', 'R', 'P'] {
        assert_eq!(Color::get_color_from_fen(letter), Ok(Color::White));
    }
    for letter in ['k', 'q', 'b', 'n', 'r', 'p'] {
        assert_eq!(Color::get_color_from_fen(letter), Ok(Color::Black));
    }
    for letter in ['a', 'H', '0', '/', ' ', '-'] {
        assert_eq!(Color::get_color_from_fen(letter), Err(FenError::InvalidPieceType));
    }
}

#[test]
fn test_is_square() {
    assert!(!is_square(0));
    assert!(is_square(1));
    assert!(is_square(1 << 63));
    assert!(!is_square(3));
    assert!(!is_square(u64::MAX));
    for index in 0..64u32 {
        assert!(is_square(1 << index));
        assert_eq!(is_square((1 << index) | 1), index == 0);
    }
}

#[test]
fn test_light_squares_alternate() {
    assert!(!light_square(1, 0));
    assert!(light_square(1, 1));
    assert!(light_square(1, 7));
    assert!(light_square(8, 0));
    assert!(!light_square(8, 7));
    assert!(light_square(1, 3));
    assert!(!light_square(8, 3));
    for rank in 1..=8u8 {
        for file in 0..=7u8 {
            assert_eq!(light_square(rank, file), (rank - 1 + file + 1) % 2 == 0);
        }
    }
}
