use a4::fen::FenParseError;
use a4::position::Position;
use a4::squareset::SquareSet;
use a4::types::{Color, File, Piece, PieceKind, Rank, Square, RANK_3, RANK_4, RANK_5, RANK_6};

#[test]
fn position_fen_smoke() {
    let pos = Position::from_fen("8/8/8/8/8/8/8/8 w - - 0 0").unwrap();

    // white's turn to move.
    assert_eq!(Color::White, pos.side_to_move());

    // no castling.
    assert!(!pos.can_castle_kingside(Color::White));
    assert!(!pos.can_castle_kingside(Color::Black));
    assert!(!pos.can_castle_queenside(Color::White));
    assert!(!pos.can_castle_queenside(Color::Black));

    // no en passant.
    assert!(pos.en_passant_square().is_none());

    // both clocks are zero.
    assert_eq!(0, pos.halfmove_clock());
    assert_eq!(0, pos.fullmove_clock());
}

#[test]
fn position_starting_position() {
    let pos =
        Position::from_fen("rnbqkbnr/pppppppp/8/8/8/8/PPPPPPPP/RNBQKBNR w KQkq - 0 1")
            .unwrap();

    let check_square = |square: &'static str, piece: Piece| {
        assert!(square.len() == 2);
        let chars: Vec<_> = square.chars().collect();
        let file = File::try_from_char(chars[0]).unwrap();
        let rank = Rank::try_from_char(chars[1]).unwrap();
        let square = Square::of(rank, file);
        let piece_on_square = pos.piece_at(square).unwrap();
        assert_eq!(piece.kind, piece_on_square.kind);
        assert_eq!(piece.color, piece_on_square.color);
    };

    let expected_vacant_squares = SquareSet::all()
        .rank(Rank::new(RANK_3))
        .or(SquareSet::all().rank(Rank::new(RANK_4)))
        .or(SquareSet::all().rank(Rank::new(RANK_5)))
        .or(SquareSet::all().rank(Rank::new(RANK_6)));

    let check_vacant = |square: Square| {
        assert!(pos.piece_at(square).is_none());
    };

    check_square(
        "a1",
        Piece {
            kind: PieceKind::Rook,
            color: Color::White,
        },
    );
    check_square(
        "b1",
        Piece {
            kind: PieceKind::Knight,
            color: Color::White,
        },
    );
    check_square(
        "c1",
        Piece {
            kind: PieceKind::Bishop,
            color: Color::White,
        },
    );
    check_square(
        "d1",
        Piece {
            kind: PieceKind::Queen,
            color: Color::White,
        },
    );
    check_square(
        "e1",
        Piece {
            kind: PieceKind::King,
            color: Color::White,
        },
    );
    check_square(
        "f1",
        Piece {
            kind: PieceKind::Bishop,
            color: Color::White,
        },
    );
    check_square(
        "g1",
        Piece {
            kind: PieceKind::Knight,
            color: Color::White,
        },
    );
    check_square(
        "h1",
        Piece {
            kind: PieceKind::Rook,
            color: Color::White,
        },
    );
    check_square(
        "a2",
        Piece {
            kind: PieceKind::Pawn,
            color: Color::White,
        },
    );
    check_square(
        "b2",
        Piece {
            kind: PieceKind::Pawn,
            color: Color::White,
        },
    );
    check_square(
        "c2",
        Piece {
            kind: PieceKind::Pawn,
            color: Color::White,
        },
    );
    check_square(
        "d2",
        Piece {
            kind: PieceKind::Pawn,
            color: Color::White,
        },
    );
    check_square(
        "e2",
        Piece {
            kind: PieceKind::Pawn,
            color: Color::White,
        },
    );
    check_square(
        "f2",
        Piece {
            kind: PieceKind::Pawn,
            color: Color::White,
        },
    );
    check_square(
        "g2",
        Piece {
            kind: PieceKind::Pawn,
            color: Color::White,
        },
    );
    check_square(
        "h2",
        Piece {
            kind: PieceKind::Pawn,
            color: Color::White,
        },
    );

    for square in expected_vacant_squares.to_vec() {
        let sq_actual = Square::try_from_u8(square.as_u8()).unwrap();
        check_vacant(sq_actual);
    }

    check_square(
        "a7",
        Piece {
            kind: PieceKind::Pawn,
            color: Color::Black,
        },
    );
    check_square(
        "b7",
        Piece {
            kind: PieceKind::Pawn,
            color: Color::Black,
        },
    );
    check_square(
        "c7",
        Piece {
            kind: PieceKind::Pawn,
            color: Color::Black,
        },
    );
    check_square(
        "d7",
        Piece {
            kind: PieceKind::Pawn,
            color: Color::Black,
        },
    );
    check_square(
        "e7",
        Piece {
            kind: PieceKind::Pawn,
            color: Color::Black,
        },
    );
    check_square(
        "f7",
        Piece {
            kind: PieceKind::Pawn,
            color: Color::Black,
        },
    );
    check_square(
        "g7",
        Piece {
            kind: PieceKind::Pawn,
            color: Color::Black,
        },
    );
    check_square(
        "h7",
        Piece {
            kind: PieceKind::Pawn,
            color: Color::Black,
        },
    );
    check_square(
        "a8",
        Piece {
            kind: PieceKind::Rook,
            color: Color::Black,
        },
    );
    check_square(
        "b8",
        Piece {
            kind: PieceKind::Knight,
            color: Color::Black,
        },
    );
    check_square(
        "c8",
        Piece {
            kind: PieceKind::Bishop,
            color: Color::Black,
        },
    );
    check_square(
        "d8",
        Piece {
            kind: PieceKind::Queen,
            color: Color::Black,
        },
    );
    check_square(
        "e8",
        Piece {
            kind: PieceKind::King,
            color: Color::Black,
        },
    );
    check_square(
        "f8",
        Piece {
            kind: PieceKind::Bishop,
            color: Color::Black,
        },
    );
    check_square(
        "g8",
        Piece {
            kind: PieceKind::Knight,
            color: Color::Black,
        },
    );
    check_square(
        "h8",
        Piece {
            kind: PieceKind::Rook,
            color: Color::Black,
        },
    );

    assert!(pos.can_castle_kingside(Color::White));
    assert!(pos.can_castle_kingside(Color::Black));
    assert!(pos.can_castle_queenside(Color::White));
    assert!(pos.can_castle_queenside(Color::Black));
}

#[test]
fn position_empty() {
    let err = Position::from_fen("").unwrap_err();
    assert_eq!(FenParseError::UnexpectedEnd, err);
}

#[test]
fn position_unknown_piece() {
    let err = Position::from_fen("z7/8/8/8/8/8/8/8 w - - 0 0").unwrap_err();
    assert_eq!(FenParseError::UnknownPiece('z'), err);
}

#[test]
fn position_invalid_digit() {
    let err = Position::from_fen("9/8/8/8/8/8/8/8 w - - 0 0").unwrap_err();
    assert_eq!(FenParseError::InvalidDigit, err);
}

#[test]
fn position_not_sum_to_8() {
    let err = Position::from_fen("pppp5/8/8/8/8/8/8/8 w - - 0 0").unwrap_err();
    assert_eq!(FenParseError::FileDoesNotSumToEight, err);
}

#[test]
fn position_bad_side_to_move() {
    let err = Position::from_fen("8/8/8/8/8/8/8/8 c - - 0 0").unwrap_err();
    assert_eq!(FenParseError::InvalidSideToMove, err);
}

#[test]
fn position_bad_castle_status() {
    let err = Position::from_fen("8/8/8/8/8/8/8/8 w a - 0 0").unwrap_err();
    assert_eq!(FenParseError::InvalidCastle, err);
}

#[test]
fn position_bad_en_passant() {
    let err = Position::from_fen("8/8/8/8/8/8/8/8 w - 88 0 0").unwrap_err();
    assert_eq!(FenParseError::InvalidEnPassant, err);
}

#[test]
fn position_empty_halfmove() {
    let err = Position::from_fen("8/8/8/8/8/8/8/8 w - - q 0").unwrap_err();
    assert_eq!(FenParseError::EmptyHalfmove, err);
}

#[test]
fn position_invalid_halfmove() {
    let err = Position::from_fen("8/8/8/8/8/8/8/8 w - - 4294967296 0").unwrap_err();
    assert_eq!(FenParseError::InvalidHalfmove, err);
}

#[test]
fn position_empty_fullmove() {
    let err = Position::from_fen("8/8/8/8/8/8/8/8 w - - 0 q").unwrap_err();
    assert_eq!(FenParseError::EmptyFullmove, err);
}

#[test]
fn position_fullmove_early_end() {
    let err = Position::from_fen("8/8/8/8/8/8/8/8 w - - 0").unwrap_err();
    assert_eq!(FenParseError::UnexpectedEnd, err);
}

#[test]
fn position_invalid_fullmove() {
    let err = Position::from_fen("8/8/8/8/8/8/8/8 w - - 0 4294967296").unwrap_err();
    assert_eq!(FenParseError::InvalidFullmove, err);
}

#[test]
fn position_start_position_roundtrip() {
    let str = "rnbqkbnr/pppppppp/8/8/8/8/PPPPPPPP/RNBQKBNR w KQkq - 0 1";
    let pos = Position::from_fen(str).unwrap();
    assert_eq!(pos.as_fen(), str);
}

#[test]
fn fen_smoke() {
    let pos = Position::from_fen("8/8/8/8/8/8/8/8 w - - 0 0").unwrap();

    // white's turn to move.
    assert_eq!(Color::White, pos.side_to_move());

    // no castling.
    assert!(!pos.can_castle_kingside(Color::White));
    assert!(!pos.can_castle_kingside(Color::Black));
    assert!(!pos.can_castle_queenside(Color::White));
    assert!(!pos.can_castle_queenside(Color::Black));

    // no en passant.
    assert!(pos.en_passant_square().is_none());

    // both clocks are zero.
    assert_eq!(0, pos.halfmove_clock());
    assert_eq!(0, pos.fullmove_clock());
}

#[test]
fn starting_position() {
    let pos =
        Position::from_fen("rnbqkbnr/pppppppp/8/8/8/8/PPPPPPPP/RNBQKBNR w KQkq - 0 1")
            .unwrap();

    let check_square = |square: &'static str, piece: Piece| {
        assert!(square.len() == 2);
        let chars: Vec<_> = square.chars().collect();
        let file = File::try_from_char(chars[0]).unwrap();
        let rank = Rank::try_from_char(chars[1]).unwrap();
        let square = Square::of(rank, file);
        let piece_on_square = pos.piece_at(square).unwrap();
        assert_eq!(piece.kind, piece_on_square.kind);
        assert_eq!(piece.color, piece_on_square.color);
    };

    let expected_vacant_squares = SquareSet::all()
        .rank(Rank::new(RANK_3))
        .or(SquareSet::all().rank(Rank::new(RANK_4)))
        .or(SquareSet::all().rank(Rank::new(RANK_5)))
        .or(SquareSet::all().rank(Rank::new(RANK_6)));

    let check_vacant = |square: Square| {
        assert!(pos.piece_at(square).is_none());
    };

    check_square(
        "a1",
        Piece {
            kind: PieceKind::Rook,
            color: Color::White,
        },
    );
    check_square(
        "b1",
        Piece {
            kind: PieceKind::Knight,
            color: Color::White,
        },
    );
    check_square(
        "c1",
        Piece {
            kind: PieceKind::Bishop,
            color: Color::White,
        },
    );
    check_square(
        "d1",
        Piece {
            kind: PieceKind::Queen,
            color: Color::White,
        },
    );
    check_square(
        "e1",
        Piece {
            kind: PieceKind::King,
            color: Color::White,
        },
    );
    check_square(
        "f1",
        Piece {
            kind: PieceKind::Bishop,
            color: Color::White,
        },
    );
    check_square(
        "g1",
        Piece {
            kind: PieceKind::Knight,
            color: Color::White,
        },
    );
    check_square(
        "h1",
        Piece {
            kind: PieceKind::Rook,
            color: Color::White,
        },
    );
    check_square(
        "a2",
        Piece {
            kind: PieceKind::Pawn,
            color: Color::White,
        },
    );
    check_square(
        "b2",
        Piece {
            kind: PieceKind::Pawn,
            color: Color::White,
        },
    );
    check_square(
        "c2",
        Piece {
            kind: PieceKind::Pawn,
            color: Color::White,
        },
    );
    check_square(
        "d2",
        Piece {
            kind: PieceKind::Pawn,
            color: Color::White,
        },
    );
    check_square(
        "e2",
        Piece {
            kind: PieceKind::Pawn,
            color: Color::White,
        },
    );
    check_square(
        "f2",
        Piece {
            kind: PieceKind::Pawn,
            color: Color::White,
        },
    );
    check_square(
        "g2",
        Piece {
            kind: PieceKind::Pawn,
            color: Color::White,
        },
    );
    check_square(
        "h2",
        Piece {
            kind: PieceKind::Pawn,
            color: Color::White,
        },
    );

    for square in expected_vacant_squares.to_vec() {
        let sq_actual = Square::try_from_u8(square.as_u8()).unwrap();
        check_vacant(sq_actual);
    }

    check_square(
        "a7",
        Piece {
            kind: PieceKind::Pawn,
            color: Color::Black,
        },
    );
    check_square(
        "b7",
        Piece {
            kind: PieceKind::Pawn,
            color: Color::Black,
        },
    );
    check_square(
        "c7",
        Piece {
            kind: PieceKind::Pawn,
            color: Color::Black,
        },
    );
    check_square(
        "d7",
        Piece {
            kind: PieceKind::Pawn,
            color: Color::Black,
        },
    );
    check_square(
        "e7",
        Piece {
            kind: PieceKind::Pawn,
            color: Color::Black,
        },
    );
    check_square(
        "f7",
        Piece {
            kind: PieceKind::Pawn,
            color: Color::Black,
        },
    );
    check_square(
        "g7",
        Piece {
            kind: PieceKind::Pawn,
            color: Color::Black,
        },
    );
    check_square(
        "h7",
        Piece {
            kind: PieceKind::Pawn,
            color: Color::Black,
        },
    );
    check_square(
        "a8",
        Piece {
            kind: PieceKind::Rook,
            color: Color::Black,
        },
    );
    check_square(
        "b8",
        Piece {
            kind: PieceKind::Knight,
            color: Color::Black,
        },
    );
    check_square(
        "c8",
        Piece {
            kind: PieceKind::Bishop,
            color: Color::Black,
        },
    );
    check_square(
        "d8",
        Piece {
            kind: PieceKind::Queen,
            color: Color::Black,
        },
    );
    check_square(
        "e8",
        Piece {
            kind: PieceKind::King,
            color: Color::Black,
        },
    );
    check_square(
        "f8",
        Piece {
            kind: PieceKind::Bishop,
            color: Color::Black,
        },
    );
    check_square(
        "g8",
        Piece {
            kind: PieceKind::Knight,
            color: Color::Black,
        },
    );
    check_square(
        "h8",
        Piece {
            kind: PieceKind::Rook,
            color: Color::Black,
        },
    );

    assert!(pos.can_castle_kingside(Color::White));
    assert!(pos.can_castle_kingside(Color::Black));
    assert!(pos.can_castle_queenside(Color::White));
    assert!(pos.can_castle_queenside(Color::Black));
}

#[test]
fn empty() {
    let err = Position::from_fen("").unwrap_err();
    assert_eq!(FenParseError::UnexpectedEnd, err);
}

#[test]
fn unknown_piece() {
    let err = Position::from_fen("z7/8/8/8/8/8/8/8 w - - 0 0").unwrap_err();
    assert_eq!(FenParseError::UnknownPiece('z'), err);
}

#[test]
fn invalid_digit() {
    let err = Position::from_fen("9/8/8/8/8/8/8/8 w - - 0 0").unwrap_err();
    assert_eq!(FenParseError::InvalidDigit, err);
}

#[test]
fn not_sum_to_8() {
    let err = Position::from_fen("pppp5/8/8/8/8/8/8/8 w - - 0 0").unwrap_err();
    assert_eq!(FenParseError::FileDoesNotSumToEight, err);
}

#[test]
fn bad_side_to_move() {
    let err = Position::from_fen("8/8/8/8/8/8/8/8 c - - 0 0").unwrap_err();
    assert_eq!(FenParseError::InvalidSideToMove, err);
}

#[test]
fn bad_castle_status() {
    let err = Position::from_fen("8/8/8/8/8/8/8/8 w a - 0 0").unwrap_err();
    assert_eq!(FenParseError::InvalidCastle, err);
}

#[test]
fn bad_en_passant() {
    let err = Position::from_fen("8/8/8/8/8/8/8/8 w - 88 0 0").unwrap_err();
    assert_eq!(FenParseError::InvalidEnPassant, err);
}

#[test]
fn empty_halfmove() {
    let err = Position::from_fen("8/8/8/8/8/8/8/8 w - - q 0").unwrap_err();
    assert_eq!(FenParseError::EmptyHalfmove, err);
}

#[test]
fn invalid_halfmove() {
    let err = Position::from_fen("8/8/8/8/8/8/8/8 w - - 4294967296 0").unwrap_err();
    assert_eq!(FenParseError::InvalidHalfmove, err);
}

#[test]
fn empty_fullmove() {
    let err = Position::from_fen("8/8/8/8/8/8/8/8 w - - 0 q").unwrap_err();
    assert_eq!(FenParseError::EmptyFullmove, err);
}

#[test]
fn fullmove_early_end() {
    let err = Position::from_fen("8/8/8/8/8/8/8/8 w - - 0").unwrap_err();
    assert_eq!(FenParseError::UnexpectedEnd, err);
}

#[test]
fn invalid_fullmove() {
    let err = Position::from_fen("8/8/8/8/8/8/8/8 w - - 0 4294967296").unwrap_err();
    assert_eq!(FenParseError::InvalidFullmove, err);
}

#[test]
fn start_position_roundtrip() {
    let str = "rnbqkbnr/pppppppp/8/8/8/8/PPPPPPPP/RNBQKBNR w KQkq - 0 1";
    let pos = Position::from_fen(str).unwrap();
    assert_eq!(pos.as_fen(), str);
}
