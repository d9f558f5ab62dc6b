use a4::moves::Move;
use a4::position::Position;
use a4::types::{
    Color, PieceKind, Square, A1, A2, A5, B1, B6, C1, D1, D5, D6, E1, E2, E3, E4, E5, E6, E7, E8,
    F1, F3, F4, F8, G1, G4, H1, H2, H3, H5, H6, H7,
};

fn sq(index: u8) -> Square {
    Square::new(index)
}

#[test]
fn smoke_test_opening_pawn() {
    let mut pos =
        Position::from_fen("rnbqkbnr/pppppppp/8/8/8/8/PPPPPPPP/RNBQKBNR w KQkq - 2 1")
            .unwrap();

    // nothing fancy, move a pawn up one.
    pos.make_move(Move::quiet(sq(E2), sq(E3)));

    // it should now be Black's turn to move.
    assert_eq!(Color::Black, pos.side_to_move());

    // the fullmove clock shouldn't have incremented
    // (it only increments every Black move)
    assert_eq!(1, pos.fullmove_clock());

    // a pawn moved, so the halfmove clock should be zero.
    assert_eq!(0, pos.halfmove_clock());

    // there should be a pawn on e3
    let pawn = pos.piece_at(sq(E3)).unwrap();
    assert_eq!(PieceKind::Pawn, pawn.kind);
    assert_eq!(Color::White, pawn.color);

    // there should not be a pawn on e2
    let not_pawn = pos.piece_at(sq(E2));
    assert!(not_pawn.is_none());
}

#[test]
fn en_passant_reset() {
    // EP square at e3, black to move
    let mut pos = Position::from_fen("8/8/8/8/4Pp2/8/8/8 b - e3 0 1").unwrap();

    // black not taking EP opportunity
    pos.make_move(Move::quiet(sq(F4), sq(F3)));

    // EP no longer possible.
    assert_eq!(Color::White, pos.side_to_move());
    assert_eq!(None, pos.en_passant_square());
}

#[test]
fn double_pawn_push_sets_ep() {
    // white to move
    let mut pos = Position::from_fen("8/8/8/8/8/8/4P3/8 w - - 0 1").unwrap();

    // white double-pawn pushes
    pos.make_move(Move::double_pawn_push(sq(E2), sq(E4)));

    // now black to move, with EP square set
    assert_eq!(Color::Black, pos.side_to_move());
    assert_eq!(Some(sq(E3)), pos.en_passant_square());
}

#[test]
fn basic_capture() {
    let mut pos = Position::from_fen("8/8/8/8/5p2/4P3/8/8 w - - 2 1").unwrap();
    pos.make_move(Move::capture(sq(E3), sq(F4)));

    // There should be a white pawn on F4
    let piece = pos.piece_at(sq(F4)).unwrap();
    assert_eq!(PieceKind::Pawn, piece.kind);
    assert_eq!(Color::White, piece.color);

    // There should be no piece on E3
    let other_piece = pos.piece_at(sq(E3));
    assert!(other_piece.is_none());

    // The halfmove clock should reset (capture)
    assert_eq!(0, pos.halfmove_clock());
}

#[test]
fn non_pawn_quiet_move() {
    let mut pos = Position::from_fen("8/8/8/8/8/8/4B3/8 w - - 5 2").unwrap();
    pos.make_move(Move::quiet(sq(E2), sq(G4)));

    // the halfmove clock should not be reset.
    assert_eq!(6, pos.halfmove_clock());
}

#[test]
fn moving_king_castle_status() {
    let mut pos = Position::from_fen("8/8/8/8/8/8/8/4K2R w KQ - 0 1").unwrap();

    // white's turn to move, white moves its king.
    pos.make_move(Move::quiet(sq(E1), sq(E2)));

    // white can't castle anymore.
    assert!(!pos.can_castle_kingside(Color::White));
    assert!(!pos.can_castle_queenside(Color::White));
}

#[test]
fn moving_kingside_rook_castle_status() {
    let mut pos = Position::from_fen("8/8/8/8/8/8/8/4K2R w KQ - 0 1").unwrap();

    // white's turn to move, white moves its kingside rook.
    pos.make_move(Move::quiet(sq(H1), sq(G1)));

    // white can't castle kingside anymore
    assert!(!pos.can_castle_kingside(Color::White));
    assert!(pos.can_castle_queenside(Color::White));
}

#[test]
fn moving_queenside_rook_castle_status() {
    let mut pos = Position::from_fen("8/8/8/8/8/8/8/R3K3 w KQ - 0 1").unwrap();

    // white's turn to move, white moves its queenside rook.
    pos.make_move(Move::quiet(sq(A1), sq(B1)));

    // white can't castle queenside anymore
    assert!(!pos.can_castle_queenside(Color::White));
    assert!(pos.can_castle_kingside(Color::White));
}

#[test]
fn rook_capture_castle_status() {
    // tests that we can't capture if there's no rook on the target
    // square, even if the rooks themselves never moved (i.e. they
    // were captured on their starting square)
    let mut pos = Position::from_fen("8/8/8/8/8/7r/4P3/R3K2R b KQ - 0 1").unwrap();

    // black to move, black captures the rook at H1
    pos.make_move(Move::capture(sq(H3), sq(H1)));

    // white to move, white pushes the pawn
    pos.make_move(Move::double_pawn_push(sq(E2), sq(E4)));

    // black to move, black moves the rook
    pos.make_move(Move::quiet(sq(H1), sq(H5)));

    // white moves the queenside rook to the kingside rook
    // start location
    pos.make_move(Move::quiet(sq(A1), sq(A2)));
    pos.make_move(Move::quiet(sq(H5), sq(H6)));
    pos.make_move(Move::quiet(sq(A2), sq(H2)));
    pos.make_move(Move::quiet(sq(H6), sq(H7)));
    pos.make_move(Move::quiet(sq(H2), sq(H1)));

    // white shouldn't be able to castle kingside, despite
    // there being a rook on the kingside rook square
    // and us never moving the kingside rook
    assert!(!pos.can_castle_kingside(Color::White));
}

#[test]
fn en_passant_capture() {
    // tests that we remove an ep-captured piece from its
    // actual location and not try to remove the EP-square
    let mut pos = Position::from_fen("8/8/8/3pP3/8/8/8/8 w - d6 0 1").unwrap();

    // white to move, white EP-captures the pawn
    pos.make_move(Move::en_passant(sq(E5), sq(D6)));

    // there should not be a piece at D5 anymore
    let black_pawn = pos.piece_at(sq(D5));
    assert!(black_pawn.is_none());

    // the white pawn should be at the EP-square
    let white_pawn = pos.piece_at(sq(D6)).unwrap();
    assert_eq!(Color::White, white_pawn.color);
    assert_eq!(PieceKind::Pawn, white_pawn.kind);
}

#[test]
fn basic_promotion() {
    let mut pos = Position::from_fen("8/4P3/8/8/8/8/8/8 w - - 0 1").unwrap();

    // white to move, white promotes the pawn on e7
    pos.make_move(Move::promotion(sq(E7), sq(E8), PieceKind::Queen));

    // there should be a queen on e8
    let queen = pos.piece_at(sq(E8)).unwrap();
    assert_eq!(Color::White, queen.color);
    assert_eq!(PieceKind::Queen, queen.kind);
}

#[test]
fn basic_promote_capture() {
    let mut pos = Position::from_fen("5b2/4P3/8/8/8/8/8/8 w - - 0 1").unwrap();

    // white to move, white promote-captures the pawn on e7 and captures
    // the bishop
    pos.make_move(Move::promotion_capture(sq(E7), sq(F8), PieceKind::Queen));

    // there should be a white queen on f8
    let queen = pos.piece_at(sq(F8)).unwrap();
    assert_eq!(Color::White, queen.color);
    assert_eq!(PieceKind::Queen, queen.kind);
}

#[test]
fn position_queenside_castle() {
    let mut pos = Position::from_fen("8/8/8/8/8/8/8/R3K3 w Q - 0 1").unwrap();

    // white to move, white castles queenside
    pos.make_move(Move::queenside_castle(sq(E1), sq(C1)));

    let rook = pos.piece_at(sq(D1)).unwrap();
    assert_eq!(Color::White, rook.color);
    assert_eq!(PieceKind::Rook, rook.kind);

    let king = pos.piece_at(sq(C1)).unwrap();
    assert_eq!(Color::White, king.color);
    assert_eq!(PieceKind::King, king.kind);
}

#[test]
fn position_kingside_castle() {
    let mut pos = Position::from_fen("8/8/8/8/8/8/8/4K2R w K - 0 1").unwrap();

    // white to move, white castles kingside
    pos.make_move(Move::kingside_castle(sq(E1), sq(G1)));

    let rook = pos.piece_at(sq(F1)).unwrap();
    assert_eq!(Color::White, rook.color);
    assert_eq!(PieceKind::Rook, rook.kind);

    let king = pos.piece_at(sq(G1)).unwrap();
    assert_eq!(Color::White, king.color);
    assert_eq!(PieceKind::King, king.kind);
}



#[test]
fn king_pawn_check() {
    let pos = Position::from_fen("8/2p5/3p4/KP5r/1R3p1k/8/4P1P1/8 w - - 0 1").unwrap();
    let mov = Move::quiet(sq(A5), sq(B6));
    assert!(!pos.is_legal_given_pseudolegal(mov));
}

#[test]
fn rook_pin() {
    let pos = Position::from_fen("8/8/4r3/8/8/4B3/4K3/8 b - - 0 1").unwrap();
    let mov = Move::capture(sq(E6), sq(E3));
    assert!(pos.is_legal_given_pseudolegal(mov));
}

#[test]
fn basic_movement() {
    let mut pos = Position::from_fen("8/8/8/8/8/4P3/8/8 w - - 0 1").unwrap();
    assert!(pos.piece_at(sq(E3)).is_some());
    let mov = Move::quiet(sq(E3), sq(E4));
    pos.make_move(mov);
    assert!(pos.piece_at(sq(E3)).is_none());
    assert!(pos.piece_at(sq(E4)).is_some());
    let piece = pos.piece_at(sq(E4)).unwrap();
    assert_eq!(piece.kind, PieceKind::Pawn);
    assert_eq!(piece.color, Color::White);
    assert_eq!(pos.side_to_move(), Color::Black);
    pos.unmake_move(mov);
    assert!(pos.side_to_move() == Color::White);
    assert!(pos.piece_at(sq(E4)).is_none());
    assert!(pos.piece_at(sq(E3)).is_some());
    let unmake_piece = pos.piece_at(sq(E3)).unwrap();
    assert_eq!(unmake_piece.kind, PieceKind::Pawn);
    assert_eq!(unmake_piece.color, Color::White);
}
