use a4::moves::Move;
use a4::position::Position;
use a4::types::{
    PieceKind, Square, C1, C3, D2, D3, D4, D5, D7, E1, E2, E3, E7, E8, F8, G1,
};

fn sq(index: u8) -> Square {
    Square::new(index)
}

#[test]
fn uci_nullmove() {
    let pos = Position::from_start_position();
    assert_eq!(Move::null(), Move::from_uci(&pos, "0000").unwrap());
}

#[test]
fn uci_sliding_moves() {
    let pos = Position::from_fen("8/3q4/8/8/8/3R4/8/8 w - - 0 1").unwrap();
    assert_eq!(Move::quiet(sq(D3), sq(D5)), Move::from_uci(&pos, "d3d5").unwrap());
    assert_eq!(Move::capture(sq(D3), sq(D7)), Move::from_uci(&pos, "d3d7").unwrap());
}

#[test]
fn uci_pawn_moves() {
    let pos = Position::from_fen("8/8/8/8/8/4p3/3P4/8 w - c3 0 1").unwrap();
    assert_eq!(Move::quiet(sq(D2), sq(D3)), Move::from_uci(&pos, "d2d3").unwrap());
    assert_eq!(
        Move::double_pawn_push(sq(D2), sq(D4)),
        Move::from_uci(&pos, "d2d4").unwrap()
    );
    assert_eq!(Move::capture(sq(D2), sq(E3)), Move::from_uci(&pos, "d2e3").unwrap());
    assert_eq!(Move::quiet(sq(D2), sq(D3)), Move::from_uci(&pos, "d2d3").unwrap());
    assert_eq!(
        Move::en_passant(sq(D2), sq(C3)),
        Move::from_uci(&pos, "d2c3").unwrap()
    );
}

#[test]
fn uci_king_moves() {
    let pos = Position::from_fen("8/8/8/8/8/8/3r4/R3K2R w - - 0 1").unwrap();
    assert_eq!(
        Move::kingside_castle(sq(E1), sq(G1)),
        Move::from_uci(&pos, "e1g1").unwrap(),
    );
    assert_eq!(
        Move::queenside_castle(sq(E1), sq(C1)),
        Move::from_uci(&pos, "e1c1").unwrap(),
    );
    assert_eq!(Move::quiet(sq(E1), sq(E2)), Move::from_uci(&pos, "e1e2").unwrap(),);
    assert_eq!(Move::capture(sq(E1), sq(D2)), Move::from_uci(&pos, "e1d2").unwrap(),);
}

#[test]
fn uci_promotion() {
    let pos = Position::from_fen("5n2/4P3/8/8/8/8/8/8 w - - 0 1").unwrap();
    assert_eq!(
        Move::promotion(sq(E7), sq(E8), PieceKind::Knight),
        Move::from_uci(&pos, "e7e8n").unwrap()
    );
    assert_eq!(
        Move::promotion(sq(E7), sq(E8), PieceKind::Bishop),
        Move::from_uci(&pos, "e7e8b").unwrap()
    );
    assert_eq!(
        Move::promotion(sq(E7), sq(E8), PieceKind::Rook),
        Move::from_uci(&pos, "e7e8r").unwrap()
    );
    assert_eq!(
        Move::promotion(sq(E7), sq(E8), PieceKind::Queen),
        Move::from_uci(&pos, "e7e8q").unwrap()
    );
    assert_eq!(
        Move::promotion_capture(sq(E7), sq(F8), PieceKind::Knight),
        Move::from_uci(&pos, "e7f8n").unwrap()
    );
    assert_eq!(
        Move::promotion_capture(sq(E7), sq(F8), PieceKind::Bishop),
        Move::from_uci(&pos, "e7f8b").unwrap()
    );
    assert_eq!(
        Move::promotion_capture(sq(E7), sq(F8), PieceKind::Rook),
        Move::from_uci(&pos, "e7f8r").unwrap()
    );
    assert_eq!(
        Move::promotion_capture(sq(E7), sq(F8), PieceKind::Queen),
        Move::from_uci(&pos, "e7f8q").unwrap()
    );
}

#[test]
fn uci_text_that_names_no_move() {
    let pos = Position::from_start_position();
    assert_eq!(None, Move::from_uci(&pos, ""));
    assert_eq!(None, Move::from_uci(&pos, "e2e"));
    assert_eq!(None, Move::from_uci(&pos, "i2e4"));
    assert_eq!(None, Move::from_uci(&pos, "e9e4"));
    assert_eq!(None, Move::from_uci(&pos, "e4e5"));
    let promo = Position::from_fen("5n2/4P3/8/8/8/8/8/8 w - - 0 1").unwrap();
    assert_eq!(None, Move::from_uci(&promo, "e7e8"));
    assert_eq!(None, Move::from_uci(&promo, "e7e8k"));
    assert_eq!(None, Move::from_uci(&promo, "e7f8"));
}

#[test]
fn uci_text_round_trip() {
    let pos = Position::from_start_position();
    for text in ["e2e4", "g1f3", "b1c3", "a2a3"] {
        let mv = Move::from_uci(&pos, text).unwrap();
        assert_eq!(mv.as_uci(), text);
        assert!(pos.is_legal(mv));
    }
    assert_eq!(Move::from_uci(&pos, "e2e4").unwrap(), Move::double_pawn_push(sq(E2), sq(28)));
}
