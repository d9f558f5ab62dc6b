use a4::moves::Move;
use a4::types::{PieceKind, Square, A1, A2, A4, A5, A7, A8, B2, B4, C2, C4, D2, D4, E1, G1, H2};

fn sq(index: u8) -> Square {
    Square::new(index)
}

#[test]
fn quiet() {
    let quiet = Move::quiet(sq(A4), sq(A5));
    assert_eq!(sq(A4), quiet.source());
    assert_eq!(sq(A5), quiet.destination());
    assert!(quiet.is_quiet());
}

#[test]
fn capture() {
    let capture = Move::capture(sq(B4), sq(C4));
    assert_eq!(sq(B4), capture.source());
    assert_eq!(sq(C4), capture.destination());
    assert!(!capture.is_quiet());
    assert!(capture.is_capture());
}

#[test]
fn en_passant() {
    let ep = Move::en_passant(sq(A1), sq(B2));
    assert!(ep.is_en_passant());
    assert!(ep.is_capture());
    assert!(!ep.is_quiet());
}

#[test]
fn double_pawn_push() {
    let dpp = Move::double_pawn_push(sq(D2), sq(D4));
    assert!(dpp.is_double_pawn_push());
    assert!(!dpp.is_capture());
    assert!(!dpp.is_quiet());
}

fn promotion(kind: PieceKind) {
    let promo = Move::promotion(sq(A2), sq(H2), kind);
    assert!(promo.is_promotion());
    assert!(!promo.is_capture());
    assert_eq!(kind, promo.promotion_piece());
}

fn promo_capture(kind: PieceKind) {
    let promo = Move::promotion_capture(sq(B2), sq(C2), kind);
    assert!(promo.is_promotion());
    assert!(promo.is_capture());
    assert_eq!(kind, promo.promotion_piece());
}

#[test]
fn promotion_bishop() {
    promotion(PieceKind::Bishop)
}

#[test]
fn promotion_knight() {
    promotion(PieceKind::Knight)
}

#[test]
fn promotion_rook() {
    promotion(PieceKind::Rook)
}

#[test]
fn promotion_queen() {
    promotion(PieceKind::Queen)
}

#[test]
fn promotion_capture_bishop() {
    promo_capture(PieceKind::Bishop)
}

#[test]
fn promotion_capture_knight() {
    promo_capture(PieceKind::Knight)
}

#[test]
fn promotion_capture_rook() {
    promo_capture(PieceKind::Rook)
}

#[test]
fn promotion_capture_queen() {
    promo_capture(PieceKind::Queen)
}

#[test]
fn move_kingside_castle() {
    let mv = Move::kingside_castle(sq(A1), sq(A2));
    assert!(mv.is_kingside_castle());
    assert!(!mv.is_queenside_castle());
    assert!(!mv.is_capture());
}

#[test]
fn move_queenside_castle() {
    let mv = Move::queenside_castle(sq(A2), sq(H2));
    assert!(mv.is_queenside_castle());
    assert!(!mv.is_kingside_castle());
    assert!(!mv.is_capture());
}

#[test]
fn uci_null() {
    let mv = Move::null();
    assert_eq!("0000", mv.as_uci());
}

#[test]
fn uci_smoke() {
    let mv = Move::quiet(sq(A1), sq(A2));
    assert_eq!("a1a2", mv.as_uci());
}

#[test]
fn uci_promote() {
    let mv = Move::promotion(sq(A7), sq(A8), PieceKind::Queen);
    assert_eq!("a7a8q", mv.as_uci());
}

#[test]
fn uci_kingside_castle() {
    let mv = Move::kingside_castle(sq(E1), sq(G1));
    assert_eq!("e1g1", mv.as_uci());
}

#[test]
fn fourteen_kinds_of_move_are_told_apart() {
    let a = sq(A2);
    let b = sq(B2);
    let all = vec![
        Move::quiet(a, b),
        Move::double_pawn_push(a, b),
        Move::kingside_castle(a, b),
        Move::queenside_castle(a, b),
        Move::capture(a, b),
        Move::en_passant(a, b),
        Move::promotion(a, b, PieceKind::Knight),
        Move::promotion(a, b, PieceKind::Bishop),
        Move::promotion(a, b, PieceKind::Rook),
        Move::promotion(a, b, PieceKind::Queen),
        Move::promotion_capture(a, b, PieceKind::Knight),
        Move::promotion_capture(a, b, PieceKind::Bishop),
        Move::promotion_capture(a, b, PieceKind::Rook),
        Move::promotion_capture(a, b, PieceKind::Queen),
    ];
    for (i, x) in all.iter().enumerate() {
        assert!(!x.is_null());
        assert_eq!(x.source(), a);
        assert_eq!(x.destination(), b);
        for (j, y) in all.iter().enumerate() {
            assert_eq!(i == j, x == y);
        }
    }
    assert!(Move::null().is_null());
    assert_eq!(Move::quiet(sq(A1), sq(A1)), Move::null());
    assert!(all[2].is_castle() && all[3].is_castle() && !all[0].is_castle());
}
