use a4::analysis::Analysis;
use a4::eval::evaluate;
use a4::position::Position;
use a4::types::{Color, Square, A2, A3, B3, C4, C6, D2, D3, D7, E5, F4, G3, G7};
use a4::value::{UnpackedValue, Value, VALUE_MATE, VALUE_MATED};

fn sq(index: u8) -> Square {
    Square::new(index)
}

#[test]
fn white_mate_evaluation() {
    let pos = Position::from_fen("8/8/8/8/8/3k4/3q4/3K4 w - - 0 1").unwrap();
    assert_eq!(Value::mated_in(0), evaluate(&pos));
}

#[test]
fn black_mate_evaluation() {
    let pos = Position::from_fen("4k3/4Q3/4K3/8/8/8/8/8 b - - 0 1").unwrap();
    assert_eq!(Value::mate_in(0), evaluate(&pos));
}

#[test]
fn drawn_by_insufficient_material_1() {
    let pos = Position::from_fen("3k4/8/8/8/2N5/8/8/3K4 w - - 0 1").unwrap();
    assert_eq!(Value::new(0), evaluate(&pos));
}

#[test]
fn drawn_by_insufficient_material_2() {
    let pos = Position::from_fen("3k4/8/8/5B2/8/8/8/3K4 w - - 0 1").unwrap();
    assert_eq!(Value::new(0), evaluate(&pos));
}

#[test]
fn drawn_by_insufficient_material_3() {
    let pos = Position::from_fen("3k4/8/8/8/5N2/2N5/8/3K4 w - - 0 1").unwrap();
    assert_eq!(Value::new(0), evaluate(&pos));
}

#[test]
fn drawn_by_insufficient_material_4() {
    let pos = Position::from_fen("3k4/8/8/8/8/8/8/3K4 w - - 0 1").unwrap();
    assert_eq!(Value::new(0), evaluate(&pos));
}

#[test]
fn doubled_pawn_smoke() {
    let pos = Position::from_fen("8/6P1/2P5/4P3/2P2P2/PP1P2P1/P7/8 w - - 0 1").unwrap();
    let mut analysis = Analysis::new(&pos);
    let doubled_pawns = analysis.doubled_pawns(Color::White);

    assert!(doubled_pawns.contains(sq(A2)));
    assert!(doubled_pawns.contains(sq(A3)));

    assert!(!doubled_pawns.contains(sq(B3)));

    assert!(doubled_pawns.contains(sq(C4)));
    assert!(doubled_pawns.contains(sq(C6)));

    assert!(!doubled_pawns.contains(sq(D3)));
    assert!(!doubled_pawns.contains(sq(E5)));
    assert!(!doubled_pawns.contains(sq(F4)));

    assert!(doubled_pawns.contains(sq(G3)));
    assert!(doubled_pawns.contains(sq(G7)));
}

#[test]
fn backward_pawn_smoke() {
    let pos = Position::from_fen("8/8/8/8/8/2P1P3/3P4/8 w - - 0 1").unwrap();
    let mut analysis = Analysis::new(&pos);
    let backward_pawns = analysis.backward_pawns(Color::White);
    assert_eq!(1, backward_pawns.len());
    assert!(backward_pawns.contains(sq(D2)));
}

#[test]
fn backward_pawn_smoke_black() {
    let pos = Position::from_fen("8/3p4/2p1p3/8/8/8/8/8 b - - 0 1").unwrap();
    let mut analysis = Analysis::new(&pos);
    let backward_pawns = analysis.backward_pawns(Color::Black);
    assert_eq!(1, backward_pawns.len());
    assert!(backward_pawns.contains(sq(D7)));
}

#[test]
fn mobility_smoke() {
    let pos = Position::from_fen("8/8/4r3/8/8/4B3/4K3/8 w - - 0 1").unwrap();
    let mut analysis = Analysis::new(&pos);

    // White's bishop is not allowed to move at all, since it is absolutely pinned by the Black
    // rook. As a result, its mobility score is low, despite having more pieces on the board.
    assert_eq!(7, analysis.mobility(Color::White));
    assert_eq!(12, analysis.mobility(Color::Black));
}

#[test]
fn isolated_pawn_smoke() {
    let pos = Position::from_fen("8/8/8/8/8/3P1P2/6P1/8 w - - 0 1").unwrap();
    let mut analysis = Analysis::new(&pos);
    let isolated_pawns = analysis.isolated_pawns(Color::White);
    assert_eq!(1, isolated_pawns.len());
    assert!(isolated_pawns.contains(sq(D3)));
}

#[test]
fn value_negate() {
    let v = Value::mate_in(4);
    assert_eq!(-v, Value::mated_in(4));
}

#[test]
fn value_saturating_add() {
    let mut v = Value::new(VALUE_MATE - 1);
    v = v + 3;
    assert_eq!(v.as_i16(), VALUE_MATE - 1);
}

#[test]
fn value_saturating_sub() {
    let mut v = Value::new(VALUE_MATED + 1);
    v = v - 3;
    assert_eq!(v.as_i16(), VALUE_MATED + 1);
}

#[test]
fn mated_in_4_is_better_than_mated_in_3() {
    assert!(Value::mated_in(4) > Value::mated_in(3))
}

#[test]
fn mate_in_2_is_worse_than_mate_in_1() {
    assert!(Value::mate_in(2) < Value::mate_in(1))
}

#[test]
fn unpack_mated_in() {
    let mated_in_one = Value::mated_in(1);
    assert_eq!(mated_in_one.unpack(), UnpackedValue::MatedIn(1));
}

#[test]
fn unpack_mate_in() {
    let mate_in_one = Value::mate_in(1);
    assert_eq!(mate_in_one.unpack(), UnpackedValue::MateIn(1));
}
