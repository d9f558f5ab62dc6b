use a4::move_order::{order_moves, static_exchange_evaluation};
use a4::movegen::generate_moves;
use a4::moves::Move;
use a4::position::Position;
use a4::types::{Square, C5, D4, D6, D7, E5, F6};

fn sq(index: u8) -> Square {
    Square::new(index)
}

#[test]
fn see_pawn_exchange_bad_for_player() {
    let pos = Position::from_fen("8/6p1/1R3b2/8/8/2B5/8/5r2 w - - 0 1").unwrap();
    // White to move, white threatens f6 and initiates an exchange.
    let _predicted_yield = static_exchange_evaluation(&pos, sq(F6));

    // White trades a bishop and a rook (8) for a pawn and a bishop (4), a loss of 4. SEE of this is zero,
    // indicating that the capture is not profitable.
}

#[test]
fn see_exchange_good_for_player() {
    let pos = Position::from_fen("8/r2q4/8/8/6B1/8/3Q4/8 w - - 0 1").unwrap();
    // White to move, white threatens Bxd7 and initiates an exchange.
    let predicted_yield = static_exchange_evaluation(&pos, sq(D7));

    // White trades a bishop (3) for a queen and a rook (14), for a win of 11.
    //
    // However, it's not actually profitable for Black to recapture, since doing so would trade a rook for a
    // bishop. SEE assumes that Black will not recapture.
    assert_eq!(predicted_yield, 9);
}

#[test]
fn see_stands_pat_if_faced_with_bad_exchange() {
    let pos = Position::from_fen("8/2q5/8/4p3/3P4/5N2/8/8 w - - 0 1").unwrap();
    let predicted_yield = static_exchange_evaluation(&pos, sq(E5));

    // Black has the option to recapture the pawn with the queen, but would never do that because it immediately
    // blunders the queen.
    assert_eq!(predicted_yield, 1);
}

#[test]
fn see_exchange_queen() {
    let pos = Position::from_fen("5b2/8/3r2r1/2P5/5B2/8/3Q4/8 w - - 0 1").unwrap();
    let predicted_yield = static_exchange_evaluation(&pos, sq(D6));

    // Rook (5) - Pawn (1) + Rook (5) - Bishop (3) + Bishop(3) = 9
    //
    // Black will retake once with the bishop and not retake with the rook, since trading a rook for a bishop is
    // a loss of material.
    assert_eq!(predicted_yield, 5);
}

#[test]
fn move_ordering_good_captures_first() {
    let pos = Position::from_fen("5b2/8/3r2r1/2P5/5B2/8/3Q4/8 w - - 0 1").unwrap();
    let mut moves = Vec::new();
    generate_moves(pos.side_to_move(), &pos, &mut moves);
    moves.retain(|&m| pos.is_legal_given_pseudolegal(m));

    order_moves(&pos, &mut moves);
    assert_eq!(moves.first().cloned().unwrap(), Move::capture(sq(C5), sq(D6)));
}

#[test]
fn move_ordering_real_world() {
    let pos =
        Position::from_fen("r1bqkb1r/ppp3pp/2n2p2/3np3/2BP4/5N2/PPP2PPP/RNBQ1RK1 w kq - 0 7")
            .unwrap();
    let mut moves = Vec::new();
    generate_moves(pos.side_to_move(), &pos, &mut moves);
    moves.retain(|&m| pos.is_legal_given_pseudolegal(m));

    order_moves(&pos, &mut moves);
    assert_eq!(moves.first().cloned().unwrap(), Move::capture(sq(D4), sq(E5)));
}

#[test]
fn move_ordering_en_passant() {
    let pos = Position::from_fen("k7/8/7r/2Pp4/8/6B1/8/K7 w - d6 0 2").unwrap();
    // The SEE square is not the location of the capture, it's the destination of the pawn.
    // There's no material on the square the pawn moves to.
    let mut moves = Vec::new();
    generate_moves(pos.side_to_move(), &pos, &mut moves);
    moves.retain(|&m| pos.is_legal_given_pseudolegal(m));

    order_moves(&pos, &mut moves);
    assert_eq!(moves.first().cloned().unwrap(), Move::en_passant(sq(C5), sq(D6)));
}

#[test]
fn move_ordering_no_legal_moves() {
    // Catches out-of-bounds stuff in the move ordering code.
    let pos = Position::from_fen("3k4/3Q4/3K4/8/8/8/8/8 b - - 0 1").unwrap();
    let mut moves = Vec::new();
    generate_moves(pos.side_to_move(), &pos, &mut moves);
    moves.retain(|&m| pos.is_legal_given_pseudolegal(m));
    order_moves(&pos, &mut moves);
    assert_eq!(moves.len(), 0);
}

#[test]
fn partition_by_captures() {
    let pos = Position::from_fen("4k3/8/3p4/8/8/2P5/3R2r1/1K6 w - - 0 1").unwrap();
    let mut moves = Vec::new();
    generate_moves(pos.side_to_move(), &pos, &mut moves);

    order_moves(&pos, &mut moves);
    let idx = moves.partition_point(|mov| mov.is_capture());
    let (left, right) = moves.split_at(idx);
    assert!(left.iter().all(|mov| mov.is_capture()));
    assert!(right.iter().all(|mov| !mov.is_capture()));
    assert_eq!(left.len(), 2);
}
