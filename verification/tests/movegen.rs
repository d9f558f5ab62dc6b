use a4::movegen::generate_moves;
use a4::moves::Move;
use a4::position::Position;
use a4::types::{
    PieceKind, Square, A1, A4, A5, A7, B2, B4, B5, B6, C1, C2, C3, C4, C5, C8, D3, D4, D5, D7,
    D8, E1, E2, E3, E4, E5, E7, E8, F2, F3, F4, F5, F6, F7, F8, G1, G5, G6, G7, G8, H8, A3,
};
use std::collections::HashSet;

fn sq(index: u8) -> Square {
    Square::new(index)
}

fn assert_moves_generated(fen: &'static str, moves: &[Move]) {
    let pos = Position::from_fen(fen).unwrap();
    let mut mov_vec = Vec::new();
    generate_moves(pos.side_to_move(), &pos, &mut mov_vec);
    let hash: HashSet<_> = mov_vec.iter().collect();
    for mov in hash {
        if !moves.contains(&mov) {
            println!("move {:?} was not found in collection: ", mov);
            for m in moves {
                println!("   > {:?}", m);
            }

            println!("{}", pos.as_fen());
            panic!()
        }
    }
}

fn assert_moves_contains(fen: &'static str, moves: &[Move]) {
    let pos = Position::from_fen(fen).unwrap();
    let mut mov_vec = Vec::new();
    generate_moves(pos.side_to_move(), &pos, &mut mov_vec);
    let hash: HashSet<_> = mov_vec.iter().collect();
    for mov in moves {
        if !hash.contains(mov) {
            println!("move {} was not generated", mov.as_uci());
            println!("{}", pos.as_fen());
            println!("moves: {:?}", mov_vec);
            panic!()
        }
    }
}

fn assert_moves_does_not_contain(fen: &'static str, moves: &[Move]) {
    let pos = Position::from_fen(fen).unwrap();
    let mut mov_vec = Vec::new();
    generate_moves(pos.side_to_move(), &pos, &mut mov_vec);
    let hash: HashSet<_> = mov_vec.iter().collect();
    for mov in moves {
        if hash.contains(mov) {
            println!("move list contained banned move: {}", mov.as_uci());
            println!("{}", pos.as_fen());
            panic!()
        }
    }
}

#[test]
fn white_pawn_smoke_contains() {
    assert_moves_generated("8/8/8/8/5P2/8/8/8 w - - 0 1", &[Move::quiet(sq(F4), sq(F5))]);
}

#[test]
fn white_pawn_multiple_smoke_contains() {
    assert_moves_generated(
        "8/8/8/6P1/2P5/4P3/8/8 w - - 0 1",
        &[
            Move::quiet(sq(C4), sq(C5)),
            Move::quiet(sq(E3), sq(E4)),
            Move::quiet(sq(G5), sq(G6)),
        ],
    );
}

#[test]
fn white_pawn_blocked() {
    assert_moves_generated(
        "8/8/6p1/6P1/2P1p3/4P3/8/8 w - - 0 1",
        &[Move::quiet(sq(C4), sq(C5))],
    );
}

#[test]
fn no_pawn_push_when_target_square_occupied() {
    assert_moves_does_not_contain(
        "rnbqkbnr/1ppppppp/8/p7/P7/8/1PPPPPPP/RNBQKBNR w KQkq - 0 1",
        &[Move::quiet(sq(A4), sq(A5))],
    );
}

#[test]
fn no_double_pawn_push_when_blocked() {
    assert_moves_does_not_contain(
        "8/8/8/8/8/4p3/4P3/8 w - - 0 1",
        &[Move::double_pawn_push(sq(E2), sq(E4))],
    );
}

#[test]
fn double_pawn_push_smoke() {
    assert_moves_generated(
        "8/8/8/8/8/4P1p1/2P3P1/8 w - - 0 1",
        &[
            Move::quiet(sq(C2), sq(C3)),
            Move::double_pawn_push(sq(C2), sq(C4)),
            Move::quiet(sq(E3), sq(E4)),
        ],
    );
}

#[test]
fn pawn_promo_smoke() {
    assert_moves_generated(
        "8/3P4/8/8/8/8/8/8 w - - 0 1",
        &[
            Move::promotion(sq(D7), sq(D8), PieceKind::Bishop),
            Move::promotion(sq(D7), sq(D8), PieceKind::Knight),
            Move::promotion(sq(D7), sq(D8), PieceKind::Rook),
            Move::promotion(sq(D7), sq(D8), PieceKind::Queen),
        ],
    )
}

#[test]
fn pawn_promo_blocked() {
    assert_moves_does_not_contain(
        "3n4/3P4/8/8/8/8/8/8 w - - 0 1",
        &[
            Move::promotion(sq(D7), sq(D8), PieceKind::Bishop),
            Move::promotion(sq(D7), sq(D8), PieceKind::Knight),
            Move::promotion(sq(D7), sq(D8), PieceKind::Rook),
            Move::promotion(sq(D7), sq(D8), PieceKind::Queen),
        ],
    )
}

#[test]
fn pawn_promo_captures() {
    assert_moves_generated(
        "2nnn3/3P4/8/8/8/8/8/8 w - - 0 1",
        &[
            Move::promotion_capture(sq(D7), sq(C8), PieceKind::Bishop),
            Move::promotion_capture(sq(D7), sq(C8), PieceKind::Knight),
            Move::promotion_capture(sq(D7), sq(C8), PieceKind::Rook),
            Move::promotion_capture(sq(D7), sq(C8), PieceKind::Queen),
            Move::promotion_capture(sq(D7), sq(E8), PieceKind::Bishop),
            Move::promotion_capture(sq(D7), sq(E8), PieceKind::Knight),
            Move::promotion_capture(sq(D7), sq(E8), PieceKind::Rook),
            Move::promotion_capture(sq(D7), sq(E8), PieceKind::Queen),
        ],
    )
}

#[test]
fn kiwipete_bug_1() {
    assert_moves_contains(
        "r3k2r/p1ppqpb1/bn2pnp1/3PN3/Pp2P3/2N2Q1p/1PPBBPPP/R3K2R b KQkq a3 0 1",
        &[Move::en_passant(sq(B4), sq(A3))],
    );
}

#[test]
fn illegal_en_passant() {
    assert_moves_does_not_contain(
        "8/8/4p3/8/8/8/5P2/8 w - e7 0 1",
        &[
            // this can happen if we are sloppy about validating the legality
            // of EP-moves
            Move::en_passant(sq(F2), sq(E7)),
        ],
    );
}

#[test]
fn smoke_contains() {
    assert_moves_generated(
        "8/8/8/8/3B4/8/8/8 w - - 0 1",
        &[
            Move::quiet(sq(D4), sq(E5)),
            Move::quiet(sq(D4), sq(F6)),
            Move::quiet(sq(D4), sq(G7)),
            Move::quiet(sq(D4), sq(H8)),
            Move::quiet(sq(D4), sq(E3)),
            Move::quiet(sq(D4), sq(F2)),
            Move::quiet(sq(D4), sq(G1)),
            Move::quiet(sq(D4), sq(C3)),
            Move::quiet(sq(D4), sq(B2)),
            Move::quiet(sq(D4), sq(A1)),
            Move::quiet(sq(D4), sq(C5)),
            Move::quiet(sq(D4), sq(B6)),
            Move::quiet(sq(D4), sq(A7)),
        ],
    );
}

#[test]
fn smoke_capture() {
    assert_moves_generated(
        "8/8/8/2p1p3/3B4/2p1p3/8/8 w - - 0 1",
        &[
            Move::capture(sq(D4), sq(E5)),
            Move::capture(sq(D4), sq(E3)),
            Move::capture(sq(D4), sq(C5)),
            Move::capture(sq(D4), sq(C3)),
        ],
    );
}

#[test]
fn smoke_test() {
    assert_moves_generated(
        "8/8/8/8/4K3/8/8/8 w - - 0 1",
        &[
            Move::quiet(sq(E4), sq(E5)),
            Move::quiet(sq(E4), sq(F5)),
            Move::quiet(sq(E4), sq(F4)),
            Move::quiet(sq(E4), sq(F3)),
            Move::quiet(sq(E4), sq(E3)),
            Move::quiet(sq(E4), sq(D3)),
            Move::quiet(sq(E4), sq(D4)),
            Move::quiet(sq(E4), sq(D5)),
        ],
    );
}

#[test]
fn position_4_check_block() {
    assert_moves_contains(
        "r2q1rk1/pP1p2pp/Q4n2/bbp1p3/Np6/1B3NBn/pPPP1PPP/R3K2R b KQ - 0 1",
        &[
            Move::quiet(sq(C5), sq(C4)),
            Move::double_pawn_push(sq(D7), sq(D5)),
            Move::quiet(sq(B5), sq(C4)),
            Move::quiet(sq(F6), sq(D5)),
            Move::quiet(sq(F8), sq(F7)),
            Move::quiet(sq(G8), sq(H8)),
        ],
    );
}

#[test]
fn movegen_kingside_castle() {
    assert_moves_contains(
        "8/8/8/8/8/8/8/4K2R w K - 0 1",
        &[Move::kingside_castle(sq(E1), sq(G1))],
    );
}

#[test]
fn movegen_queenside_castle() {
    assert_moves_contains(
        "8/8/8/8/8/8/8/R3K3 w Q - 0 1",
        &[Move::queenside_castle(sq(E1), sq(C1))],
    );
}

#[test]
fn kingside_castle_neg() {
    assert_moves_does_not_contain(
        "8/8/8/8/8/8/8/4K2R w Q - 0 1",
        &[Move::kingside_castle(sq(E1), sq(G1))],
    );
}

#[test]
fn queenside_castle_neg() {
    assert_moves_does_not_contain(
        "8/8/8/8/8/8/8/R3K3 w K - 0 1",
        &[Move::queenside_castle(sq(E1), sq(C1))],
    );
}

#[test]
fn castle_through_check() {
    assert_moves_does_not_contain(
        "8/8/8/8/5r2/8/8/4K2R w - - 0 1",
        &[Move::kingside_castle(sq(E1), sq(G1))],
    );
}

#[test]
fn kingside_castle_when_space_occupied() {
    assert_moves_does_not_contain(
        "rnbqkbnr/pppppppp/8/8/8/8/PPPPPPPP/RNBQKBNR w KQkq - 0 1",
        &[Move::kingside_castle(sq(E1), sq(G1))],
    );
}

#[test]
fn queenside_castle_when_space_occupied() {
    assert_moves_does_not_contain(
        "rnbqkbnr/pppppppp/8/8/8/8/PPPPPPPP/RNBQKBNR w KQkq - 0 1",
        &[Move::queenside_castle(sq(E1), sq(C1))],
    );
}

#[test]
fn kiwipete_bug_2() {
    assert_moves_contains(
        "r3k2r/p1pNqpb1/bn2pnp1/3P4/1p2P3/2N2Q1p/PPPBBPPP/R3K2R b KQkq - 0 1",
        &[Move::queenside_castle(sq(E8), sq(C8))],
    );
}

#[test]
fn kiwipete_bug_3() {
    assert_moves_does_not_contain(
        "2kr3r/p1ppqpb1/bn2pnp1/3PN3/1p2P3/5Q1p/PPPBBPPP/RN2K2R w KQ - 2 2",
        &[
            // there's a knight on b1, this blocks castling even though it
            // doesn't block the king's movement
            Move::queenside_castle(sq(E1), sq(C1)),
        ],
    )
}
