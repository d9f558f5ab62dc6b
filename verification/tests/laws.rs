use a4::attacks::{
    attacks, bishop_attacks, king_attacks, knight_attacks, pawn_attacks, queen_attacks,
    ray_attacks, rook_attacks, KingTable, KnightTable, PawnTable, RayTable,
};
use a4::eval::evaluate;
use a4::movegen::{generate_moves, legal_moves};
use a4::moves::Move;
use a4::position::Position;
use a4::squareset::SquareSet;
use a4::types::{
    colors, files, piece_kinds, ranks, squares, CastleStatus, Color, Direction, File, Piece,
    PieceKind, Rank, Square, A1, A2, A8, B1, C3, D4, D5, E1, E4, E5, E8, F3, G1, H1, H8,
};
use a4::zobrist::{Xorshift64, ZobristHasher, ZOBRIST_SEED};

fn sq(index: u8) -> Square {
    Square::new(index)
}

const POSITIONS: [&str; 8] = [
    "rnbqkbnr/pppppppp/8/8/8/8/PPPPPPPP/RNBQKBNR w KQkq - 0 1",
    "r3k2r/p1ppqpb1/bn2pnp1/3PN3/1p2P3/2N2Q1p/PPPBBPPP/R3K2R w KQkq - 0 1",
    "r3k2r/p1ppqpb1/bn2pnp1/3PN3/Pp2P3/2N2Q1p/1PPBBPPP/R3K2R b KQkq a3 0 1",
    "8/2p5/3p4/KP5r/1R3p1k/8/4P1P1/8 w - - 0 1",
    "n1n5/PPPk4/8/8/8/8/4Kppp/5N1N b - - 0 1",
    "r1bqkb1r/ppp3pp/2n2p2/3np3/2BP4/5N2/PPP2PPP/RNBQ1RK1 w kq - 0 7",
    "8/8/8/3pP3/8/8/8/4K2k w - d6 0 1",
    "4k3/8/8/8/8/8/8/R3K2R w KQ - 12 40",
];

fn describe(pos: &Position) -> (String, u64, usize) {
    (pos.as_fen(), pos.zobrist_hash(), pos.history_len())
}

#[test]
fn unmaking_a_move_restores_the_position() {
    for fen in POSITIONS {
        let mut pos = Position::from_fen(fen).unwrap();
        let before = describe(&pos);
        for mov in legal_moves(&pos) {
            let copy = pos.clone();
            pos.make_move(mov);
            assert_eq!(pos.history_len(), before.2 + 1);
            pos.unmake_move(mov);
            assert_eq!(describe(&pos), before, "{} after {}", fen, mov.as_uci());
            for square in squares() {
                assert_eq!(pos.piece_at(square), copy.piece_at(square));
            }
            for color in colors() {
                assert_eq!(pos.pieces(color), copy.pieces(color));
                for kind in piece_kinds() {
                    assert_eq!(pos.pieces_of_kind(color, kind), copy.pieces_of_kind(color, kind));
                }
            }
        }
        pos.make_move(Move::null());
        assert_ne!(pos.side_to_move(), Position::from_fen(fen).unwrap().side_to_move());
        pos.unmake_move(Move::null());
        assert_eq!(describe(&pos), before);
    }
}

#[test]
fn two_moves_made_and_unmade_in_turn() {
    let mut pos = Position::from_start_position();
    let start = describe(&pos);
    let e4 = Move::from_uci(&pos, "e2e4").unwrap();
    pos.make_move(e4);
    let d5 = Move::from_uci(&pos, "d7d5").unwrap();
    pos.make_move(d5);
    let takes = Move::from_uci(&pos, "e4d5").unwrap();
    assert!(takes.is_capture());
    pos.make_move(takes);
    assert_eq!(pos.as_fen(), "rnbqkbnr/ppp1pppp/8/3P4/8/8/PPPP1PPP/RNBQKBNR b KQkq - 0 2");
    pos.unmake_move(takes);
    pos.unmake_move(d5);
    pos.unmake_move(e4);
    assert_eq!(describe(&pos), start);
}

#[test]
fn the_hash_does_not_depend_on_the_order_of_moves() {
    let play = |moves: &[&str]| {
        let mut pos = Position::from_start_position();
        for text in moves {
            let mov = Move::from_uci(&pos, text).unwrap();
            assert!(pos.is_legal(mov));
            pos.make_move(mov);
        }
        pos
    };
    let one = play(&["g1f3", "g8f6", "b1c3", "b8c6"]);
    let other = play(&["b1c3", "b8c6", "g1f3", "g8f6"]);
    assert_eq!(one.as_fen(), other.as_fen());
    assert_eq!(one.zobrist_hash(), other.zobrist_hash());
    let longer = play(&["g1f3", "g8f6", "f3g1", "f6g8", "b1c3", "b8c6", "g1f3", "g8f6"]);
    assert_eq!(longer.zobrist_hash(), one.zobrist_hash());
    // Read from its text, the position has the same hash again.
    let read = Position::from_fen(&one.as_fen()).unwrap();
    assert_eq!(read.zobrist_hash(), one.zobrist_hash());
    // The side to move, the castling rights and the en-passant file all count.
    let base = Position::from_fen("4k3/8/8/8/4P3/8/8/R3K2R w KQ - 0 1").unwrap();
    for different in [
        "4k3/8/8/8/4P3/8/8/R3K2R b KQ - 0 1",
        "4k3/8/8/8/4P3/8/8/R3K2R w K - 0 1",
        "4k3/8/8/8/4P3/8/8/R3K2R w Q - 0 1",
        "4k3/8/8/8/4P3/8/8/R3K2R w KQ e3 0 1",
        "4k3/8/8/8/8/4P3/8/R3K2R w KQ - 0 1",
    ] {
        assert_ne!(base.zobrist_hash(), Position::from_fen(different).unwrap().zobrist_hash());
    }
    let clocks = Position::from_fen("4k3/8/8/8/4P3/8/8/R3K2R w KQ - 7 30").unwrap();
    assert_eq!(base.zobrist_hash(), clocks.zobrist_hash());
}

#[test]
fn the_keys_are_drawn_from_the_generator() {
    let mut rng = Xorshift64::new(ZOBRIST_SEED);
    let hasher = ZobristHasher::new(ZOBRIST_SEED);
    let first = rng.next();
    assert_eq!(first, hasher.square_hash(PieceKind::Pawn, Color::White, sq(A1)));
    let mut expected = ZOBRIST_SEED;
    expected ^= expected << 13;
    expected ^= expected >> 7;
    expected ^= expected << 17;
    assert_eq!(first, expected);
    for _ in 1..768 {
        rng.next();
    }
    assert_eq!(rng.next(), hasher.side_to_move_hash(Color::Black));
    assert_eq!(0, hasher.side_to_move_hash(Color::White));
    assert_eq!(rng.next(), hasher.castle_hash(0));
    rng.next();
    rng.next();
    assert_eq!(rng.next(), hasher.castle_hash(3));
    assert_eq!(rng.next(), hasher.en_passant_hash(sq(A8)));
    assert_eq!(hasher.en_passant_hash(sq(E4)), hasher.en_passant_hash(sq(E5)));
    // The hash of a position is the exclusive-or of the keys of what holds in it.
    let pos = Position::from_fen("8/8/8/8/8/8/8/K6k b - - 0 1").unwrap();
    let by_hand = hasher.square_hash(PieceKind::King, Color::White, sq(A1))
        ^ hasher.square_hash(PieceKind::King, Color::Black, sq(H1))
        ^ hasher.side_to_move_hash(Color::Black);
    assert_eq!(pos.zobrist_hash(), by_hand);
    let mut hash = 0u64;
    a4::zobrist::modify_piece(&hasher, &mut hash, sq(A1), Piece { color: Color::White, kind: PieceKind::King });
    a4::zobrist::modify_piece(&hasher, &mut hash, sq(H1), Piece { color: Color::Black, kind: PieceKind::King });
    a4::zobrist::modify_side_to_move(&hasher, &mut hash);
    assert_eq!(hash, by_hand);
    a4::zobrist::modify_kingside_castle(&hasher, &mut hash, Color::White);
    a4::zobrist::modify_queenside_castle(&hasher, &mut hash, Color::Black);
    a4::zobrist::modify_en_passant(&hasher, &mut hash, None, Some(sq(C3)));
    a4::zobrist::modify_en_passant(&hasher, &mut hash, Some(sq(C3)), Some(sq(D4)));
    a4::zobrist::modify_en_passant(&hasher, &mut hash, Some(sq(D4)), None);
    assert_eq!(hash, by_hand ^ hasher.castle_hash(0) ^ hasher.castle_hash(3));
}

#[test]
fn attackers_are_the_pieces_that_could_capture() {
    for fen in POSITIONS {
        let pos = Position::from_fen(fen).unwrap();
        let occupancy = pos.pieces(Color::White).or(pos.pieces(Color::Black));
        for color in colors() {
            for target in squares() {
                let mut expected = SquareSet::empty();
                for source in squares() {
                    if let Some(piece) = pos.piece_at(source) {
                        if piece.color == color
                            && attacks(piece.kind, piece.color, source, occupancy).contains(target)
                        {
                            expected.insert(source);
                        }
                    }
                }
                assert_eq!(pos.squares_attacking(color, target), expected);
            }
        }
    }
    let pos = Position::from_fen("8/8/8/8/5r2/8/8/4K2R w K - 0 1").unwrap();
    assert_eq!(pos.squares_attacking(Color::Black, sq(5)).to_vec(), vec![sq(29)]);
    assert!(pos.squares_attacking(Color::Black, sq(G1)).is_empty());
    assert!(!pos.is_check(Color::White));
    assert!(!pos.is_check(Color::Black));
}

#[test]
fn a_pseudo_legal_move_is_legal_when_it_leaves_the_king_out_of_check() {
    for fen in POSITIONS {
        let pos = Position::from_fen(fen).unwrap();
        let side = pos.side_to_move();
        let mut generated = Vec::new();
        generate_moves(side, &pos, &mut generated);
        let legal = legal_moves(&pos);
        for mov in &generated {
            let after = pos.clone_and_make_move(*mov);
            assert_eq!(pos.is_legal_given_pseudolegal(*mov), !after.is_check(side));
            assert_eq!(pos.is_legal(*mov), !after.is_check(side));
            assert_eq!(legal.contains(mov), !after.is_check(side));
        }
        let mut unique = generated.clone();
        unique.sort_by_key(|m| m.as_uci() + if m.is_promotion() { "" } else { " " });
        unique.dedup();
        assert_eq!(unique.len(), generated.len());
        assert!(!pos.is_legal(Move::null()));
    }
}

fn mirror(fen: &str) -> String {
    let fields: Vec<&str> = fen.split(' ').collect();
    let swap = |c: char| {
        if c.is_ascii_uppercase() {
            c.to_ascii_lowercase()
        } else {
            c.to_ascii_uppercase()
        }
    };
    let rows: Vec<String> =
        fields[0].split('/').rev().map(|row| row.chars().map(swap).collect()).collect();
    let side = if fields[1] == "w" { "b" } else { "w" };
    let mut castle: Vec<char> = fields[2].chars().map(swap).collect();
    castle.sort_by_key(|c| "KQkq-".find(*c));
    let castle: String = castle.into_iter().collect();
    let ep: String = fields[3]
        .chars()
        .map(|c| match c {
            '3' => '6',
            '6' => '3',
            other => other,
        })
        .collect();
    format!("{} {} {} {} {} {}", rows.join("/"), side, castle, ep, fields[4], fields[5])
}

#[test]
fn the_evaluation_of_the_mirrored_position_is_the_negative() {
    for fen in POSITIONS {
        let pos = Position::from_fen(fen).unwrap();
        let mirrored = Position::from_fen(&mirror(fen)).unwrap();
        assert_eq!(evaluate(&mirrored), -evaluate(&pos), "{}", fen);
    }
    let start = Position::from_start_position();
    assert_eq!(evaluate(&start), a4::value::Value::new(15));
    let black = Position::from_fen("rnbqkbnr/pppppppp/8/8/8/8/PPPPPPPP/RNBQKBNR b KQkq - 0 1").unwrap();
    assert_eq!(evaluate(&black), a4::value::Value::new(-15));
}

#[test]
fn the_terms_of_the_evaluation() {
    // A queen against a pawn: material 900 - 100, and
    // the queen's side has 21 + 3 moves against 2 + 1 + 3.
    let pos = Position::from_fen("4k3/4p3/8/8/8/8/8/Q3K3 w - - 0 1").unwrap();
    let white = legal_moves(&pos).len() as i16;
    let black = legal_moves(&pos.clone_and_make_move(Move::null())).len() as i16;
    let value = evaluate(&pos).as_i16();
    let material = 900 - 100;
    let mobility = (white - 4) * 4 - (black - 4) * 4;
    let tempo = 15;
    let rest = value - material - mobility - tempo;
    // What is left are pawn structure (the lone pawn is isolated and
    // backward: 17 + 10 for White), space and threats, which are multiples
    // of 13 and of 7.
    let found = (0..20).any(|s: i16| (-20..20).any(|t: i16| rest == 27 + 13 * s + 7 * t));
    assert!(found, "value {} rest {}", value, rest);
}

#[test]
fn leapers_attack_by_their_geometry() {
    assert_eq!(king_attacks(sq(A1)).to_vec(), vec![sq(B1), sq(A2), sq(9)]);
    assert_eq!(king_attacks(sq(E4)).len(), 8);
    assert_eq!(king_attacks(sq(H8)).len(), 3);
    assert_eq!(knight_attacks(sq(A1)).to_vec(), vec![sq(10), sq(17)]);
    assert_eq!(knight_attacks(sq(E4)).len(), 8);
    assert_eq!(knight_attacks(sq(G1)).to_vec(), vec![sq(12), sq(21), sq(23)]);
    assert_eq!(pawn_attacks(sq(E4), Color::White).to_vec(), vec![sq(35), sq(37)]);
    assert_eq!(pawn_attacks(sq(E4), Color::Black).to_vec(), vec![sq(19), sq(21)]);
    assert_eq!(pawn_attacks(sq(A2), Color::White).to_vec(), vec![sq(17)]);
    assert!(pawn_attacks(sq(E8), Color::White).is_empty());
    assert!(pawn_attacks(sq(E1), Color::Black).is_empty());
    assert_eq!(pawn_attacks(sq(H8), Color::Black).to_vec(), vec![sq(54)]);
}

#[test]
fn sliders_stop_at_the_first_piece() {
    let empty = SquareSet::empty();
    assert_eq!(rook_attacks(sq(A1), empty).len(), 14);
    assert_eq!(bishop_attacks(sq(A1), empty).len(), 7);
    assert_eq!(queen_attacks(sq(D4), empty).len(), 27);
    assert_eq!(bishop_attacks(sq(D4), empty).len(), 13);
    let mut occupancy = SquareSet::empty();
    occupancy.insert(sq(D5));
    occupancy.insert(sq(F3));
    // The blocker is attacked, what lies behind it is not.
    let rook = rook_attacks(sq(D4), occupancy);
    assert!(rook.contains(sq(D5)));
    assert!(!rook.contains(sq(43)));
    assert_eq!(rook.len(), 3 + 1 + 3 + 4);
    assert_eq!(ray_attacks(sq(D4), occupancy, Direction::North).to_vec(), vec![sq(D5)]);
    assert_eq!(ray_attacks(sq(D4), occupancy, Direction::South).to_vec(), vec![sq(3), sq(11), sq(19)]);
    assert_eq!(ray_attacks(sq(H1), occupancy, Direction::NorthWest).to_vec(), vec![sq(14), sq(F3)]);
    assert!(ray_attacks(sq(H1), occupancy, Direction::East).is_empty());
    assert_eq!(
        attacks(PieceKind::Queen, Color::White, sq(D4), occupancy),
        rook_attacks(sq(D4), occupancy).or(bishop_attacks(sq(D4), occupancy))
    );
    assert_eq!(attacks(PieceKind::Knight, Color::Black, sq(D4), occupancy), knight_attacks(sq(D4)));
    assert_eq!(attacks(PieceKind::King, Color::Black, sq(D4), occupancy), king_attacks(sq(D4)));
    assert_eq!(attacks(PieceKind::Pawn, Color::Black, sq(D4), occupancy), pawn_attacks(sq(D4), Color::Black));
    assert_eq!(attacks(PieceKind::Bishop, Color::Black, sq(D4), occupancy), bishop_attacks(sq(D4), occupancy));
    assert_eq!(attacks(PieceKind::Rook, Color::Black, sq(D4), occupancy), rook);
}

#[test]
fn the_tables_hold_the_attacks() {
    let kings = KingTable::new();
    let knights = KnightTable::new();
    let pawns = PawnTable::new();
    let rays = RayTable::new();
    let directions = [
        Direction::North,
        Direction::NorthEast,
        Direction::East,
        Direction::SouthEast,
        Direction::South,
        Direction::SouthWest,
        Direction::West,
        Direction::NorthWest,
    ];
    for square in squares() {
        assert_eq!(kings.attacks(square), king_attacks(square));
        assert_eq!(knights.attacks(square), knight_attacks(square));
        for color in colors() {
            assert_eq!(pawns.attacks(square, color), pawn_attacks(square, color));
        }
        for dir in directions {
            assert_eq!(
                rays.attacks(square.as_u8() as usize, dir),
                ray_attacks(square, SquareSet::empty(), dir)
            );
            assert!(rays.attacks(64, dir).is_empty());
        }
    }
    assert_eq!(rays.attacks(0, Direction::NorthEast).len(), 7);
    assert_eq!(rays.attacks(0, Direction::North).bits(), 0x0101_0101_0101_0100);
}

#[test]
fn geometry_of_the_board() {
    assert_eq!(squares().len(), 64);
    assert_eq!(ranks().len(), 8);
    assert_eq!(files().len(), 8);
    assert_eq!(
        piece_kinds(),
        vec![
            PieceKind::Pawn,
            PieceKind::Bishop,
            PieceKind::Knight,
            PieceKind::Rook,
            PieceKind::Queen,
            PieceKind::King
        ]
    );
    assert_eq!(colors(), vec![Color::White, Color::Black]);
    for (i, square) in squares().into_iter().enumerate() {
        assert_eq!(square.as_u8() as usize, i);
        assert_eq!(square.rank().as_u8() as usize, i >> 3);
        assert_eq!(square.file().as_u8() as usize, i & 7);
        assert_eq!(Square::of(square.rank(), square.file()), square);
    }
    assert_eq!(sq(E4).towards(Direction::North), sq(36));
    assert_eq!(sq(E4).towards(Direction::NorthEast), sq(37));
    assert_eq!(sq(E4).towards(Direction::East), sq(29));
    assert_eq!(sq(E4).towards(Direction::SouthEast), sq(21));
    assert_eq!(sq(E4).towards(Direction::South), sq(20));
    assert_eq!(sq(E4).towards(Direction::SouthWest), sq(19));
    assert_eq!(sq(E4).towards(Direction::West), sq(27));
    assert_eq!(sq(E4).towards(Direction::NorthWest), sq(35));
    assert_eq!(sq(H1).neighbor(Direction::East), None);
    assert_eq!(sq(H1).neighbor(Direction::North), Some(sq(15)));
    assert_eq!(sq(A1).offset(-1, 0), None);
    assert_eq!(sq(A1).offset(7, 7), Some(sq(H8)));
    let vectors = [8, 9, 1, -7, -8, -9, -1, 7];
    let directions = [
        Direction::North,
        Direction::NorthEast,
        Direction::East,
        Direction::SouthEast,
        Direction::South,
        Direction::SouthWest,
        Direction::West,
        Direction::NorthWest,
    ];
    for (i, dir) in directions.iter().enumerate() {
        assert_eq!(dir.as_vector(), vectors[i]);
        assert_eq!(dir.reverse().as_vector(), -vectors[i]);
        assert_eq!(dir.reverse().reverse(), *dir);
        assert_eq!(dir.index(), i);
    }
    assert_eq!(Color::White.toggle(), Color::Black);
    assert_eq!(Color::Black.toggle(), Color::White);
    let values = [1, 3, 3, 5, 9];
    for (kind, value) in [
        PieceKind::Pawn,
        PieceKind::Knight,
        PieceKind::Bishop,
        PieceKind::Rook,
        PieceKind::Queen,
    ]
    .iter()
    .zip(values)
    {
        assert_eq!(kind.value(), value);
    }
    assert!(PieceKind::King.value() > 8 * 9 + 2 * (5 + 3 + 3));
    assert!(Square::try_from_u8(64).is_err());
    assert_eq!(Square::try_from_u8(63).unwrap(), sq(H8));
    assert!(Rank::try_from_u8(8).is_err());
    assert!(File::try_from_u8(8).is_err());
    assert_eq!(Rank::try_from_char('1').unwrap().as_u8(), 0);
    assert_eq!(File::try_from_char('h').unwrap().as_u8(), 7);
    assert!(Rank::try_from_char('9').is_err());
    assert!(File::try_from_char('i').is_err());
    assert_eq!(Rank::new(3).to_char(), '4');
    assert_eq!(File::new(3).to_char(), 'd');
    for letter in "pnbrqkPNBRQK".chars() {
        assert_eq!(Piece::try_from_char(letter).unwrap().to_char(), letter);
    }
    assert!(Piece::try_from_char('x').is_err());
    assert_eq!(PieceKind::Queen.to_char(), 'q');
    let all = CastleStatus::all();
    assert!(all.kingside(Color::White) && all.queenside(Color::Black));
    let fewer = all.with_kingside(Color::White, false).with_queenside(Color::Black, false);
    assert!(!fewer.kingside(Color::White) && fewer.queenside(Color::White));
    assert!(fewer.kingside(Color::Black) && !fewer.queenside(Color::Black));
    assert_eq!(CastleStatus::none().with_kingside(Color::Black, true).kingside(Color::Black), true);
}

#[test]
fn positions_set_up_by_hand() {
    let mut pos = Position::new();
    assert_eq!(pos.as_fen(), "8/8/8/8/8/8/8/8 w KQkq - 0 0");
    let king = Piece { color: Color::White, kind: PieceKind::King };
    assert_eq!(pos.add_piece(sq(E1), king), Ok(()));
    assert_eq!(pos.add_piece(sq(E1), king), Err(()));
    assert_eq!(pos.piece_at(sq(E1)), Some(king));
    assert_eq!(pos.king(Color::White), Some(sq(E1)));
    assert_eq!(pos.king(Color::Black), None);
    assert_eq!(pos.kings(Color::White).to_vec(), vec![sq(E1)]);
    assert_eq!(pos.remove_piece(sq(E8)), Err(()));
    assert_eq!(pos.remove_piece(sq(E1)), Ok(()));
    assert_eq!(pos.piece_at(sq(E1)), None);
    assert_eq!(pos.zobrist_hash(), Position::new().zobrist_hash());
    let start = Position::from_start_position();
    assert_eq!(start.as_fen(), "rnbqkbnr/pppppppp/8/8/8/8/PPPPPPPP/RNBQKBNR w KQkq - 0 1");
    assert_eq!(
        start.zobrist_hash(),
        Position::from_fen("rnbqkbnr/pppppppp/8/8/8/8/PPPPPPPP/RNBQKBNR w KQkq - 0 1")
            .unwrap()
            .zobrist_hash()
    );
    assert_eq!(start.pawns(Color::White).bits(), 0xFF00);
    assert_eq!(start.rooks(Color::Black).to_vec(), vec![sq(A8), sq(H8)]);
    assert_eq!(start.knights(Color::White).to_vec(), vec![sq(B1), sq(G1)]);
    assert_eq!(start.bishops(Color::White).len(), 2);
    assert_eq!(start.queens(Color::Black).to_vec(), vec![sq(59)]);
    assert_eq!(start.pieces(Color::Black).bits(), 0xFFFF_0000_0000_0000);
    for fen in POSITIONS {
        assert_eq!(Position::from_fen(fen).unwrap().as_fen(), fen);
    }
}

#[test]
fn the_null_move_passes_the_turn() {
    let mut pos = Position::from_fen("4k3/8/8/8/4Pp2/8/8/4K3 b - e3 5 9").unwrap();
    pos.make_move(Move::null());
    assert_eq!(pos.as_fen(), "4k3/8/8/8/4Pp2/8/8/4K3 w - - 6 10");
    pos.unmake_move(Move::null());
    assert_eq!(pos.as_fen(), "4k3/8/8/8/4Pp2/8/8/4K3 b - e3 5 9");
}

#[test]
fn where_neither_side_can_move_white_is_looked_at_first() {
    // Both kings are boxed in by their own pieces and checked by a knight
    // that nothing can take: whoever is to move is mated.
    let fen = "6nk/5Npp/8/8/8/8/PPn5/KN6 w - - 0 1";
    let pos = Position::from_fen(fen).unwrap();
    let mirrored = Position::from_fen(&mirror(fen)).unwrap();
    assert!(pos.is_check(Color::White));
    assert!(pos.is_check(Color::Black));
    assert_eq!(legal_moves(&pos).len(), 0);
    assert_eq!(legal_moves(&pos.clone_and_make_move(Move::null())).len(), 0);
    assert_eq!(evaluate(&pos), a4::value::Value::mated_in(0));
    assert_eq!(evaluate(&mirrored), a4::value::Value::mated_in(0));
}

#[test]
fn of_two_kings_the_one_on_the_lower_square_counts() {
    let fen = "6rK/8/8/8/8/8/8/K6k w - - 0 1";
    let pos = Position::from_fen(fen).unwrap();
    let mirrored = Position::from_fen(&mirror(fen)).unwrap();
    assert!(!pos.is_check(Color::White));
    assert!(mirrored.is_check(Color::Black));
    assert_ne!(evaluate(&mirrored), -evaluate(&pos));
}

#[test]
fn the_walk_over_the_squares_gives_each_square_once() {
    let mut walk = a4::types::SquaresIterator::new();
    for expected in squares() {
        assert_eq!(walk.next(), Some(expected));
    }
    assert_eq!(walk.next(), None);
    assert_eq!(walk.next(), None);
}

#[test]
fn the_picture_of_the_start_position() {
    let expected = [
        " r  n  b  q  k  b  n  r | 8\n",
        " p  p  p  p  p  p  p  p | 7\n",
        " .  .  .  .  .  .  .  . | 6\n",
        " .  .  .  .  .  .  .  . | 5\n",
        " .  .  .  .  .  .  .  . | 4\n",
        " .  .  .  .  .  .  .  . | 3\n",
        " P  P  P  P  P  P  P  P | 2\n",
        " R  N  B  Q  K  B  N  R | 1\n",
        "------------------------\n",
        " a  b  c  d  e  f  g  h \n",
    ]
    .concat();
    assert_eq!(Position::from_start_position().diagram(), expected);
}

#[test]
fn the_picture_of_a_set_of_squares() {
    let mut set = SquareSet::empty();
    set.insert(sq(A1));
    set.insert(sq(H8));
    set.insert(sq(D4));
    let expected = [
        " .  .  .  .  .  .  .  1 | 8\n",
        " .  .  .  .  .  .  .  . | 7\n",
        " .  .  .  .  .  .  .  . | 6\n",
        " .  .  .  .  .  .  .  . | 5\n",
        " .  .  .  1  .  .  .  . | 4\n",
        " .  .  .  .  .  .  .  . | 3\n",
        " .  .  .  .  .  .  .  . | 2\n",
        " 1  .  .  .  .  .  .  . | 1\n",
        "------------------------\n",
        " a  b  c  d  e  f  g  h \n",
    ]
    .concat();
    assert_eq!(set.diagram(), expected);
}

#[test]
fn counting_with_care_counts_the_same() {
    let start = Position::from_start_position();
    assert_eq!(a4::perft::perft_checked(&start, 0, true), Some(1));
    assert_eq!(a4::perft::perft_checked(&start, 3, true), Some(8902));
    assert_eq!(a4::perft::perft_checked(&start, 3, false), Some(8902));
    let kiwipete = Position::from_fen(POSITIONS[1]).unwrap();
    assert_eq!(a4::perft::perft_checked(&kiwipete, 2, true), Some(2039));
    assert_eq!(a4::perft::perft(&kiwipete, 2, true), 2039);
}

#[test]
fn the_rays_of_the_table_give_what_the_sliders_attack() {
    let table = RayTable::new();
    let mut occupancies = vec![SquareSet::empty(), SquareSet::all()];
    for fen in POSITIONS {
        let pos = Position::from_fen(fen).unwrap();
        occupancies.push(pos.pieces(Color::White).or(pos.pieces(Color::Black)));
    }
    for occupancy in occupancies {
        for square in squares() {
            assert_eq!(table.bishop_attacks(square, occupancy), bishop_attacks(square, occupancy));
            assert_eq!(table.rook_attacks(square, occupancy), rook_attacks(square, occupancy));
            assert_eq!(table.queen_attacks(square, occupancy), queen_attacks(square, occupancy));
            assert_eq!(
                table.positive_ray_attacks(square, occupancy, Direction::NorthEast),
                ray_attacks(square, occupancy, Direction::NorthEast)
            );
            assert_eq!(
                table.negative_ray_attacks(square, occupancy, Direction::West),
                ray_attacks(square, occupancy, Direction::West)
            );
        }
    }
    // A rook on a1 with a piece on a4 and one on c1.
    let mut occupancy = SquareSet::empty();
    occupancy.insert(sq(24));
    occupancy.insert(sq(2));
    let mut expected = SquareSet::empty();
    for index in [8, 16, 24, 1, 2] {
        expected.insert(sq(index));
    }
    assert_eq!(table.rook_attacks(sq(A1), occupancy), expected);
}

#[test]
fn the_lowest_and_the_highest_square_of_a_set() {
    assert_eq!(SquareSet::empty().lowest(), 64);
    assert_eq!(SquareSet::empty().highest(), 64);
    assert_eq!(SquareSet::all().lowest(), 0);
    assert_eq!(SquareSet::all().highest(), 63);
    let mut set = SquareSet::empty();
    set.insert(sq(D4));
    assert_eq!((set.lowest(), set.highest()), (27, 27));
    set.insert(sq(H8));
    set.insert(sq(B1));
    assert_eq!((set.lowest(), set.highest()), (1, 63));
}

#[test]
fn sliders_attack_up_to_the_first_piece_in_their_way() {
    // A rook on a1 behind its own pawn on a2.
    let pos = Position::from_fen("4k3/8/8/8/8/8/P7/R3K3 w - - 0 1").unwrap();
    let mut analysis = a4::analysis::Analysis::new(&pos);
    let rook = analysis.attacked_by_kind(Color::White, PieceKind::Rook);
    assert!(rook.contains(sq(A2)));
    assert!(!rook.contains(sq(16)));
    assert!(rook.contains(sq(B1)));
    assert!(rook.contains(sq(3)));
    // The rook's own king on e1 is the first piece in its way on the rank.
    assert!(rook.contains(sq(E1)));
    assert!(!rook.contains(sq(5)));
    assert_eq!(rook.len(), 5);
    let all = analysis.attacked_by(Color::White);
    assert!(!all.contains(sq(24)));
    assert!(all.contains(sq(A2)));
    // The pawn on a2 attacks b3; nothing of White attacks a3.
    assert!(all.contains(sq(17)));
    assert!(!all.contains(sq(16)));
    let none = analysis.attacked_by_kind(Color::White, PieceKind::Queen);
    assert!(none.is_empty());
    assert_eq!(analysis.attacked_by_kind(Color::White, PieceKind::Rook), rook);
}

#[test]
fn a_score_keeps_its_number_up_to_the_bounds() {
    let high = a4::value::Value::new(16383);
    assert_eq!(high.unpack(), a4::value::UnpackedValue::Value(16383));
    assert_eq!(high.as_i16(), 16383);
    let low = a4::value::Value::new(-16383);
    assert_eq!(low.unpack(), a4::value::UnpackedValue::Value(-16383));
    assert_eq!(a4::value::Value::new(0).unpack(), a4::value::UnpackedValue::Value(0));
    assert_eq!(a4::value::Value::new(-250).as_i16(), -250);
    assert_eq!(a4::value::Value::new(16384).as_i16(), 16383);
    assert_eq!(a4::value::Value::new(i16::MIN).as_i16(), -16383);
    // Sums stay clear of the bounds.
    assert_eq!((high + a4::value::Value::new(5)).as_i16(), 16382);
}

#[test]
fn an_exchange_on_a_square_that_nothing_attacks_wins_nothing() {
    let pos = Position::from_fen("4k3/8/8/8/8/8/8/4K3 w - - 0 1").unwrap();
    assert_eq!(a4::move_order::static_exchange_evaluation(&pos, sq(A8)), 0);
    assert_eq!(a4::move_order::static_exchange_evaluation(&pos, sq(E8)), 0);
}
