use a4::eval::evaluate;
use a4::moves::Move;
use a4::perft::perft;
use a4::position::Position;
use a4::search::{
    consider_transposition, search, search_options, search_to_depth, Deepening, SearchOptions,
    DEFAULT_DEPTH,
};
use a4::table::{self, NodeKind, Table, TableEntry};
use a4::types::{Square, E5, E7};
use a4::uci::SearchRequest;
use a4::value::{UnpackedValue, Value};
use std::sync::atomic::AtomicBool;
use std::time::Duration;

fn sq(index: u8) -> Square {
    Square::new(index)
}

fn options(depth: u32) -> SearchOptions<'static> {
    SearchOptions { time_limit: None, node_limit: None, hard_stop: None, depth }
}

#[test]
fn mate_in_one_is_found_at_depth_one() {
    let mated = Position::from_fen("4k3/4Q3/4K3/8/8/8/8/8 b - - 0 1").unwrap();
    assert_eq!(Value::mate_in(0), evaluate(&mated));
    // The queen cannot pass its own king on e6: it mates from b8 or h8.
    let pos = Position::from_fen("4k3/8/4K3/4Q3/8/8/8/8 w - - 0 1").unwrap();
    assert!(!pos.is_legal(Move::quiet(sq(E5), sq(E7))));
    let mut tt = Table::new();
    let result = search(&pos, &mut tt, &options(1));
    assert_eq!(result.best_move.as_uci(), "e5b8");
    assert_eq!(result.best_score.as_uci(), "mate 1");
    assert_eq!(result.best_score.unpack(), UnpackedValue::MateIn(1));
    let after = pos.clone_and_make_move(result.best_move);
    assert_eq!(Value::mate_in(0), evaluate(&after));
    // With the king out of the way the queen mates on e7.
    let open = Position::from_fen("4k3/8/3K4/4Q3/8/8/8/8 w - - 0 1").unwrap();
    let mut tt = Table::new();
    let result = search(&open, &mut tt, &options(1));
    assert_eq!(result.best_move, Move::quiet(sq(E5), sq(E7)));
    assert_eq!(result.best_move.as_uci(), "e5e7");
    assert_eq!(result.best_score.as_uci(), "mate 1");
}

#[test]
fn forced_mate_is_found_by_its_depth() {
    // A back-rank mate in one: found at depth one, and found again when searching deeper.
    let pos = Position::from_fen("6k1/5ppp/8/8/8/8/8/R3K3 w - - 0 1").unwrap();
    for depth in 1..=3 {
        let mut tt = Table::new();
        let result = search(&pos, &mut tt, &options(depth));
        assert_eq!(result.best_move.as_uci(), "a1a8");
        assert!(matches!(result.best_score.unpack(), UnpackedValue::MateIn(_)));
    }
    let mut tt = Table::new();
    assert_eq!(search(&pos, &mut tt, &options(1)).best_score.as_uci(), "mate 1");
}

#[test]
fn same_search_on_fresh_table_gives_same_move() {
    let pos =
        Position::from_fen("r1bqkb1r/ppp3pp/2n2p2/3np3/2BP4/5N2/PPP2PPP/RNBQ1RK1 w kq - 0 7")
            .unwrap();
    let mut first_table = Table::new();
    let first = search(&pos, &mut first_table, &options(2));
    let mut second_table = Table::new();
    let second = search(&pos, &mut second_table, &options(2));
    assert_eq!(first.best_move, second.best_move);
    assert_eq!(first.best_score, second.best_score);
    assert!(pos.is_legal(first.best_move));
    assert_eq!(first.stats.nodes_evaluated_per_depth.len(), 2);
}

#[test]
fn search_without_depth_finds_nothing() {
    let pos = Position::from_start_position();
    let mut tt = Table::new();
    let result = search(&pos, &mut tt, &options(0));
    assert!(result.best_move.is_null());
    assert_eq!(result.best_score, Value::mated_in(0));
    assert_eq!(result.stats.nodes_evaluated, 0);
}

#[test]
fn search_under_a_node_limit_ends_early() {
    let pos = Position::from_start_position();
    let mut tt = Table::new();
    let opts = SearchOptions { time_limit: None, node_limit: Some(0), hard_stop: None, depth: 4 };
    let result = search(&pos, &mut tt, &opts);
    assert!(result.best_move.is_null() || pos.is_legal(result.best_move));
    assert!(result.stats.nodes_evaluated_per_depth.len() <= 4);
}

#[test]
fn search_with_the_stop_flag_set_finds_nothing() {
    let flag = std::sync::atomic::AtomicBool::new(true);
    let pos = Position::from_start_position();
    let mut tt = Table::new();
    let opts = SearchOptions { time_limit: None, node_limit: None, hard_stop: Some(&flag), depth: 3 };
    let result = search(&pos, &mut tt, &opts);
    assert!(result.best_move.is_null());
}

#[test]
fn stalemate_and_mate_at_the_root() {
    let stalemate = Position::from_fen("7k/5Q2/6K1/8/8/8/8/8 b - - 0 1").unwrap();
    let mut tt = Table::new();
    let result = search(&stalemate, &mut tt, &options(2));
    assert!(result.best_move.is_null());
    assert_eq!(evaluate(&stalemate), Value::new(0));
}

#[test]
fn table_records_and_queries() {
    let pos = Position::from_start_position();
    let other = Position::from_fen("8/8/8/8/8/8/8/K6k w - - 0 1").unwrap();
    let mut tt = table::initialize();
    assert!(tt.query(&pos).is_none());
    let mv = Move::from_uci(&pos, "e2e4").unwrap();
    table::record_pv(&mut tt, &pos, mv, 3, Value::new(25));
    let entry = table::query(&tt, &pos).unwrap();
    assert_eq!(entry.best_move(), Some(mv));
    assert_eq!(entry.depth(), 3);
    assert_eq!(entry.kind(), NodeKind::PV(Value::new(25)));
    assert_eq!(entry.zobrist_key, pos.zobrist_hash());
    assert!(!entry.is_all());
    assert!(table::query(&tt, &other).is_none());
    // An All node does not replace a PV node.
    table::record_all(&mut tt, &pos, 9, Value::new(1));
    assert_eq!(tt.query(&pos).unwrap().kind(), NodeKind::PV(Value::new(25)));
    // A Cut node replaces what is there.
    table::record_cut(&mut tt, &pos, mv, 1, Value::new(7));
    assert_eq!(tt.query(&pos).unwrap().kind(), NodeKind::Cut(Value::new(7)));
    // An All node replaces an All node of lesser depth only.
    table::record_all(&mut tt, &other, 2, Value::new(1));
    table::record_all(&mut tt, &other, 1, Value::new(2));
    assert_eq!(tt.query(&other).unwrap().kind(), NodeKind::All(Value::new(1)));
    table::record_all(&mut tt, &other, 2, Value::new(3));
    assert_eq!(tt.query(&other).unwrap().kind(), NodeKind::All(Value::new(1)));
    table::record_all(&mut tt, &other, 3, Value::new(4));
    assert_eq!(tt.query(&other).unwrap().kind(), NodeKind::All(Value::new(4)));
    assert!(tt.query(&other).unwrap().is_all());
    assert_eq!(tt.query(&other).unwrap().best_move(), None);
    table::clear(&mut tt);
    assert!(tt.query(&pos).is_none());
    assert!(tt.query(&other).is_none());
}

#[test]
fn principal_variation_follows_the_best_moves() {
    let pos = Position::from_start_position();
    let mut tt = Table::new();
    let e4 = Move::from_uci(&pos, "e2e4").unwrap();
    let after = pos.clone_and_make_move(e4);
    let e5 = Move::from_uci(&after, "e7e5").unwrap();
    tt.record_pv(&pos, e4, 2, Value::new(0));
    tt.record_pv(&after, e5, 1, Value::new(0));
    assert_eq!(table::get_pv(&tt, &pos, 5), vec![e4, e5]);
    assert_eq!(tt.get_pv(&pos, 1), vec![e4]);
    assert_eq!(tt.get_pv(&pos, 0), vec![]);
    assert_eq!(tt.get_pv(&after, 3), vec![e5]);
    // A move that is not legal in the position ends the line.
    let mut colliding = Table::new();
    colliding.record_pv(&pos, e5, 2, Value::new(0));
    assert_eq!(colliding.get_pv(&pos, 3), vec![]);
}

#[test]
fn what_the_table_holds_settles_or_guides_the_search() {
    let mv = Move::quiet(sq(E5), sq(E7));
    let alpha = Value::new(-50);
    let beta = Value::new(50);
    let entry = |depth: u32, node: NodeKind, best_move: Option<Move>| {
        Some(TableEntry { zobrist_key: 1, best_move, depth, node })
    };
    let none = consider_transposition(None, false, alpha, beta, 3);
    assert!(none.hash_move.is_none() && none.cutoff.is_none() && none.alpha == alpha);
    // Too shallow: only the move is taken.
    let shallow = consider_transposition(entry(2, NodeKind::PV(Value::new(9)), Some(mv)), true, alpha, beta, 3);
    assert!(shallow.hash_move == Some(mv) && shallow.cutoff.is_none() && shallow.alpha == alpha);
    // An exact value settles the search; a mate is aged by one ply.
    let exact = consider_transposition(entry(3, NodeKind::PV(Value::new(9)), Some(mv)), true, alpha, beta, 3);
    assert_eq!(exact.cutoff, Some(Value::new(9)));
    let mate = consider_transposition(entry(3, NodeKind::PV(Value::mate_in(2)), Some(mv)), true, alpha, beta, 3);
    assert_eq!(mate.cutoff, Some(Value::mate_in(3)));
    // A move that is not legal here: the entry is of another position.
    let foreign = consider_transposition(entry(3, NodeKind::PV(Value::new(9)), Some(mv)), false, alpha, beta, 3);
    assert!(foreign.cutoff.is_none());
    // A lower bound at or above beta settles the search, one below it raises alpha.
    let high = consider_transposition(entry(4, NodeKind::Cut(Value::new(50)), Some(mv)), true, alpha, beta, 3);
    assert_eq!(high.cutoff, Some(Value::new(50)));
    let raise = consider_transposition(entry(4, NodeKind::Cut(Value::new(10)), Some(mv)), true, alpha, beta, 3);
    assert!(raise.cutoff.is_none() && raise.alpha == Value::new(10));
    let low = consider_transposition(entry(4, NodeKind::Cut(Value::new(-60)), Some(mv)), true, alpha, beta, 3);
    assert!(low.cutoff.is_none() && low.alpha == alpha);
    // An upper bound at or below alpha settles the search with alpha.
    let fail_low = consider_transposition(entry(3, NodeKind::All(Value::new(-50)), None), false, alpha, beta, 3);
    assert_eq!(fail_low.cutoff, Some(alpha));
    let open = consider_transposition(entry(3, NodeKind::All(Value::new(0)), None), false, alpha, beta, 3);
    assert!(open.cutoff.is_none() && open.hash_move.is_none());
}

#[test]
fn perft_from_the_start_position() {
    let pos = Position::from_start_position();
    assert_eq!(perft(&pos, 0, true), 1);
    assert_eq!(perft(&pos, 1, true), 20);
    assert_eq!(perft(&pos, 2, true), 400);
    assert_eq!(perft(&pos, 3, true), 8902);
    assert_eq!(perft(&pos, 1, false), 20);
    assert_eq!(perft(&pos, 2, false), 400);
    assert_eq!(perft(&pos, 3, false), 8902);
}

#[test]
fn perft_from_the_start_position_depth_four() {
    let pos = Position::from_start_position();
    assert_eq!(perft(&pos, 4, true), 197281);
}

#[test]
fn perft_with_castling_promotion_and_en_passant() {
    let kiwipete =
        Position::from_fen("r3k2r/p1ppqpb1/bn2pnp1/3PN3/1p2P3/2N2Q1p/PPPBBPPP/R3K2R w KQkq - 0 1")
            .unwrap();
    assert_eq!(perft(&kiwipete, 1, true), 48);
    assert_eq!(perft(&kiwipete, 2, true), 2039);
    let endgame = Position::from_fen("8/2p5/3p4/KP5r/1R3p1k/8/4P1P1/8 w - - 0 1").unwrap();
    assert_eq!(perft(&endgame, 1, true), 14);
    assert_eq!(perft(&endgame, 2, true), 191);
    assert_eq!(perft(&endgame, 3, true), 2812);
    let promotions = Position::from_fen("n1n5/PPPk4/8/8/8/8/4Kppp/5N1N b - - 0 1").unwrap();
    assert_eq!(perft(&promotions, 1, true), 24);
    assert_eq!(perft(&promotions, 2, true), 496);
}

#[test]
fn legal_captures_are_the_legal_moves_that_capture() {
    let pos = Position::from_fen(
        "r3k2r/p1ppqpb1/bn2pnp1/3PN3/1p2P3/2N2Q1p/PPPBBPPP/R3K2R w KQkq - 0 1",
    )
    .unwrap();
    let captures = a4::search::legal_captures(&pos);
    let expected: Vec<_> = a4::movegen::legal_moves(&pos)
        .into_iter()
        .filter(|m| m.is_capture())
        .collect();
    assert_eq!(captures, expected);
    assert_eq!(captures.len(), 8);
}

#[test]
fn a_request_without_a_depth_is_searched_to_the_default_depth() {
    let stop = AtomicBool::new(false);
    let bare = SearchRequest { time_limit: None, node_limit: None, depth: None };
    let found = search_options(&bare, &stop);
    assert_eq!(DEFAULT_DEPTH, 10);
    assert_eq!(found.depth, 10);
    assert_eq!(found.time_limit, None);
    assert_eq!(found.node_limit, None);
    assert!(found.hard_stop.is_some());
    let full = SearchRequest { time_limit: Some(1500), node_limit: Some(7), depth: Some(3) };
    let found = search_options(&full, &stop);
    assert_eq!(found.depth, 3);
    assert_eq!(found.time_limit, Some(Duration::from_millis(1500)));
    assert_eq!(found.node_limit, Some(7));
}

#[test]
fn deepening_step_by_step_is_the_search() {
    let fen = "r1bqkb1r/ppp3pp/2n2p2/3np3/2BP4/5N2/PPP2PPP/RNBQ1RK1 w kq - 0 7";
    let pos = Position::from_fen(fen).unwrap();
    let opts = SearchOptions { time_limit: None, node_limit: Some(100_000), hard_stop: None, depth: 3 };
    let mut whole_table = table::initialize();
    let whole = search(&pos, &mut whole_table, &opts);

    let mut stepped_table = table::initialize();
    let mut progress = Deepening::new();
    assert_eq!(progress.depth, 0);
    assert_eq!(progress.best_move, Move::null());
    assert_eq!(progress.best_score, Value::mated_in(0));
    let mut depths = vec![];
    while let Some(step) = progress.next_search(&opts, &Duration::from_secs(1)) {
        depths.push(step.depth);
        assert_eq!(
            step.node_limit,
            Some(100_000u64.saturating_sub(progress.stats.nodes_evaluated))
        );
        let found = search_to_depth(&pos, &mut stepped_table, &step, step.depth);
        progress.record(found);
    }
    assert_eq!(depths, vec![1, 2, 3]);
    assert_eq!(progress.best_move, whole.best_move);
    assert_eq!(progress.best_score, whole.best_score);
    assert_eq!(progress.stats.nodes_evaluated, whole.stats.nodes_evaluated);
    assert_eq!(progress.stats.nodes_evaluated_per_depth, whole.stats.nodes_evaluated_per_depth);

    // Once the time is over, no further depth is searched.
    let timed = SearchOptions {
        time_limit: Some(Duration::from_millis(10)),
        node_limit: None,
        hard_stop: None,
        depth: 3,
    };
    assert!(Deepening::new().next_search(&timed, &Duration::from_millis(11)).is_none());
    let left = Deepening::new().next_search(&timed, &Duration::from_millis(4)).unwrap();
    assert_eq!(left.time_limit, Some(Duration::from_millis(6)));
    assert_eq!(left.depth, 1);
}

#[test]
fn a_search_goes_on_until_something_ends_it() {
    assert!(a4::search::may_go_on(false, false, 0, None, false));
    assert!(a4::search::may_go_on(false, false, 7, Some(7), false));
    assert!(!a4::search::may_go_on(false, false, 8, Some(7), false));
    assert!(!a4::search::may_go_on(true, false, 0, None, false));
    assert!(!a4::search::may_go_on(false, true, 0, None, false));
    assert!(!a4::search::may_go_on(false, false, 0, None, true));
    assert!(!a4::search::may_go_on(true, true, 9, Some(1), true));
}

#[test]
fn the_next_depth_is_planned_from_what_the_clock_said() {
    let opts = SearchOptions { time_limit: None, node_limit: Some(10), hard_stop: None, depth: 2 };
    let start = Deepening::new();
    assert!(start.plan_search(&opts, true, None).is_none());
    let plan = start.plan_search(&opts, false, Some(Duration::from_millis(3))).unwrap();
    assert_eq!(plan.depth, 1);
    assert_eq!(plan.time_limit, Some(Duration::from_millis(3)));
    assert_eq!(plan.node_limit, Some(10));
    assert!(plan.hard_stop.is_none());
    let mut done = Deepening::new();
    done.record(None);
    done.record(None);
    assert!(done.plan_search(&opts, false, None).is_none());
}

#[test]
fn a_side_without_a_move_is_mated_at_once_or_drawn() {
    // A mate in one is a mate in one at every depth.
    let pos = Position::from_fen("6k1/5ppp/8/8/8/8/8/R3K3 w - - 0 1").unwrap();
    for depth in 1..=3 {
        let mut tt = Table::new();
        let result = search(&pos, &mut tt, &options(depth));
        assert_eq!(result.best_move.as_uci(), "a1a8");
        assert_eq!(result.best_score.as_uci(), "mate 1", "depth {}", depth);
    }
    // Searched from the mated position, the value is that of being mated at once.
    let mated = Position::from_fen("R5k1/5ppp/8/8/8/8/8/4K3 b - - 0 1").unwrap();
    let mut tt = Table::new();
    let result = search(&mated, &mut tt, &options(2));
    assert_eq!(result.best_move, Move::null());
    match tt.query(&mated).unwrap().kind() {
        NodeKind::PV(value) => assert_eq!(value, Value::mated_in(0)),
        other => panic!("{:?}", other),
    }
}
