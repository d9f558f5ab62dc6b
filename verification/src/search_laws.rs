//! What the search finds where a move mates at once: a search to any depth
//! that starts with an empty table and is bounded by neither time, nodes nor
//! a stop flag gives a move that mates, with the score of a mate in one.

use crate::eval::evaluation;
use crate::model::PositionModel;
use crate::move_order::{lemma_sort_by_key, order_key, piece_count, sort_by_key};
use crate::movegen::{legal_list, lemma_legal_list};
use crate::moves::Move;
use crate::search_model::{
    after_hash_move, age, alpha_beta_value, capture_list, depth_search, move_value, negate,
    ordered_captures,
    quiesce_captures, quiesce_value, search_moves, search_outcome, stand_pat, try_move,
    SearchState,
};
use crate::table::{lookup, TableEntry};
use crate::value::Value;
use vstd::prelude::*;

verus! {

/// Whether the score lies between the furthest mates.
pub open spec fn sound(v: Value) -> bool {
    Value::mated_score(0) <= v.raw() <= Value::mate_score(0)
}

/// The lesser of two numbers.
pub open spec fn lesser(a: int, b: int) -> int {
    if a <= b {
        a
    } else {
        b
    }
}

/// The static score of a position lies between the furthest mates; where
/// it says that the side to move is mated, that side has no legal move.
pub proof fn lemma_stand_pat(m: PositionModel)
    ensures
        sound(stand_pat(m)),
        stand_pat(m).raw() == Value::mated_score(0) || stand_pat(m).raw() > Value::mated_score(0)
            + 1,
        stand_pat(m).raw() == Value::mated_score(0) ==> legal_list(m).len() == 0
            && capture_list(m).len() == 0 && m.in_check(m.side),
{
    broadcast use Value::lemma_of_raw;

    lemma_legal_list(m);
    let e = evaluation(m);
    assert(-16433 <= e <= 16433);
    if stand_pat(m).raw() == Value::mated_score(0) {
        assert(m.turn_of(m.side) == m);
        assert(legal_list(m).len() == 0);
        assert(legal_list(m) =~= Seq::<Move>::empty());
        reveal(Seq::filter);
        assert(capture_list(m).len() == 0);
    }
}

/// The score seen from the other side is sound where the score is, and is
/// its negative.
pub proof fn lemma_negate(v: Value)
    requires
        sound(v),
    ensures
        sound(negate(v)),
        negate(v).raw() == -v.raw(),
{
    broadcast use Value::lemma_of_raw;

}

/// A quiescence search without limits goes on to its end and leaves the
/// table as it is. Its value is sound, and no less than the lesser of `beta`
/// and the static score; it is the static score where that lies below `beta`
/// and there is no capture.
pub proof fn lemma_quiesce(m: PositionModel, st: SearchState, alpha: Value, beta: Value)
    requires
        !st.terminating,
        sound(alpha),
        sound(beta),
    ensures
        ({
            let r = quiesce_value(m, st, alpha, beta, None);
            &&& !r.state.terminating
            &&& r.state.table == st.table
            &&& sound(r.value)
            &&& r.value.raw() >= lesser(beta.raw(), stand_pat(m).raw())
            &&& capture_list(m).len() == 0 && stand_pat(m).raw() < beta.raw() ==> r.value
                == stand_pat(m)
        }),
    decreases piece_count(m), 1nat, 0nat,
{
    lemma_stand_pat(m);
    let pat = stand_pat(m);
    if pat.raw() >= beta.raw() {
    } else if capture_list(m).len() == 0 {
    } else {
        let counted = SearchState {
            nodes: if st.nodes < u64::MAX {
                (st.nodes + 1) as u64
            } else {
                st.nodes
            },
            ..st
        };
        let lower = if alpha.raw() < pat.raw() {
            pat
        } else {
            alpha
        };
        lemma_quiesce_captures(m, counted, ordered_captures(m), 0, lower, beta);
    }
}

/// The quiescence search of the captures, without limits, goes on to its
/// end and leaves the table as it is; its value is sound and no less than the
/// lesser of `alpha` and `beta`.
pub proof fn lemma_quiesce_captures(
    m: PositionModel,
    st: SearchState,
    captures: Seq<Move>,
    k: int,
    alpha: Value,
    beta: Value,
)
    requires
        !st.terminating,
        sound(alpha),
        sound(beta),
    ensures
        ({
            let r = quiesce_captures(m, st, captures, k, alpha, beta, None);
            &&& !r.state.terminating
            &&& r.state.table == st.table
            &&& sound(r.value)
            &&& r.value.raw() >= lesser(alpha.raw(), beta.raw())
        }),
    decreases piece_count(m), 0nat, captures.len() - k,
{
    if k < 0 || k >= captures.len() {
    } else {
        let child = m.after_make(captures[k]);
        if piece_count(child) >= piece_count(m) {
        } else {
            lemma_negate(alpha);
            lemma_negate(beta);
            lemma_quiesce(child, st, negate(beta), negate(alpha));
            let below = quiesce_value(child, st, negate(beta), negate(alpha), None);
            lemma_negate(below.value);
            let value = negate(below.value);
            if value.raw() >= beta.raw() {
            } else {
                let next = if value.raw() >= alpha.raw() {
                    value
                } else {
                    alpha
                };
                lemma_quiesce_captures(m, below.state, captures, k + 1, next, beta);
            }
        }
    }
}

/// Whether the static score of the position after the move says that the
/// side to move there is mated.
pub open spec fn mates(m: PositionModel, x: Move) -> bool {
    stand_pat(m.after_make(x)).raw() == Value::mated_score(0)
}

/// Whether every entry of the table names a move.
pub open spec fn all_named(table: Map<u64, TableEntry>) -> bool {
    forall|key: u64| table.contains_key(key) ==> (#[trigger] table[key]).best_move.is_some()
}

/// Whether the table holds, for the position, an entry of the given depth
/// that names a legal move that mates, and every entry of it names a move.
pub open spec fn holds_mate(table: Map<u64, TableEntry>, m: PositionModel, depth: u32) -> bool {
    &&& all_named(table)
    &&& match lookup(table, m.zobrist()) {
        Some(entry) => entry.depth == depth && match entry.best_move {
            Some(y) => m.legal(y) && mates(m, y),
            None => false,
        },
        None => false,
    }
}

/// The search of one move at depth one, within a window that ends at the
/// nearest mate: a move that mates cuts the search off and is recorded; any
/// other move does not, and leaves the lower bound below the nearest mate.
pub proof fn lemma_try_move(m: PositionModel, st: SearchState, x: Move, alpha: Value, beta: Value)
    requires
        !st.terminating,
        all_named(st.table),
        sound(alpha),
        alpha.raw() < Value::mate_score(0),
        beta.raw() == Value::mate_score(0),
    ensures
        ({
            let t = try_move(m, st, x, alpha, beta, 1, None);
            &&& !t.state.terminating
            &&& all_named(t.state.table)
            &&& t.cut == mates(m, x)
            &&& t.cut ==> lookup(t.state.table, m.zobrist()).is_some() && lookup(
                t.state.table,
                m.zobrist(),
            ).unwrap().best_move == Some(x) && lookup(t.state.table, m.zobrist()).unwrap().depth
                == 1
            &&& !t.cut ==> sound(t.alpha) && t.alpha.raw() < Value::mate_score(0)
        }),
{
    let child = m.after_make(x);
    lemma_negate(alpha);
    lemma_negate(beta);
    lemma_stand_pat(child);
    lemma_quiesce(child, st, negate(beta), negate(alpha));
    let below = quiesce_value(child, st, negate(beta), negate(alpha), None);
    lemma_negate(below.value);
    assert(alpha_beta_value(child, st, negate(beta), negate(alpha), 0, None) == below);
    assert(move_value(m, st, x, alpha, beta, 1, None).value == negate(below.value));
}

/// The search of the moves at depth one, within a window that ends at the
/// nearest mate: where a legal move of the list mates, the value is that of
/// a mate in one, and the table holds a move that mates.
pub proof fn lemma_search_moves(
    m: PositionModel,
    st: SearchState,
    moves: Seq<Move>,
    k: int,
    alpha: Value,
    beta: Value,
    improved: bool,
)
    requires
        !st.terminating,
        all_named(st.table),
        sound(alpha),
        alpha.raw() < Value::mate_score(0),
        beta.raw() == Value::mate_score(0),
        0 <= k,
        forall|j: int| 0 <= j < moves.len() ==> m.legal(#[trigger] moves[j]),
        exists|j: int| k <= j < moves.len() && mates(m, #[trigger] moves[j]),
    ensures
        ({
            let r = search_moves(m, st, moves, k, alpha, beta, 1, improved, None, None);
            &&& r.value == age(beta)
            &&& !r.state.terminating
            &&& holds_mate(r.state.table, m, 1)
        }),
    decreases moves.len() - k,
{
    let j = choose|j: int| k <= j < moves.len() && mates(m, #[trigger] moves[j]);
    lemma_try_move(m, st, moves[k], alpha, beta);
    let t = try_move(m, st, moves[k], alpha, beta, 1, None);
    if t.cut {
    } else {
        assert(k < j);
        lemma_search_moves(m, t.state, moves, k + 1, t.alpha, beta, improved || t.raised);
    }
}

/// The first depth of a search that starts with an empty table and is
/// bounded by neither time, nodes nor a stop flag: where a legal move mates,
/// its best move is a legal move that mates, with the score of a mate in one,
/// and the table holds that move afterwards.
pub proof fn lemma_first_depth(m: PositionModel)
    requires
        exists|x: Move| m.legal(x) && #[trigger] mates(m, x),
    ensures
        ({
            let found = depth_search(m, Map::empty(), 1, None);
            &&& found.best.is_some()
            &&& m.legal(found.best.unwrap().0)
            &&& mates(m, found.best.unwrap().0)
            &&& found.best.unwrap().1 == Value::of_raw(Value::mate_score(1))
            &&& holds_mate(found.table, m, 1)
        }),
{
    broadcast use Value::lemma_of_raw;
    broadcast use vstd::seq_lib::group_to_multiset_ensures;

    let x = choose|x: Move| m.legal(x) && #[trigger] mates(m, x);
    let table = Map::<u64, TableEntry>::empty();
    let st = SearchState { table, nodes: 0, terminating: false };
    let alpha = Value::of_raw(Value::mated_score(0));
    let beta = Value::of_raw(Value::mate_score(0));
    let list = legal_list(m);
    let sorted = sort_by_key(list, |mv: Move| order_key(m, mv));
    lemma_legal_list(m);
    lemma_sort_by_key(list, |mv: Move| order_key(m, mv));
    assert(list.contains(x));
    assert(sorted.contains(x)) by {
        assert(sorted.to_multiset().count(x) == list.to_multiset().count(x));
    }
    let j = choose|j: int| 0 <= j < sorted.len() && sorted[j] == x;
    assert(0 <= j < sorted.len() && mates(m, sorted[j]));
    assert forall|i: int| 0 <= i < sorted.len() implies m.legal(#[trigger] sorted[i]) by {
        let y = sorted[i];
        assert(sorted.to_multiset().count(y) > 0);
        assert(list.contains(y));
    }
    lemma_search_moves(m, st, sorted, 0, alpha, beta, false);
    let r = search_moves(m, st, sorted, 0, alpha, beta, 1, false, None, None);
    assert(after_hash_move(m, st, alpha, beta, 1, false, None, None) == r);
    assert(alpha_beta_value(m, st, alpha, beta, 1, None) == r);
    assert(age(beta) == Value::of_raw(Value::mate_score(1)));
}

/// The search of a position in which the static score says that the side
/// to move is mated, to a depth of one or more, where every entry of the
/// table names a move: its value is that of being mated at once, and every
/// entry of the table names a move afterwards.
pub proof fn lemma_mated_search(
    c: PositionModel,
    st: SearchState,
    alpha: Value,
    beta: Value,
    depth: u32,
)
    requires
        !st.terminating,
        all_named(st.table),
        depth >= 1,
        stand_pat(c).raw() == Value::mated_score(0),
    ensures
        ({
            let r = alpha_beta_value(c, st, alpha, beta, depth, None);
            &&& r.value == Value::of_raw(Value::mated_score(0))
            &&& !r.state.terminating
            &&& all_named(r.state.table)
        }),
{
    lemma_stand_pat(c);
    lemma_legal_list(c);
    assert forall|x: Move| !c.legal(x) by {
        if c.legal(x) {
            assert(legal_list(c).contains(x));
        }
    }
    assert(crate::search_model::hash_move_of(c, st).is_none());
}

/// The search of a position to a depth of two or more, with the widest
/// window, where the table holds for the position a move that mates, found at
/// a lesser depth: the value is that of a mate in one, and the table holds a
/// move that mates, found at this depth.
pub proof fn lemma_deeper(m: PositionModel, st: SearchState, before: u32, depth: u32)
    requires
        !st.terminating,
        holds_mate(st.table, m, before),
        before < depth,
        depth >= 2,
    ensures
        ({
            let r = alpha_beta_value(
                m,
                st,
                Value::of_raw(Value::mated_score(0)),
                Value::of_raw(Value::mate_score(0)),
                depth,
                None,
            );
            &&& r.value == Value::of_raw(Value::mate_score(1))
            &&& !r.state.terminating
            &&& holds_mate(r.state.table, m, depth)
        }),
{
    broadcast use Value::lemma_of_raw;

    let alpha = Value::of_raw(Value::mated_score(0));
    let beta = Value::of_raw(Value::mate_score(0));
    let entry = lookup(st.table, m.zobrist()).unwrap();
    let y = entry.best_move.unwrap();
    let child = m.after_make(y);
    assert(crate::search_model::hash_move_of(m, st) == Some(y));
    lemma_negate(alpha);
    lemma_negate(beta);
    lemma_mated_search(child, st, negate(beta), negate(alpha), (depth - 1) as u32);
    let below = alpha_beta_value(child, st, negate(beta), negate(alpha), (depth - 1) as u32, None);
    assert(move_value(m, st, y, alpha, beta, depth, None).value == negate(below.value));
    assert(negate(below.value).raw() == Value::mate_score(0));
    let t = try_move(m, st, y, alpha, beta, depth, None);
    assert(t.cut);
    assert(age(beta) == Value::of_raw(Value::mate_score(1)));
}

/// The depths of a search that follow one at which a move that mates was
/// found: they find a legal move that mates, with the score of a mate in one.
pub proof fn lemma_deepen(
    m: PositionModel,
    so_far: crate::search_model::Deepened,
    done: u32,
    depth: u32,
)
    requires
        1 <= done <= depth,
        holds_mate(so_far.table, m, done),
        m.legal(so_far.best_move),
        mates(m, so_far.best_move),
        so_far.best_score == Value::of_raw(Value::mate_score(1)),
    ensures
        ({
            let found = crate::search_model::deepen(m, so_far, done, depth, None);
            &&& m.legal(found.best_move)
            &&& mates(m, found.best_move)
            &&& found.best_score == Value::of_raw(Value::mate_score(1))
        }),
    decreases depth - done,
{
    if done < depth {
        let next = (done + 1) as u32;
        let st = SearchState { table: so_far.table, nodes: 0, terminating: false };
        lemma_deeper(m, st, done, next);
        let found = depth_search(m, so_far.table, next, None);
        assert(found.best.is_some());
        let after = crate::search_model::Deepened {
            best_move: found.best.unwrap().0,
            best_score: found.best.unwrap().1,
            nodes: crate::search_model::add_nodes(so_far.nodes, found.nodes),
            per_depth: so_far.per_depth.push(found.nodes),
            table: found.table,
        };
        lemma_deepen(m, after, next, depth);
    }
}

/// A search that starts with an empty table and is bounded by neither
/// time, nodes nor a stop flag finds a mate in one at every depth: where a
/// legal move leads to a position whose static score says that the side to
/// move there is mated, the best move of the search to any depth of one or
/// more is such a move, and its score is that of a mate in one.
pub proof fn lemma_mate_in_one(m: PositionModel, depth: u32)
    requires
        depth >= 1,
        exists|x: Move| m.legal(x) && #[trigger] mates(m, x),
    ensures
        ({
            let found = search_outcome(m, Map::empty(), depth, None);
            &&& m.legal(found.best_move)
            &&& mates(m, found.best_move)
            &&& found.best_score == Value::of_raw(Value::mate_score(1))
        }),
{
    lemma_first_depth(m);
    let first = depth_search(m, Map::empty(), 1, None);
    let start = crate::search_model::Deepened {
        best_move: Move::pack(0, 0, 0),
        best_score: Value::of_raw(Value::mated_score(0)),
        nodes: 0,
        per_depth: Seq::empty(),
        table: Map::empty(),
    };
    let after = crate::search_model::Deepened {
        best_move: first.best.unwrap().0,
        best_score: first.best.unwrap().1,
        nodes: crate::search_model::add_nodes(0, first.nodes),
        per_depth: Seq::<u64>::empty().push(first.nodes),
        table: first.table,
    };
    lemma_deepen(m, after, 1, depth);
    assert(crate::search_model::deepen(m, start, 0, depth, None) == crate::search_model::deepen(
        m,
        after,
        1,
        depth,
        None,
    ));
}

} // verus!
