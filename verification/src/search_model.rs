//! What a search finds, as a function of the position, of what the
//! transposition table holds and of the bounds of depth and nodes. A search
//! that is bounded by neither time nor a stop flag finds exactly this; so two
//! such searches of the same position with equal tables find the same.

use crate::eval::evaluation;
use crate::model::PositionModel;
use crate::move_order::{order_key, piece_count, sort_by_key};
use crate::movegen::legal_list;
use crate::moves::Move;
use crate::search::probe;
use crate::table::{lookup, takes_all, NodeKind, TableEntry};
use crate::types::Color;
use crate::value::Value;
use vstd::prelude::*;

verus! {

/// What a search carries along: the table, the count of evaluated
/// positions, and whether the search has found that it must end.
pub struct SearchState {
    pub table: Map<u64, TableEntry>,
    pub nodes: u64,
    pub terminating: bool,
}

/// A score and the state in which the search found it.
pub struct Found {
    pub value: Value,
    pub state: SearchState,
}

/// The score seen from the other side.
pub open spec fn negate(v: Value) -> Value {
    Value::of_raw(-v.raw())
}

/// The score seen from one ply earlier.
pub open spec fn age(v: Value) -> Value {
    Value::of_raw(v.stepped())
}

/// The state after the check whether the search may go on: once the count
/// of evaluated positions exceeds the limit, it must end, and stays so.
pub open spec fn check(st: SearchState, limit: Option<u64>) -> SearchState {
    if !st.terminating && limit.is_some() && st.nodes > limit.unwrap() {
        SearchState { terminating: true, ..st }
    } else {
        st
    }
}

/// The state with an entry put into the table for the position.
pub open spec fn record(st: SearchState, m: PositionModel, best_move: Option<Move>, depth: u32, node: NodeKind)
    -> SearchState {
    SearchState {
        table: st.table.insert(
            m.zobrist(),
            TableEntry { zobrist_key: m.zobrist(), best_move, depth, node },
        ),
        ..st
    }
}

/// The state with an `All` entry put into the table for the position, if the table takes it.
pub open spec fn record_fail_low(st: SearchState, m: PositionModel, depth: u32, value: Value)
    -> SearchState {
    if takes_all(st.table, m.zobrist(), depth) {
        record(st, m, None, depth, NodeKind::All(value))
    } else {
        st
    }
}

/// The static score of the position for the side to move.
pub open spec fn stand_pat(m: PositionModel) -> Value {
    Value::of_raw(
        if m.side == Color::Black {
            -evaluation(m)
        } else {
            evaluation(m)
        },
    )
}

/// The legal captures of the position, in the order of generation.
pub open spec fn capture_list(m: PositionModel) -> Seq<Move> {
    legal_list(m).filter(crate::search::captures_only())
}

/// The legal captures of the position, ordered as the moves of a search
/// are: the most promising first.
pub open spec fn ordered_captures(m: PositionModel) -> Seq<Move> {
    sort_by_key(capture_list(m), |mv: Move| order_key(m, mv))
}

/// The quiescence search of the position within the window from `alpha` to `beta`.
pub open spec fn quiesce_value(
    m: PositionModel,
    st: SearchState,
    alpha: Value,
    beta: Value,
    limit: Option<u64>,
) -> Found
    decreases piece_count(m), 1nat, 0nat,
{
    let counted = SearchState {
        nodes: if st.nodes < u64::MAX {
            (st.nodes + 1) as u64
        } else {
            st.nodes
        },
        ..st
    };
    let pat = stand_pat(m);
    if pat.raw() >= beta.raw() {
        Found { value: beta, state: counted }
    } else if capture_list(m).len() == 0 {
        Found { value: pat, state: counted }
    } else {
        quiesce_captures(
            m,
            counted,
            ordered_captures(m),
            0,
            if alpha.raw() < pat.raw() {
                pat
            } else {
                alpha
            },
            beta,
            limit,
        )
    }
}

/// The quiescence search of the captures from capture `k` on.
pub open spec fn quiesce_captures(
    m: PositionModel,
    st: SearchState,
    captures: Seq<Move>,
    k: int,
    alpha: Value,
    beta: Value,
    limit: Option<u64>,
) -> Found
    decreases piece_count(m), 0nat, captures.len() - k,
{
    if k < 0 || k >= captures.len() {
        Found { value: alpha, state: st }
    } else {
        let checked = check(st, limit);
        let child = m.after_make(captures[k]);
        if checked.terminating || piece_count(child) >= piece_count(m) {
            Found { value: alpha, state: checked }
        } else {
            let below = quiesce_value(child, checked, negate(beta), negate(alpha), limit);
            let value = negate(below.value);
            if value.raw() >= beta.raw() {
                Found { value: beta, state: below.state }
            } else {
                quiesce_captures(
                    m,
                    below.state,
                    captures,
                    k + 1,
                    if value.raw() >= alpha.raw() {
                        value
                    } else {
                        alpha
                    },
                    beta,
                    limit,
                )
            }
        }
    }
}

/// The move that the table names for the position, if it is legal there.
pub open spec fn hash_move_of(m: PositionModel, st: SearchState) -> Option<Move> {
    match lookup(st.table, m.zobrist()) {
        Some(entry) => match entry.best_move {
            Some(mv) => if m.legal(mv) {
                Some(mv)
            } else {
                None
            },
            None => None,
        },
        None => None,
    }
}

/// The value of one move for the side to move: the negative of what the
/// search finds for the other side in the position after it.
pub open spec fn move_value(
    m: PositionModel,
    st: SearchState,
    mv: Move,
    alpha: Value,
    beta: Value,
    depth: u32,
    limit: Option<u64>,
) -> Found
    decreases depth, 0nat, 0nat,
{
    if depth == 0 {
        Found { value: alpha, state: st }
    } else {
        let below = alpha_beta_value(
            m.after_make(mv),
            st,
            negate(beta),
            negate(alpha),
            (depth - 1) as u32,
            limit,
        );
        Found { value: negate(below.value), state: below.state }
    }
}

/// What the search of one move does to the search of its position.
pub struct Tried {
    /// Whether the move's value reached `beta`, which ends the search of the position.
    pub cut: bool,
    /// Whether the move's value exceeded `alpha`.
    pub raised: bool,
    /// The lower bound to go on with.
    pub alpha: Value,
    /// The state after the search of the move.
    pub state: SearchState,
}

/// The search of one move of the position: a value that reaches `beta` is
/// recorded as a cut and ends the search of the position; one that exceeds
/// `alpha` is recorded as the best so far and becomes the lower bound.
pub open spec fn try_move(
    m: PositionModel,
    st: SearchState,
    mv: Move,
    alpha: Value,
    beta: Value,
    depth: u32,
    limit: Option<u64>,
) -> Tried
    decreases depth, 1nat, 0nat,
{
    let found = move_value(m, st, mv, alpha, beta, depth, limit);
    if found.value.raw() >= beta.raw() {
        Tried {
            cut: true,
            raised: false,
            alpha,
            state: record(found.state, m, Some(mv), depth, NodeKind::Cut(found.value)),
        }
    } else if found.value.raw() > alpha.raw() {
        Tried {
            cut: false,
            raised: true,
            alpha: found.value,
            state: record(found.state, m, Some(mv), depth, NodeKind::PV(found.value)),
        }
    } else {
        Tried { cut: false, raised: false, alpha, state: found.state }
    }
}

/// The alpha-beta search of the position to the given depth within the
/// window from `alpha` to `beta`: the end of the search, the quiescence
/// search at depth zero, what the table settles, the move from the table, and
/// then the legal moves in their order.
pub open spec fn alpha_beta_value(
    m: PositionModel,
    st: SearchState,
    alpha: Value,
    beta: Value,
    depth: u32,
    limit: Option<u64>,
) -> Found
    decreases depth, 4nat, 0nat,
{
    let checked = check(st, limit);
    if checked.terminating {
        Found { value: alpha, state: checked }
    } else if depth == 0 {
        quiesce_value(m, checked, alpha, beta, limit)
    } else {
        let hash_move = hash_move_of(m, checked);
        let probed = probe(
            lookup(checked.table, m.zobrist()),
            hash_move.is_some(),
            alpha,
            beta,
            depth,
        );
        if probed.cutoff.is_some() {
            Found { value: probed.cutoff.unwrap(), state: checked }
        } else if hash_move.is_some() {
            let first = try_move(m, checked, hash_move.unwrap(), probed.alpha, beta, depth, limit);
            if first.cut {
                Found { value: age(beta), state: first.state }
            } else {
                after_hash_move(
                    m,
                    first.state,
                    first.alpha,
                    beta,
                    depth,
                    first.raised,
                    hash_move,
                    limit,
                )
            }
        } else {
            after_hash_move(m, checked, probed.alpha, beta, depth, false, hash_move, limit)
        }
    }
}

/// The search of the position once the move from the table is dealt
/// with. Where the side to move has no legal move, the value is that of
/// being mated at once if it is in check and zero if it is not, recorded with
/// the null move; it is not aged.
pub open spec fn after_hash_move(
    m: PositionModel,
    st: SearchState,
    alpha: Value,
    beta: Value,
    depth: u32,
    improved: bool,
    hash_move: Option<Move>,
    limit: Option<u64>,
) -> Found
    decreases depth, 3nat, 0nat,
{
    if legal_list(m).len() == 0 {
        let value = Value::of_raw(
            if m.in_check(m.side) {
                Value::mated_score(0)
            } else {
                0
            },
        );
        Found {
            value,
            state: record(st, m, Some(Move::pack(0, 0, 0)), depth, NodeKind::PV(value)),
        }
    } else {
        search_moves(
            m,
            st,
            sort_by_key(legal_list(m), |mv: Move| order_key(m, mv)),
            0,
            alpha,
            beta,
            depth,
            improved,
            hash_move,
            limit,
        )
    }
}

/// The search of the ordered moves from move `k` on.
pub open spec fn search_moves(
    m: PositionModel,
    st: SearchState,
    moves: Seq<Move>,
    k: int,
    alpha: Value,
    beta: Value,
    depth: u32,
    improved: bool,
    hash_move: Option<Move>,
    limit: Option<u64>,
) -> Found
    decreases depth, 2nat, moves.len() - k,
{
    if k < 0 || k >= moves.len() {
        Found {
            value: age(alpha),
            state: if improved {
                st
            } else {
                record_fail_low(st, m, depth, alpha)
            },
        }
    } else if hash_move == Some(moves[k]) {
        search_moves(m, st, moves, k + 1, alpha, beta, depth, improved, hash_move, limit)
    } else {
        let tried = try_move(m, st, moves[k], alpha, beta, depth, limit);
        if tried.cut {
            Found { value: age(beta), state: tried.state }
        } else {
            search_moves(
                m,
                tried.state,
                moves,
                k + 1,
                tried.alpha,
                beta,
                depth,
                improved || tried.raised,
                hash_move,
                limit,
            )
        }
    }
}

/// What the search to one depth finds.
pub struct DepthFound {
    /// The best move and its score, if the search was completed and the
    /// table holds a legal best move for the position.
    pub best: Option<(Move, Value)>,
    /// The table after the search.
    pub table: Map<u64, TableEntry>,
    /// How many positions the search evaluated.
    pub nodes: u64,
}

/// The search of the position to one depth, with the widest window.
pub open spec fn depth_search(
    m: PositionModel,
    table: Map<u64, TableEntry>,
    depth: u32,
    limit: Option<u64>,
) -> DepthFound {
    let found = alpha_beta_value(
        m,
        SearchState { table, nodes: 0, terminating: false },
        Value::of_raw(Value::mated_score(0)),
        Value::of_raw(Value::mate_score(0)),
        depth,
        limit,
    );
    let checked = check(found.state, limit);
    DepthFound {
        best: if checked.terminating {
            None
        } else {
            match hash_move_of(m, checked) {
                Some(mv) => Some((mv, found.value)),
                None => None,
            }
        },
        table: checked.table,
        nodes: checked.nodes,
    }
}

/// What the search with iterative deepening finds.
pub struct Deepened {
    /// The best move of the last depth that was completed.
    pub best_move: Move,
    /// Its score.
    pub best_score: Value,
    /// How many positions were evaluated at the depths that were completed.
    pub nodes: u64,
    /// How many positions were evaluated at each depth that was completed.
    pub per_depth: Seq<u64>,
    /// The table after the search.
    pub table: Map<u64, TableEntry>,
}

/// The count of nodes with more nodes added, up to the greatest count.
pub open spec fn add_nodes(count: u64, more: u64) -> u64 {
    if count + more <= u64::MAX {
        (count + more) as u64
    } else {
        u64::MAX
    }
}

/// What is left of a limit of nodes after some nodes.
pub open spec fn nodes_left(limit: Option<u64>, count: u64) -> Option<u64> {
    match limit {
        Some(l) => Some(
            if l >= count {
                (l - count) as u64
            } else {
                0u64
            },
        ),
        None => None,
    }
}

/// The search with iterative deepening from the depth after `done` up to
/// `depth`, where `so_far` is what the depths up to `done` found.
pub open spec fn deepen(
    m: PositionModel,
    so_far: Deepened,
    done: u32,
    depth: u32,
    limit: Option<u64>,
) -> Deepened
    decreases depth - done,
{
    if done >= depth {
        so_far
    } else {
        let next = (done + 1) as u32;
        let found = depth_search(m, so_far.table, next, nodes_left(limit, so_far.nodes));
        deepen(
            m,
            match found.best {
                Some((mv, score)) => Deepened {
                    best_move: mv,
                    best_score: score,
                    nodes: add_nodes(so_far.nodes, found.nodes),
                    per_depth: so_far.per_depth.push(found.nodes),
                    table: found.table,
                },
                None => Deepened { table: found.table, ..so_far },
            },
            next,
            depth,
            limit,
        )
    }
}

/// What a search of the position to the given depth finds that is bounded
/// by neither time nor a stop flag.
pub open spec fn search_outcome(
    m: PositionModel,
    table: Map<u64, TableEntry>,
    depth: u32,
    limit: Option<u64>,
) -> Deepened {
    deepen(
        m,
        Deepened {
            best_move: Move::pack(0, 0, 0),
            best_score: Value::of_raw(Value::mated_score(0)),
            nodes: 0,
            per_depth: Seq::empty(),
            table,
        },
        0,
        depth,
        limit,
    )
}

} // verus!
