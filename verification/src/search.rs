//! Search: iterative deepening over an alpha-beta search with a
//! transposition table, which ends in a quiescence search of the captures.

use crate::eval::evaluate;
use crate::model::PositionModel;
use crate::move_order::{order_moves, piece_count};
use crate::movegen::legal_moves;
use crate::moves::Move;
use crate::position::Position;
use crate::search_model::{
    add_nodes, after_hash_move, alpha_beta_value, capture_list, deepen, depth_search, move_value,
    nodes_left, ordered_captures,
    quiesce_captures, quiesce_value, search_moves, search_outcome, try_move, Deepened, Found,
    SearchState, Tried, stand_pat,
};
use crate::squareset::{count_where, lemma_count_where_one_more, lemma_count_where_same};
use crate::table::{NodeKind, Table, TableEntry};
use crate::types::Color;
use crate::uci::SearchRequest;
use crate::value::Value;
use core::sync::atomic::AtomicBool;
use core::time::Duration;
use std::time::Instant;
use vstd::prelude::*;

verus! {

/// A point in time of the standard library's monotonic clock.
#[verifier::external_type_specification]
#[verifier::external_body]
pub struct ExInstant(Instant);

/// `Instant::now`: the present time. Nothing is known of it.
#[verifier::external_body]
fn clock_now() -> (now: Instant) {
    Instant::now()
}

/// `Instant::elapsed`: the time that has passed since `start`. Nothing is known of it.
#[verifier::external_body]
fn clock_elapsed(start: &Instant) -> (elapsed: Duration) {
    start.elapsed()
}

/// The comparison of two durations of the standard library: whether the
/// first is longer than the second.
#[verifier::external_body]
fn is_longer(duration: &Duration, than: &Duration) -> (r: bool) {
    *duration > *than
}

/// Whether the flag is set.
fn flag_is_set(flag: &AtomicBool) -> (r: bool) {
    flag.load(core::sync::atomic::Ordering::Acquire)
}

/// Whether a search may go on, where the clock and the stop flag have
/// been asked: not once it has found that it must end, nor when its time is
/// over, nor when it has evaluated more positions than its limit allows, nor
/// when the stop flag is set.
pub fn may_go_on(
    ending: bool,
    out_of_time: bool,
    nodes: u64,
    node_limit: Option<u64>,
    stopped: bool,
) -> (r: bool)
    ensures
        r == !(ending || out_of_time || stopped || (node_limit.is_some() && nodes
            > node_limit.unwrap())),
{
    if ending || out_of_time || stopped {
        return false;
    }
    match node_limit {
        Some(limit) => nodes <= limit,
        None => true,
    }
}

/// What bounds a search.
#[derive(Default, Debug)]
pub struct SearchOptions<'a> {
    /// The longest time to search for.
    pub time_limit: Option<Duration>,
    /// The largest number of positions to evaluate.
    pub node_limit: Option<u64>,
    /// A flag that ends the search as soon as it is set.
    pub hard_stop: Option<&'a AtomicBool>,
    /// The greatest depth to search to.
    pub depth: u32,
}

/// Counts of the work that a search did.
#[derive(Clone, Debug, Default)]
pub struct SearchStats {
    /// How many positions were evaluated.
    pub nodes_evaluated: u64,
    /// How many positions were evaluated at each depth that was completed.
    pub nodes_evaluated_per_depth: Vec<u64>,
}

/// What a search found.
#[derive(Clone, Debug)]
pub struct SearchResult {
    /// The best move; the null move where no depth was completed.
    pub best_move: Move,
    /// The score of the best move, for the side to move.
    pub best_score: Value,
    /// Counts of the work done.
    pub stats: SearchStats,
}

/// What the search does with what the table holds for a position.
pub struct Probe {
    /// The move to search first, if the table gave one.
    pub hash_move: Option<Move>,
    /// The value to return at once, if the table settles the search.
    pub cutoff: Option<Value>,
    /// The lower bound to go on with.
    pub alpha: Value,
}

/// What the search does with what the table holds for a position, in
/// specifications. An entry searched less deeply than is asked for, or one
/// whose move is not legal, only names the move to search first. Else a `PV`
/// entry settles the search with its value, aged by one ply; a `Cut` entry
/// settles it if its value reaches `beta`, and else raises `alpha` to its
/// value; an `All` entry settles it with `alpha`, aged, if its value does not
/// exceed `alpha`.
pub open spec fn probe(
    entry: Option<TableEntry>,
    move_is_legal: bool,
    alpha: Value,
    beta: Value,
    depth: u32,
) -> Probe {
    match entry {
        None => Probe { hash_move: None, cutoff: None, alpha },
        Some(e) => if e.depth >= depth && (e.best_move.is_none() || move_is_legal) {
            match e.node {
                NodeKind::PV(value) => Probe {
                    hash_move: e.best_move,
                    cutoff: Some(Value::of_raw(value.stepped())),
                    alpha,
                },
                NodeKind::Cut(value) => if value.raw() >= beta.raw() {
                    Probe {
                        hash_move: e.best_move,
                        cutoff: Some(Value::of_raw(value.stepped())),
                        alpha,
                    }
                } else if value.raw() >= alpha.raw() {
                    Probe { hash_move: e.best_move, cutoff: None, alpha: value }
                } else {
                    Probe { hash_move: e.best_move, cutoff: None, alpha }
                },
                NodeKind::All(value) => if value.raw() <= alpha.raw() {
                    Probe {
                        hash_move: e.best_move,
                        cutoff: Some(Value::of_raw(alpha.stepped())),
                        alpha,
                    }
                } else {
                    Probe { hash_move: e.best_move, cutoff: None, alpha }
                },
            }
        } else {
            Probe { hash_move: e.best_move, cutoff: None, alpha }
        },
    }
}

/// What the search does with what the table holds for a position.
pub fn consider_transposition(
    entry: Option<TableEntry>,
    move_is_legal: bool,
    alpha: Value,
    beta: Value,
    depth: u32,
) -> (r: Probe)
    ensures
        r == probe(entry, move_is_legal, alpha, beta, depth),
{
    broadcast use Value::lemma_raw_of;

    let e = match entry {
        Some(e) => e,
        None => {
            return Probe { hash_move: None, cutoff: None, alpha };
        },
    };
    let hash_move = e.best_move();
    if e.depth() >= depth && (hash_move.is_none() || move_is_legal) {
        match e.kind() {
            NodeKind::PV(value) => {
                return Probe { hash_move, cutoff: Some(value.step()), alpha };
            },
            NodeKind::Cut(value) => {
                if value >= beta {
                    return Probe { hash_move, cutoff: Some(value.step()), alpha };
                }
                if value >= alpha {
                    return Probe { hash_move, cutoff: None, alpha: value };
                }
            },
            NodeKind::All(value) => {
                if value <= alpha {
                    return Probe { hash_move, cutoff: Some(alpha.step()), alpha };
                }
            },
        }
    }
    Probe { hash_move, cutoff: None, alpha }
}

/// The value of a position without a legal move, for the side to move:
/// mated where its king is in check, drawn where it is not.
pub fn value_without_moves(in_check: bool) -> (v: Value)
    ensures
        v == Value::of_raw(
            if in_check {
                Value::mated_score(0)
            } else {
                0
            },
        ),
{
    if in_check {
        Value::mated_in(0)
    } else {
        Value::new(0)
    }
}

/// The predicate that holds of the captures.
pub open spec fn captures_only() -> spec_fn(Move) -> bool {
    |x: Move| x.captures()
}

/// The static score of the position for the side to move.
pub fn stand_pat_value(pos: &Position) -> (v: Value)
    requires
        pos.wf(),
    ensures
        v == stand_pat(pos@),
{
    broadcast use Value::lemma_raw_of;

    let value = evaluate(pos);
    if pos.side_to_move() == Color::Black {
        value.negated()
    } else {
        value
    }
}

/// The number that takes the place of `i` when `a` and `b` change places.
pub open spec fn swap_index(i: int, a: int, b: int) -> int {
    if i == a {
        b
    } else if i == b {
        a
    } else {
        i
    }
}

/// Counting is the same when two numbers change places.
pub proof fn lemma_count_swap(p: spec_fn(int) -> bool, a: int, b: int, n: int)
    requires
        0 <= a < n,
        0 <= b < n,
    ensures
        count_where(|i: int| p(swap_index(i, a, b)), n) == count_where(p, n),
{
    let q = |i: int| p(swap_index(i, a, b));
    if a == b || p(a) == p(b) {
        lemma_count_where_same(q, p, n);
    } else {
        // One of the two holds: take it out of both counts.
        let x = if p(a) {
            a
        } else {
            b
        };
        let y = if p(a) {
            b
        } else {
            a
        };
        let neither = |i: int| p(i) && i != x;
        lemma_count_where_one_more(p, neither, x, n);
        lemma_count_where_one_more(q, neither, y, n);
    }
}

/// A capture that can be made leaves one piece less on the board.
pub proof fn lemma_capture_shrinks(m: PositionModel, mv: Move)
    requires
        m.wf(),
        m.can_make(mv),
        mv.raw() != 0,
        mv.captures(),
    ensures
        piece_count(m.after_make(mv)) + 1 == piece_count(m),
{
    mv.lemma_parts();
    m.lemma_stages(mv);
    let child = m.after_make(mv);
    let cap = m.capture_square(mv);
    let before = |i: int| m.occupied(i);
    let after = |i: int| child.occupied(i);
    if mv.flags() == 5 {
        // The pawn behind the en-passant square leaves, and the capturing
        // pawn changes its square for a free one.
        let moved = |i: int| after(swap_index(i, mv.src(), mv.dst()));
        let kept = |i: int| m.occupied(i) && i != cap;
        lemma_count_where_one_more(before, kept, cap, 64);
        lemma_count_where_same(kept, moved, 64);
        lemma_count_swap(after, mv.src(), mv.dst(), 64);
    } else {
        lemma_count_where_one_more(before, after, mv.src(), 64);
    }
}

/// The state of one search to one depth.
struct Searcher<'a> {
    /// When the search began.
    search_start_time: Instant,
    /// How many positions the search has evaluated.
    nodes_evaluated: u64,
    /// The longest time to search for.
    time_limit: Option<Duration>,
    /// The largest number of positions to evaluate.
    node_limit: Option<u64>,
    /// A flag that ends the search as soon as it is set.
    hard_stop: Option<&'a AtomicBool>,
    /// Whether the search has found that it must end.
    terminating: bool,
}

impl<'a> Searcher<'a> {
    /// Whether the search is bounded by neither time nor a stop flag.
    spec fn timeless(&self) -> bool {
        self.time_limit.is_none() && self.hard_stop.is_none()
    }

    /// The largest number of positions to evaluate.
    spec fn limit(&self) -> Option<u64> {
        self.node_limit
    }

    /// Whether the search has found that it must end.
    spec fn ending(&self) -> bool {
        self.terminating
    }

    /// What the search carries along, with the given table.
    spec fn state(&self, table: Map<u64, TableEntry>) -> SearchState {
        SearchState { table, nodes: self.nodes_evaluated, terminating: self.terminating }
    }

    /// A search that starts now.
    fn new(time_limit: Option<Duration>, node_limit: Option<u64>, hard_stop: Option<&'a AtomicBool>)
        -> (s: Searcher<'a>)
        ensures
            !s.ending(),
            s.nodes_evaluated == 0,
            s.limit() == node_limit,
            s.timeless() == (time_limit.is_none() && hard_stop.is_none()),
    {
        Searcher {
            search_start_time: clock_now(),
            nodes_evaluated: 0,
            time_limit,
            node_limit,
            hard_stop,
            terminating: false,
        }
    }

    /// Whether the search may go on: asks the clock and the stop flag, and
    /// decides as `may_go_on` says. Once it may not, it never may again.
    fn can_continue_search(&mut self) -> (r: bool)
        ensures
            r == !final(self).ending(),
            old(self).ending() ==> !r,
            final(self).nodes_evaluated == old(self).nodes_evaluated,
            final(self).limit() == old(self).limit(),
            final(self).timeless() == old(self).timeless(),
            old(self).timeless() ==> final(self).ending() == (old(self).ending() || (old(
                self,
            ).limit().is_some() && old(self).nodes_evaluated > old(self).limit().unwrap())),
            !old(self).ending() && old(self).limit().is_some() && old(self).nodes_evaluated > old(
                self,
            ).limit().unwrap() ==> !r,
    {
        let out_of_time = match &self.time_limit {
            Some(limit) => {
                let elapsed = clock_elapsed(&self.search_start_time);
                is_longer(&elapsed, limit)
            },
            None => false,
        };
        let stopped = match self.hard_stop {
            Some(flag) => flag_is_set(flag),
            None => false,
        };
        let go = may_go_on(
            self.terminating,
            out_of_time,
            self.nodes_evaluated,
            self.node_limit,
            stopped,
        );
        if !go {
            self.terminating = true;
        }
        go
    }

    /// Searches the position to the given depth. Gives the best move and
    /// its score, unless the search had to end early or the table no longer
    /// holds a legal best move for the position.
    fn search(&mut self, table: &mut Table, pos: &Position, depth: u32) -> (r: Option<(Move, Value)>)
        requires
            pos.wf(),
            !old(self).ending(),
            old(self).nodes_evaluated == 0,
        ensures
            r.is_some() ==> pos@.legal(r.unwrap().0),
            r.is_some() ==> !final(self).ending(),
            final(self).limit() == old(self).limit(),
            old(self).timeless() ==> ({
                let found = depth_search(pos@, old(table)@, depth, old(self).limit());
                &&& r == found.best
                &&& final(table)@ == found.table
                &&& final(self).nodes_evaluated == found.nodes
            }),
    {
        broadcast use Value::lemma_raw_of;

        let alpha = Value::mated_in(0);
        let beta = Value::mate_in(0);
        let score = self.alpha_beta(table, pos, alpha, beta, depth);
        // A search that was cut short has nothing to say.
        if !self.can_continue_search() {
            return None;
        }
        let best_move = match table.query(pos) {
            Some(entry) => entry.best_move(),
            None => None,
        };
        match best_move {
            Some(mov) => {
                if pos.is_legal(mov) {
                    Some((mov, score))
                } else {
                    None
                }
            },
            None => None,
        }
    }

    /// Searches one move from the position and gives its value for the side to move there.
    fn search_move(
        &mut self,
        table: &mut Table,
        pos: &Position,
        mov: Move,
        alpha: Value,
        beta: Value,
        depth: u32,
    ) -> (value: Value)
        requires
            pos.wf(),
            pos@.legal(mov),
            depth > 0,
        ensures
            final(self).limit() == old(self).limit(),
            final(self).timeless() == old(self).timeless(),
            old(self).timeless() ==> (Found {
                value,
                state: final(self).state(final(table)@),
            }) == move_value(
                pos@,
                old(self).state(old(table)@),
                mov,
                alpha,
                beta,
                depth,
                old(self).limit(),
            ),
        decreases depth, 0nat,
    {
        broadcast use Value::lemma_raw_of;

        proof {
            pos.lemma_wf_model();
            pos@.lemma_pseudo_legal_can_make(mov);
        }
        let child = pos.clone_and_make_move(mov);
        self.alpha_beta(table, &child, beta.negated(), alpha.negated(), depth - 1).negated()
    }

    /// Searches one move of the position. A value that reaches `beta` is
    /// recorded as a cut; one that exceeds `alpha` is recorded as the best so
    /// far and becomes the lower bound.
    fn try_move(
        &mut self,
        table: &mut Table,
        pos: &Position,
        mov: Move,
        alpha: Value,
        beta: Value,
        depth: u32,
    ) -> (r: Step)
        requires
            pos.wf(),
            pos@.legal(mov),
            depth > 0,
        ensures
            final(self).limit() == old(self).limit(),
            final(self).timeless() == old(self).timeless(),
            old(self).timeless() ==> (Tried {
                cut: r.cut,
                raised: r.raised,
                alpha: r.alpha,
                state: final(self).state(final(table)@),
            }) == try_move(
                pos@,
                old(self).state(old(table)@),
                mov,
                alpha,
                beta,
                depth,
                old(self).limit(),
            ),
        decreases depth, 1nat,
    {
        broadcast use Value::lemma_raw_of;

        proof {
            pos.lemma_wf_model();
            pos@.lemma_pseudo_legal_can_make(mov);
        }
        let value = self.search_move(table, pos, mov, alpha, beta, depth);
        if value >= beta {
            table.record_cut(pos, mov, depth, value);
            Step { cut: true, raised: false, alpha }
        } else if value > alpha {
            table.record_pv(pos, mov, depth, value);
            Step { cut: false, raised: true, alpha: value }
        } else {
            Step { cut: false, raised: false, alpha }
        }
    }

    /// The alpha-beta search of the position to the given depth, within
    /// the window from `alpha` to `beta`: the value of the position for the
    /// side to move, as far as it lies in the window.
    fn alpha_beta(
        &mut self,
        table: &mut Table,
        pos: &Position,
        alpha: Value,
        beta: Value,
        depth: u32,
    ) -> (value: Value)
        requires
            pos.wf(),
        ensures
            final(self).limit() == old(self).limit(),
            final(self).timeless() == old(self).timeless(),
            old(self).timeless() ==> (Found {
                value,
                state: final(self).state(final(table)@),
            }) == alpha_beta_value(
                pos@,
                old(self).state(old(table)@),
                alpha,
                beta,
                depth,
                old(self).limit(),
            ),
        decreases depth, 3nat,
    {
        broadcast use Value::lemma_raw_of;

        // The search ends where time, nodes or the flag say so.
        if !self.can_continue_search() {
            return alpha;
        }
        if depth == 0 {
            return self.quiesce(table, pos, alpha, beta);
        }
        // Has the table seen the position, and does that settle the search?
        let entry = table.query(pos);
        let stored_move_is_legal = match entry {
            Some(e) => match e.best_move() {
                Some(mov) => pos.is_legal(mov),
                None => false,
            },
            None => false,
        };
        let probed = consider_transposition(entry, stored_move_is_legal, alpha, beta, depth);
        match probed.cutoff {
            Some(cutoff) => {
                return cutoff;
            },
            None => {},
        }
        // The move from the table goes first, if it is legal here: the
        // table may hold it for another position with the same hash.
        let hash_move: Option<Move> = match probed.hash_move {
            Some(mov) => if stored_move_is_legal {
                Some(mov)
            } else {
                None
            },
            None => None,
        };
        match hash_move {
            Some(mov) => {
                let first = self.try_move(table, pos, mov, probed.alpha, beta, depth);
                if first.cut {
                    return beta.step();
                }
                self.search_rest(table, pos, first.alpha, beta, depth, first.raised, hash_move)
            },
            None => self.search_rest(table, pos, probed.alpha, beta, depth, false, hash_move),
        }
    }

    /// The search of the position once the move from the table is dealt
    /// with: the value of a position without a legal move, or the search of
    /// the legal moves in their order, but for the move from the table.
    fn search_rest(
        &mut self,
        table: &mut Table,
        pos: &Position,
        alpha: Value,
        beta: Value,
        depth: u32,
        improved: bool,
        hash_move: Option<Move>,
    ) -> (value: Value)
        requires
            pos.wf(),
            depth > 0,
        ensures
            final(self).limit() == old(self).limit(),
            final(self).timeless() == old(self).timeless(),
            old(self).timeless() ==> (Found {
                value,
                state: final(self).state(final(table)@),
            }) == after_hash_move(
                pos@,
                old(self).state(old(table)@),
                alpha,
                beta,
                depth,
                improved,
                hash_move,
                old(self).limit(),
            ),
        decreases depth, 2nat,
    {
        broadcast use Value::lemma_raw_of;

        let ghost goal = after_hash_move(
            pos@,
            self.state(table@),
            alpha,
            beta,
            depth,
            improved,
            hash_move,
            self.limit(),
        );
        let mut moves = legal_moves(pos);
        if moves.len() == 0 {
            let value = value_without_moves(pos.is_check(pos.side_to_move()));
            table.record_pv(pos, Move::null(), depth, value);
            return value;
        }
        // Good moves first: they cut the search short.
        let ghost legal = moves@;
        proof {
            pos.lemma_wf_model();
            assert forall|i: int| 0 <= i < moves.len() implies pos@.can_make(#[trigger] moves[i])
                && moves[i].raw() != 0 by {
                assert(moves@.contains(moves[i]));
                pos@.lemma_pseudo_legal_can_make(moves[i]);
            }
        }
        order_moves(pos, &mut moves);
        let mut best = alpha;
        let mut improved_alpha = improved;
        let mut k: usize = 0;
        while k < moves.len()
            invariant
                k <= moves.len(),
                pos.wf(),
                depth > 0,
                self.limit() == old(self).limit(),
                self.timeless() == old(self).timeless(),
                goal == after_hash_move(
                    pos@,
                    old(self).state(old(table)@),
                    alpha,
                    beta,
                    depth,
                    improved,
                    hash_move,
                    old(self).limit(),
                ),
                moves@.to_multiset() == legal.to_multiset(),
                forall|x: Move| #[trigger] legal.contains(x) <==> pos@.legal(x),
                self.timeless() ==> goal == search_moves(
                    pos@,
                    self.state(table@),
                    moves@,
                    k as int,
                    best,
                    beta,
                    depth,
                    improved_alpha,
                    hash_move,
                    self.limit(),
                ),
            decreases moves.len() - k,
        {
            let mov = moves[k];
            let skip = match hash_move {
                Some(first) => first == mov,
                None => false,
            };
            if !skip {
                proof {
                    broadcast use vstd::seq_lib::group_to_multiset_ensures;

                    assert(moves@.to_multiset().count(mov) > 0);
                    assert(legal.contains(mov));
                }
                let tried = self.try_move(table, pos, mov, best, beta, depth);
                if tried.cut {
                    return beta.step();
                }
                best = tried.alpha;
                improved_alpha = improved_alpha || tried.raised;
            }
            k += 1;
        }
        if !improved_alpha {
            table.record_all(pos, depth, best);
        }
        best.step()
    }

    /// The quiescence search: the static score of the position, bettered
    /// by the captures that better it, the most promising first, searched
    /// until no capture is left.
    fn quiesce(&mut self, table: &Table, pos: &Position, alpha: Value, beta: Value) -> (value: Value)
        requires
            pos.wf(),
        ensures
            final(self).limit() == old(self).limit(),
            final(self).timeless() == old(self).timeless(),
            old(self).timeless() ==> (Found {
                value,
                state: final(self).state(table@),
            }) == quiesce_value(pos@, old(self).state(table@), alpha, beta, old(self).limit()),
        decreases piece_count(pos@),
    {
        broadcast use Value::lemma_raw_of;

        let ghost goal = quiesce_value(pos@, self.state(table@), alpha, beta, self.limit());
        if self.nodes_evaluated < u64::MAX {
            self.nodes_evaluated += 1;
        }
        // The side to move need not capture: the static score is a lower bound.
        let stand_pat = stand_pat_value(pos);
        if stand_pat >= beta {
            return beta;
        }
        let mut best = if alpha < stand_pat {
            stand_pat
        } else {
            alpha
        };
        let mut captures = legal_captures(pos);
        if captures.len() == 0 {
            return stand_pat;
        }
        // The most promising captures first.
        let ghost found = captures@;
        proof {
            pos.lemma_wf_model();
            assert forall|i: int| 0 <= i < captures.len() implies pos@.can_make(
                #[trigger] captures[i],
            ) && captures[i].raw() != 0 by {
                pos@.lemma_pseudo_legal_can_make(captures[i]);
            }
        }
        order_moves(pos, &mut captures);
        proof {
            broadcast use vstd::seq_lib::group_to_multiset_ensures;

            assert forall|j: int| 0 <= j < captures.len() implies pos@.legal(
                #[trigger] captures[j],
            ) && captures[j].captures() by {
                let x = captures[j];
                assert(captures@.to_multiset().count(x) > 0);
                assert(found.contains(x));
                let i = choose|i: int| 0 <= i < found.len() && found[i] == x;
                assert(pos@.legal(found[i]) && found[i].captures());
            }
            assert(captures@ == ordered_captures(pos@));
        }
        let mut k: usize = 0;
        while k < captures.len()
            invariant
                k <= captures.len(),
                pos.wf(),
                self.limit() == old(self).limit(),
                self.timeless() == old(self).timeless(),
                goal == quiesce_value(
                    pos@,
                    old(self).state(table@),
                    alpha,
                    beta,
                    old(self).limit(),
                ),
                forall|j: int|
                    0 <= j < captures.len() ==> pos@.legal(#[trigger] captures[j])
                        && captures[j].captures(),
                self.timeless() ==> goal == quiesce_captures(
                    pos@,
                    self.state(table@),
                    captures@,
                    k as int,
                    best,
                    beta,
                    self.limit(),
                ),
            decreases captures.len() - k,
        {
            let capture = captures[k];
            proof {
                pos.lemma_wf_model();
                pos@.lemma_pseudo_legal_can_make(capture);
                lemma_capture_shrinks(pos@, capture);
            }
            if !self.can_continue_search() {
                return best;
            }
            let child = pos.clone_and_make_move(capture);
            let value = self.quiesce(table, &child, beta.negated(), best.negated()).negated();
            if value >= beta {
                return beta;
            }
            if value >= best {
                best = value;
            }
            k += 1;
        }
        best
    }
}

/// What the search of one move does to the search of its position.
struct Step {
    /// Whether the move's value reached `beta`.
    cut: bool,
    /// Whether the move's value exceeded `alpha`.
    raised: bool,
    /// The lower bound to go on with.
    alpha: Value,
}

/// The legal captures of the position, in the order of generation.
pub fn legal_captures(pos: &Position) -> (captures: Vec<Move>)
    requires
        pos.wf(),
    ensures
        captures@ == capture_list(pos@),
        forall|j: int|
            0 <= j < captures.len() ==> pos@.legal(#[trigger] captures[j]) && captures[j].captures(),
{
    let legal = legal_moves(pos);
    let mut captures: Vec<Move> = Vec::new();
    let mut i: usize = 0;
    assert(legal@.take(0) =~= Seq::<Move>::empty());
    while i < legal.len()
        invariant
            i <= legal.len(),
            forall|x: Move| #[trigger] legal@.contains(x) <==> pos@.legal(x),
            forall|j: int|
                0 <= j < captures.len() ==> pos@.legal(#[trigger] captures[j])
                    && captures[j].captures(),
            captures@ == legal@.take(i as int).filter(captures_only()),
        decreases legal.len() - i,
    {
        let mov = legal[i];
        assert(legal@.contains(mov));
        proof {
            assert(legal@.take(i + 1) =~= legal@.take(i as int).push(mov));
            legal@.take(i as int).lemma_filter_push(mov, captures_only());
        }
        if mov.is_capture() {
            captures.push(mov);
        }
        i += 1;
    }
    assert(legal@.take(i as int) =~= legal@);
    captures
}

/// What a search to one depth found.
#[derive(Copy, Clone, Debug)]
pub struct DepthResult {
    /// The best move, which is legal.
    pub best_move: Move,
    /// Its score, for the side to move.
    pub best_score: Value,
    /// How many positions were evaluated.
    pub nodes_evaluated: u64,
}

/// Searches the position to one depth, within the limits of the options.
/// Gives nothing where the search had to end early, or where the table does
/// not hold a legal best move for the position afterwards. A search that is
/// bounded by neither time nor a stop flag finds what `depth_search` says.
pub fn search_to_depth(pos: &Position, table: &mut Table, options: &SearchOptions, depth: u32) -> (r:
    Option<DepthResult>)
    requires
        pos.wf(),
    ensures
        r.is_some() ==> pos@.legal(r.unwrap().best_move),
        options.time_limit.is_none() && options.hard_stop.is_none() ==> ({
            let found = depth_search(pos@, old(table)@, depth, options.node_limit);
            &&& final(table)@ == found.table
            &&& match r {
                Some(result) => found.best == Some((result.best_move, result.best_score))
                    && result.nodes_evaluated == found.nodes,
                None => found.best.is_none(),
            }
        }),
{
    let mut searcher = Searcher::new(options.time_limit, options.node_limit, options.hard_stop);
    if !searcher.can_continue_search() {
        return None;
    }
    match searcher.search(table, pos, depth) {
        Some((best_move, best_score)) => Some(
            DepthResult { best_move, best_score, nodes_evaluated: searcher.nodes_evaluated },
        ),
        None => None,
    }
}

/// How far a search with iterative deepening has come, between two depths.
#[derive(Clone, Debug)]
pub struct Deepening {
    /// The last depth that was searched.
    pub depth: u32,
    /// The best move of the last depth that was completed; the null move
    /// where none was.
    pub best_move: Move,
    /// The score of the best move, for the side to move.
    pub best_score: Value,
    /// Counts of the work done at the depths that were completed.
    pub stats: SearchStats,
}

impl Deepening {
    /// Whether no more depths were completed than were searched.
    pub open spec fn wf(&self) -> bool {
        self.stats.nodes_evaluated_per_depth.len() <= self.depth
    }

    /// What the search has found so far, with the given table.
    pub open spec fn found(&self, table: Map<u64, TableEntry>) -> Deepened {
        Deepened {
            best_move: self.best_move,
            best_score: self.best_score,
            nodes: self.stats.nodes_evaluated,
            per_depth: self.stats.nodes_evaluated_per_depth@,
            table,
        }
    }

    /// A search that has not searched any depth yet.
    pub fn new() -> (d: Deepening)
        ensures
            d.wf(),
            d.depth == 0,
            d.best_move == Move::pack(0, 0, 0),
            d.best_move.raw() == 0,
            d.best_score == Value::of_raw(Value::mated_score(0)),
            d.best_score.raw() == Value::mated_score(0),
            d.stats.nodes_evaluated == 0,
            d.stats.nodes_evaluated_per_depth@ == Seq::<u64>::empty(),
    {
        Deepening {
            depth: 0,
            best_move: Move::null(),
            best_score: Value::mated_in(0),
            stats: SearchStats { nodes_evaluated: 0, nodes_evaluated_per_depth: Vec::new() },
        }
    }

    /// What bounds the search of the next depth, after the given time: the
    /// depth after the last, the time that is left and the nodes that are
    /// left. Nothing once the greatest depth is searched or the time is over.
    /// The time is compared and taken off, and `plan_search` decides.
    pub fn next_search<'a>(&self, options: &SearchOptions<'a>, elapsed: &Duration) -> (r: Option<
        SearchOptions<'a>,
    >)
        ensures
            self.depth >= options.depth ==> r.is_none(),
            options.time_limit.is_none() && self.depth < options.depth ==> r.is_some(),
            r.is_some() ==> {
                &&& self.depth < options.depth
                &&& r.unwrap().depth == self.depth + 1
                &&& r.unwrap().node_limit == nodes_left(
                    options.node_limit,
                    self.stats.nodes_evaluated,
                )
                &&& r.unwrap().hard_stop == options.hard_stop
                &&& r.unwrap().time_limit.is_none() == options.time_limit.is_none()
            },
    {
        match &options.time_limit {
            Some(limit) => {
                let out_of_time = is_longer(elapsed, limit);
                self.plan_search(options, out_of_time, Some(saturating_sub(limit, elapsed)))
            },
            None => self.plan_search(options, false, None),
        }
    }

    /// What bounds the search of the next depth, where the clock has said
    /// whether the time is over and how much of it is left: nothing once the
    /// greatest depth is searched or the time is over; else the depth after
    /// the last, the time that is left, the nodes that are left of the limit,
    /// and the stop flag.
    pub fn plan_search<'a>(
        &self,
        options: &SearchOptions<'a>,
        out_of_time: bool,
        time_left: Option<Duration>,
    ) -> (r: Option<SearchOptions<'a>>)
        ensures
            r.is_some() == (self.depth < options.depth && !out_of_time),
            r.is_some() ==> {
                &&& r.unwrap().depth == self.depth + 1
                &&& r.unwrap().time_limit == time_left
                &&& r.unwrap().node_limit == nodes_left(
                    options.node_limit,
                    self.stats.nodes_evaluated,
                )
                &&& r.unwrap().hard_stop == options.hard_stop
            },
    {
        if self.depth >= options.depth || out_of_time {
            return None;
        }
        let node_limit: Option<u64> = match options.node_limit {
            Some(limit) => Some(
                if limit >= self.stats.nodes_evaluated {
                    limit - self.stats.nodes_evaluated
                } else {
                    0
                },
            ),
            None => None,
        };
        Some(
            SearchOptions {
                time_limit: time_left,
                node_limit,
                hard_stop: options.hard_stop,
                depth: self.depth + 1,
            },
        )
    }

    /// Takes note of what the search of the next depth found: where it
    /// was completed, its move and score are the best from now on, and its
    /// nodes are counted.
    pub fn record(&mut self, found: Option<DepthResult>)
        requires
            old(self).wf(),
            old(self).depth < u32::MAX,
        ensures
            final(self).wf(),
            final(self).depth == old(self).depth + 1,
            match found {
                Some(depth_found) => {
                    &&& final(self).best_move == depth_found.best_move
                    &&& final(self).best_score == depth_found.best_score
                    &&& final(self).stats.nodes_evaluated == add_nodes(
                        old(self).stats.nodes_evaluated,
                        depth_found.nodes_evaluated,
                    )
                    &&& final(self).stats.nodes_evaluated_per_depth@ == old(
                        self,
                    ).stats.nodes_evaluated_per_depth@.push(depth_found.nodes_evaluated)
                },
                None => {
                    &&& final(self).best_move == old(self).best_move
                    &&& final(self).best_score == old(self).best_score
                    &&& final(self).stats == old(self).stats
                },
            },
    {
        self.depth = self.depth + 1;
        match found {
            Some(depth_found) => {
                let nodes = self.stats.nodes_evaluated;
                self.stats.nodes_evaluated = if nodes <= u64::MAX - depth_found.nodes_evaluated {
                    nodes + depth_found.nodes_evaluated
                } else {
                    u64::MAX
                };
                self.stats.nodes_evaluated_per_depth.push(depth_found.nodes_evaluated);
                self.best_move = depth_found.best_move;
                self.best_score = depth_found.best_score;
            },
            None => {},
        }
    }
}

/// Searches the position with iterative deepening: to depth one, two and so
/// on up to the depth of the options, as long as time, nodes and the stop
/// flag allow. Gives the best move of the last depth that was completed,
/// which is legal, or the null move where none was completed.
///
/// A search that is bounded by neither time nor a stop flag finds what
/// `search_outcome` says of the position, the table, the depth and the limit
/// of nodes, and leaves the table as it says: so two such searches of the
/// same position that start with equal tables find the same move, score and
/// counts.
pub fn search(pos: &Position, table: &mut Table, options: &SearchOptions) -> (r: SearchResult)
    requires
        pos.wf(),
    ensures
        r.best_move.raw() == 0 || pos@.legal(r.best_move),
        r.stats.nodes_evaluated_per_depth.len() <= options.depth,
        options.depth == 0 ==> r.best_move.raw() == 0 && r.best_score.raw() == Value::mated_score(
            0,
        ),
        options.time_limit.is_none() && options.hard_stop.is_none() ==> ({
            let found = search_outcome(pos@, old(table)@, options.depth, options.node_limit);
            &&& r.best_move == found.best_move
            &&& r.best_score == found.best_score
            &&& r.stats.nodes_evaluated == found.nodes
            &&& r.stats.nodes_evaluated_per_depth@ == found.per_depth
            &&& final(table)@ == found.table
        }),
{
    broadcast use Value::lemma_raw_of;

    let ghost timeless = options.time_limit.is_none() && options.hard_stop.is_none();
    let ghost goal = search_outcome(pos@, table@, options.depth, options.node_limit);
    let start_time = clock_now();
    let mut progress = Deepening::new();
    while progress.depth < options.depth
        invariant
            progress.wf(),
            progress.depth <= options.depth,
            pos.wf(),
            timeless == (options.time_limit.is_none() && options.hard_stop.is_none()),
            progress.best_move.raw() == 0 || pos@.legal(progress.best_move),
            progress.depth == 0 ==> progress.best_move.raw() == 0 && progress.best_score.raw()
                == Value::mated_score(0),
            timeless ==> goal == deepen(
                pos@,
                progress.found(table@),
                progress.depth,
                options.depth,
                options.node_limit,
            ),
        ensures
            progress.wf(),
            progress.depth <= options.depth,
            timeless ==> goal == progress.found(table@),
            progress.best_move.raw() == 0 || pos@.legal(progress.best_move),
            options.depth == 0 ==> progress.best_move.raw() == 0 && progress.best_score.raw()
                == Value::mated_score(0),
        decreases options.depth - progress.depth,
    {
        let elapsed = clock_elapsed(&start_time);
        match progress.next_search(options, &elapsed) {
            Some(step) => {
                let found = search_to_depth(pos, table, &step, step.depth);
                progress.record(found);
            },
            None => {
                break ;
            },
        }
    }
    SearchResult {
        best_move: progress.best_move,
        best_score: progress.best_score,
        stats: progress.stats,
    }
}

/// The depth to search to where a request names none.
pub const DEFAULT_DEPTH: u32 = 10;

/// `Duration::from_millis`: the duration of the given number of
/// milliseconds. Nothing is stated of it here.
#[verifier::external_body]
fn duration_of_millis(millis: u64) -> (duration: Duration) {
    Duration::from_millis(millis)
}

/// What bounds the search that a request asks a worker for: the time and
/// the nodes of the request, its depth or, where it names none, the default
/// depth, and the worker's stop flag.
pub fn search_options<'a>(request: &SearchRequest, stop: &'a AtomicBool) -> (options: SearchOptions<
    'a,
>)
    ensures
        options.time_limit.is_some() == request.time_limit.is_some(),
        options.node_limit == request.node_limit,
        options.hard_stop == Some(stop),
        options.depth == match request.depth {
            Some(depth) => depth,
            None => DEFAULT_DEPTH,
        },
{
    SearchOptions {
        time_limit: match request.time_limit {
            Some(millis) => Some(duration_of_millis(millis)),
            None => None,
        },
        node_limit: request.node_limit,
        hard_stop: Some(stop),
        depth: match request.depth {
            Some(depth) => depth,
            None => DEFAULT_DEPTH,
        },
    }
}

/// `Duration::saturating_sub`: the first duration less the second, and
/// zero where the second is the longer.
#[verifier::external_body]
fn saturating_sub(duration: &Duration, less: &Duration) -> (rest: Duration) {
    duration.saturating_sub(*less)
}

} // verus!
