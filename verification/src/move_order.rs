//! Ordering of moves for the search: captures first, the most promising
//! by static exchange evaluation in front, then the quiet moves.

use crate::model::PositionModel;
use crate::moves::Move;
use crate::position::Position;
use crate::squareset::{count_where, lemma_count_where_one_more};
use crate::types::{Square, KING_VALUE};
use vstd::prelude::*;

verus! {

/// How many pieces stand on the board.
pub open spec fn piece_count(m: PositionModel) -> nat {
    count_where(|i: int| m.occupied(i), 64)
}

/// The material value of the piece on square `i`; zero for an empty square.
pub open spec fn value_on(m: PositionModel, i: int) -> int {
    match m.piece_on(i) {
        Some(p) => p.kind.material(),
        None => 0,
    }
}

/// Whether the piece on `s` is the least valuable piece of the side to move
/// that attacks `t`; of several such pieces, the one on the lowest square.
pub open spec fn is_smallest_attacker(m: PositionModel, t: int, s: int) -> bool {
    &&& m.attacks_square(m.side, s, t)
    &&& forall|o: int|
        #![trigger m.attacks_square(m.side, o, t)]
        m.attacks_square(m.side, o, t) ==> value_on(m, s) < value_on(m, o) || (value_on(m, s)
            == value_on(m, o) && s <= o)
}

/// The capture of what stands on `t` by what stands on `s`.
pub open spec fn capture_of(s: int, t: int) -> Move {
    Move::pack(s, t, 4)
}

/// The static exchange evaluation of square `t`: what the side to move
/// wins, in pawns, if it captures on `t` with its least valuable attacker and
/// the other side answers likewise, each side free to stop when going on
/// would lose material. Zero where the side to move attacks nothing there.
pub open spec fn see(m: PositionModel, t: int) -> int
    decreases piece_count(m),
{
    if m.wf() && 0 <= t < 64 && m.occupied(t) && exists|s: int| is_smallest_attacker(m, t, s) {
        let s = choose|s: int| is_smallest_attacker(m, t, s);
        let child = m.after_make(capture_of(s, t));
        if piece_count(child) < piece_count(m) {
            let gain = value_on(m, t) - see(child, t);
            if gain > 0 {
                gain
            } else {
                0
            }
        } else {
            0
        }
    } else {
        0
    }
}

/// A capture of one piece by another can be made, leaves a piece on the
/// square of the capture, and leaves one piece less on the board.
pub proof fn lemma_capture(m: PositionModel, s: int, t: int)
    requires
        m.wf(),
        0 <= t < 64,
        m.occupied(t),
        m.attacks_square(m.side, s, t),
    ensures
        0 <= s < 64,
        s != t,
        m.can_make(capture_of(s, t)),
        capture_of(s, t).raw() != 0,
        m.after_make(capture_of(s, t)).wf(),
        m.after_make(capture_of(s, t)).occupied(t),
        piece_count(m.after_make(capture_of(s, t))) + 1 == piece_count(m),
{
    Move::lemma_pack(s, t, 4);
    let mv = capture_of(s, t);
    let child = m.after_make(mv);
    assert(child.board =~= m.board.update(s, None).update(t, m.board[s]));
    lemma_count_where_one_more(|i: int| m.occupied(i), |i: int| child.occupied(i), s, 64);
}

/// There is at most one smallest attacker.
pub proof fn lemma_smallest_unique(m: PositionModel, t: int, a: int, b: int)
    requires
        is_smallest_attacker(m, t, a),
        is_smallest_attacker(m, t, b),
    ensures
        a == b,
{
}

/// The evaluation lies between nothing and the value of what stands on the square.
pub proof fn lemma_see_bounds(m: PositionModel, t: int)
    ensures
        0 <= see(m, t) <= KING_VALUE,
        0 <= see(m, t) <= if value_on(m, t) > 0 {
            value_on(m, t)
        } else {
            0
        },
    decreases piece_count(m),
{
    if m.wf() && 0 <= t < 64 && m.occupied(t) && exists|s: int| is_smallest_attacker(m, t, s) {
        let s = choose|s: int| is_smallest_attacker(m, t, s);
        let child = m.after_make(capture_of(s, t));
        if piece_count(child) < piece_count(m) {
            lemma_see_bounds(child, t);
        }
    }
}

/// The square of the least valuable piece of the side to move that attacks
/// the target, if any piece of that side attacks it.
pub fn smallest_attacker(pos: &Position, target: Square) -> (r: Option<Square>)
    requires
        pos.wf(),
    ensures
        match r {
            Some(sq) => is_smallest_attacker(pos@, target.idx(), sq.idx()),
            None => forall|s: int| !#[trigger] pos@.attacks_square(pos@.side, s, target.idx()),
        },
{
    let ghost m = pos@;
    let ghost t = target.idx();
    let attackers = pos.squares_attacking(pos.side_to_move(), target);
    let list = attackers.to_vec();
    if list.len() == 0 {
        proof {
            assert forall|s: int| !#[trigger] m.attacks_square(m.side, s, t) by {
                if attackers.has(s) {
                    let j = choose|j: int| 0 <= j < list.len() && list[j].idx() == s;
                }
            }
        }
        return None;
    }
    let mut best = list[0];
    let mut best_value = pos.piece_at(best).unwrap().kind.value();
    let mut k: usize = 1;
    while k < list.len()
        invariant
            1 <= k <= list.len(),
            pos.wf(),
            m == pos@,
            t == target.idx(),
            forall|j: int| 0 <= j < list.len() ==> attackers.has(#[trigger] list[j].idx()),
            forall|j: int, l: int| 0 <= j < l < list.len() ==> list[j].idx() < list[l].idx(),
            forall|s: int|
                #![trigger attackers.has(s)]
                attackers.has(s) <==> m.attacks_square(m.side, s, t),
            exists|j: int| 0 <= j < k && list[j] == best,
            best_value == value_on(m, best.idx()),
            forall|j: int|
                0 <= j < k ==> best_value < value_on(m, #[trigger] list[j].idx()) || (best_value
                    == value_on(m, list[j].idx()) && best.idx() <= list[j].idx()),
        decreases list.len() - k,
    {
        let candidate = list[k];
        assert(attackers.has(candidate.idx()));
        let value = pos.piece_at(candidate).unwrap().kind.value();
        if value < best_value {
            best = candidate;
            best_value = value;
            assert(list[k as int] == best);
        }
        k += 1;
    }
    proof {
        let j0 = choose|j: int| 0 <= j < k && list[j] == best;
        assert(attackers.has(list[j0].idx()));
        assert forall|o: int| #![trigger m.attacks_square(m.side, o, t)] m.attacks_square(
            m.side,
            o,
            t,
        ) implies value_on(m, best.idx()) < value_on(m, o) || (value_on(m, best.idx())
            == value_on(m, o) && best.idx() <= o) by {
            assert(attackers.has(o));
            let j = choose|j: int| 0 <= j < list.len() && list[j].idx() == o;
            assert(best_value < value_on(m, list[j].idx()) || (best_value == value_on(
                m,
                list[j].idx(),
            ) && best.idx() <= list[j].idx()));
        }
    }
    Some(best)
}

/// The static exchange evaluation of the target square. A piece stands on
/// the target wherever a piece of the side to move attacks it; where none
/// attacks it, the evaluation is zero.
pub fn static_exchange_evaluation(pos: &Position, target: Square) -> (value: i32)
    requires
        pos.wf(),
        pos@.occupied(target.idx()) || forall|s: int|
            !#[trigger] pos@.attacks_square(pos@.side, s, target.idx()),
    ensures
        value == see(pos@, target.idx()),
        0 <= value <= KING_VALUE,
    decreases piece_count(pos@),
{
    let ghost m = pos@;
    let ghost t = target.idx();
    let tt = target.as_u8();
    proof {
        pos.lemma_wf_model();
        lemma_see_bounds(m, t);
    }
    match smallest_attacker(pos, target) {
        Some(attacker) => {
            let ghost s = attacker.idx();
            proof {
                assert(m.attacks_square(m.side, s, t));
                let chosen = choose|s: int| is_smallest_attacker(m, t, s);
                lemma_smallest_unique(m, t, s, chosen);
                lemma_capture(m, s, t);
            }
            let target_piece = pos.piece_at(target).unwrap();
            let child = pos.clone_and_make_move(Move::capture(attacker, target));
            proof {
                lemma_see_bounds(child@, t);
            }
            // A negative term would be a capture that loses material: the
            // side to move would not make it.
            let gain = target_piece.kind.value() - static_exchange_evaluation(&child, target);
            if gain > 0 {
                gain
            } else {
                0
            }
        },
        None => {
            proof {
                assert forall|s: int| !is_smallest_attacker(m, t, s) by {
                    assert(!m.attacks_square(m.side, s, t));
                }
            }
            0
        },
    }
}

/// The weight of a move for the ordering: for a capture, what the
/// exchange on its destination wins, and what a promotion adds to a pawn;
/// for a quiet move, nothing.
pub open spec fn see_weight(m: PositionModel, mv: Move) -> int {
    if mv.captures() {
        let captured = if mv.flags() == 5 {
            1
        } else {
            value_on(m, mv.dst())
        };
        let bonus = if mv.promotes() {
            mv.promoted().material() - 1
        } else {
            0
        };
        let gain = captured - see(m.after_make(mv), mv.dst());
        bonus + if gain > 0 {
            gain
        } else {
            0
        }
    } else {
        0
    }
}

/// The place of a move in the ordering: the higher, the earlier. Every
/// capture stands before every quiet move.
pub open spec fn order_key(m: PositionModel, mv: Move) -> int {
    if mv.captures() {
        see_weight(m, mv) + 1
    } else {
        0
    }
}

/// The weight of a move for the ordering.
fn weigh(pos: &Position, mov: Move) -> (w: i32)
    requires
        pos.wf(),
        pos@.can_make(mov),
        mov.raw() != 0,
    ensures
        w == order_key(pos@, mov),
        0 <= w <= 3 * KING_VALUE,
{
    let ghost m = pos@;
    proof {
        mov.lemma_parts();
        pos.lemma_wf_model();
        m.lemma_stages(mov);
    }
    if !mov.is_capture() {
        return 0;
    }
    let dest = mov.destination();
    let child_pos = pos.clone_and_make_move(mov);
    // A capture en passant finds no piece on its destination: it takes a pawn.
    let captured_piece_value = if mov.is_en_passant() {
        1
    } else {
        pos.piece_at(dest).unwrap().kind.value()
    };
    // A promotion turns a pawn into a piece of more value.
    let promotion_value = if mov.is_promotion() {
        mov.promotion_piece().value() - 1
    } else {
        0
    };
    proof {
        lemma_see_bounds(child_pos@, dest.idx());
        assert(child_pos@.board == m.board_after(mov));
        assert(child_pos@.occupied(dest.idx()));
    }
    let gain = captured_piece_value - static_exchange_evaluation(&child_pos, dest);
    let kept = if gain > 0 {
        gain
    } else {
        0
    };
    promotion_value + kept + 1
}

/// The list with `x` put in behind the last element whose key is not lower than `key`.
pub open spec fn insert_by_key(
    sorted: Seq<Move>,
    keys: spec_fn(Move) -> int,
    x: Move,
) -> Seq<Move>
    decreases sorted.len(),
{
    if sorted.len() == 0 {
        seq![x]
    } else if keys(sorted.last()) >= keys(x) {
        sorted.push(x)
    } else {
        insert_by_key(sorted.drop_last(), keys, x).push(sorted.last())
    }
}

/// The list sorted by falling key; moves of equal key keep their order.
pub open spec fn sort_by_key(list: Seq<Move>, keys: spec_fn(Move) -> int) -> Seq<Move>
    decreases list.len(),
{
    if list.len() == 0 {
        list
    } else {
        insert_by_key(sort_by_key(list.drop_last(), keys), keys, list.last())
    }
}

/// Whether the keys of the list never rise.
pub open spec fn falls(list: Seq<Move>, keys: spec_fn(Move) -> int) -> bool {
    forall|i: int, j: int| 0 <= i < j < list.len() ==> keys(list[i]) >= keys(list[j])
}

/// Inserting keeps the keys from rising, and keeps what the list holds.
pub proof fn lemma_insert_by_key(sorted: Seq<Move>, keys: spec_fn(Move) -> int, x: Move)
    requires
        falls(sorted, keys),
    ensures
        falls(insert_by_key(sorted, keys, x), keys),
        insert_by_key(sorted, keys, x).len() == sorted.len() + 1,
        insert_by_key(sorted, keys, x).to_multiset() == sorted.to_multiset().insert(x),
    decreases sorted.len(),
{
    broadcast use vstd::seq_lib::group_to_multiset_ensures;

    let r = insert_by_key(sorted, keys, x);
    if sorted.len() == 0 {
        assert(sorted =~= Seq::<Move>::empty());
        assert(r =~= Seq::<Move>::empty().push(x));
    } else if keys(sorted.last()) >= keys(x) {
    } else {
        let rest = sorted.drop_last();
        lemma_insert_by_key(rest, keys, x);
        let inner = insert_by_key(rest, keys, x);
        assert(sorted =~= rest.push(sorted.last()));
        assert forall|i: int, j: int| 0 <= i < j < r.len() implies keys(r[i]) >= keys(r[j]) by {
            if j == r.len() - 1 {
                // Every element of `inner` is `x` or an element of `rest`.
                assert(inner.to_multiset().count(inner[i]) > 0);
                if inner[i] != x {
                    assert(rest.to_multiset().count(inner[i]) > 0);
                    assert(rest.contains(inner[i]));
                    let k = choose|k: int| 0 <= k < rest.len() && rest[k] == inner[i];
                    assert(keys(sorted[k]) >= keys(sorted[sorted.len() - 1]));
                }
            }
        }
        assert(r.to_multiset() =~= sorted.to_multiset().insert(x));
    }
}

/// The sorted list holds what the list holds, and its keys never rise.
pub proof fn lemma_sort_by_key(list: Seq<Move>, keys: spec_fn(Move) -> int)
    ensures
        falls(sort_by_key(list, keys), keys),
        sort_by_key(list, keys).len() == list.len(),
        sort_by_key(list, keys).to_multiset() == list.to_multiset(),
    decreases list.len(),
{
    broadcast use vstd::seq_lib::group_to_multiset_ensures;

    if list.len() > 0 {
        let rest = list.drop_last();
        lemma_sort_by_key(rest, keys);
        lemma_insert_by_key(sort_by_key(rest, keys), keys, list.last());
        assert(list =~= rest.push(list.last()));
    }
}

/// Orders the moves for the search: captures before quiet moves, and the
/// captures by what they win in the exchange on their destination, most
/// first. Moves that weigh the same keep their order.
pub fn order_moves(pos: &Position, moves: &mut Vec<Move>)
    requires
        pos.wf(),
        forall|i: int|
            0 <= i < old(moves).len() ==> pos@.can_make(#[trigger] old(moves)[i]) && old(
                moves,
            )[i].raw() != 0,
    ensures
        final(moves)@ == sort_by_key(old(moves)@, |mv: Move| order_key(pos@, mv)),
        falls(final(moves)@, |mv: Move| order_key(pos@, mv)),
        final(moves)@.to_multiset() == old(moves)@.to_multiset(),
        final(moves).len() == old(moves).len(),
        forall|i: int, j: int|
            #![trigger final(moves)[i], final(moves)[j]]
            0 <= i < j < final(moves).len() && final(moves)[j].captures()
                ==> final(moves)[i].captures(),
{
    let ghost m = pos@;
    let ghost input = moves@;
    let ghost keys = |mv: Move| order_key(m, mv);
    proof {
        lemma_sort_by_key(input, keys);
    }
    let mut sorted: Vec<Move> = Vec::new();
    let mut weights: Vec<i32> = Vec::new();
    let mut k: usize = 0;
    assert(input.take(0) =~= Seq::<Move>::empty());
    while k < moves.len()
        invariant
            k <= moves.len(),
            pos.wf(),
            m == pos@,
            input == moves@,
            keys == (|mv: Move| order_key(m, mv)),
            forall|i: int|
                0 <= i < input.len() ==> m.can_make(#[trigger] input[i]) && input[i].raw() != 0,
            sorted@ == sort_by_key(input.take(k as int), keys),
            weights.len() == sorted.len(),
            forall|i: int| 0 <= i < sorted.len() ==> #[trigger] weights[i] == keys(sorted[i]),
        decreases moves.len() - k,
    {
        let mov = moves[k];
        let weight = weigh(pos, mov);
        let ghost before = sorted@;
        proof {
            assert(input.take(k + 1).drop_last() =~= input.take(k as int));
            assert(input.take(k + 1).last() == mov);
        }
        // Put the move in behind the last move that does not weigh less.
        let mut at: usize = sorted.len();
        proof {
            assert(before.take(at as int) =~= before);
            assert(insert_by_key(before, keys, mov) + before.skip(at as int) =~= insert_by_key(
                before,
                keys,
                mov,
            ));
        }
        while at > 0 && weights[at - 1] < weight
            invariant
                at <= sorted.len(),
                sorted@ == before,
                weights.len() == sorted.len(),
                weight == keys(mov),
                forall|i: int| 0 <= i < sorted.len() ==> #[trigger] weights[i] == keys(sorted[i]),
                insert_by_key(before, keys, mov) == insert_by_key(before.take(at as int), keys, mov)
                    + before.skip(at as int),
            decreases at,
        {
            proof {
                let head = before.take(at as int);
                assert(head.drop_last() =~= before.take(at - 1));
                assert(head.last() == before[at - 1]);
                assert(insert_by_key(head, keys, mov) == insert_by_key(
                    head.drop_last(),
                    keys,
                    mov,
                ).push(head.last()));
                assert(insert_by_key(head.drop_last(), keys, mov).push(head.last()) + before.skip(
                    at as int,
                ) =~= insert_by_key(before.take(at - 1), keys, mov) + before.skip(at - 1));
            }
            at -= 1;
        }
        proof {
            let head = before.take(at as int);
            if at > 0 {
                assert(head.last() == before[at - 1]);
            }
            assert(insert_by_key(head, keys, mov) =~= head.push(mov));
            assert(before.take(before.len() as int) =~= before);
            assert(before.skip(before.len() as int) =~= Seq::<Move>::empty());
        }
        sorted.insert(at, mov);
        weights.insert(at, weight);
        proof {
            assert(sorted@ =~= before.take(at as int).push(mov) + before.skip(at as int));
        }
        k += 1;
    }
    proof {
        assert(input.take(k as int) =~= input);
        // A capture weighs more than a quiet move, and the weights never rise.
        assert forall|i: int, j: int|
            #![trigger sorted[i], sorted[j]]
            0 <= i < j < sorted.len() && sorted[j].captures() implies sorted[i].captures() by {
            sorted[j].lemma_parts();
            assert(keys(sorted[i]) >= keys(sorted[j]));
        }
    }
    *moves = sorted;
}

} // verus!
