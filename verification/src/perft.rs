//! Counting the positions that can be reached in a given number of legal
//! moves: the standard test of a move generator.

use crate::model::PositionModel;
use crate::movegen::generate_moves;
use crate::moves::Move;
use crate::position::Position;
use vstd::prelude::*;

verus! {

/// The sum of `f` over the numbers below `n`.
pub open spec fn sum_upto(f: spec_fn(int) -> nat, n: int) -> nat
    decreases n,
{
    if n <= 0 {
        0
    } else {
        sum_upto(f, n - 1) + f(n - 1)
    }
}

/// The sum of `f` over the moves of a list.
pub open spec fn list_sum(list: Seq<Move>, f: spec_fn(Move) -> nat) -> nat
    decreases list.len(),
{
    if list.len() == 0 {
        0
    } else {
        list_sum(list.drop_last(), f) + f(list.last())
    }
}

/// Functions that agree below `n` have the same sum.
pub proof fn lemma_sum_same(f: spec_fn(int) -> nat, g: spec_fn(int) -> nat, n: int)
    requires
        forall|i: int| 0 <= i < n ==> #[trigger] f(i) == #[trigger] g(i),
    ensures
        sum_upto(f, n) == sum_upto(g, n),
    decreases n,
{
    if n > 0 {
        lemma_sum_same(f, g, n - 1);
    }
}

/// A function that is zero below `n` sums to zero.
pub proof fn lemma_sum_zero(f: spec_fn(int) -> nat, n: int)
    requires
        forall|i: int| 0 <= i < n ==> #[trigger] f(i) == 0,
    ensures
        sum_upto(f, n) == 0,
    decreases n,
{
    if n > 0 {
        lemma_sum_zero(f, n - 1);
    }
}

/// Setting one value of a function to zero takes that value off its sum.
pub proof fn lemma_sum_without(f: spec_fn(int) -> nat, g: spec_fn(int) -> nat, k: int, n: int)
    requires
        0 <= k < n,
        g(k) == 0,
        forall|i: int| 0 <= i < n && i != k ==> #[trigger] f(i) == #[trigger] g(i),
    ensures
        sum_upto(f, n) == sum_upto(g, n) + f(k),
    decreases n,
{
    if n - 1 == k {
        lemma_sum_same(f, g, n - 1);
    } else {
        lemma_sum_without(f, g, k, n - 1);
    }
}

/// The value of `f` at a move of which `which` holds, and zero at any other.
pub open spec fn masked(which: spec_fn(Move) -> bool, f: spec_fn(Move) -> nat) -> spec_fn(int) -> nat {
    |raw: int|
        if which(Move::of_raw(raw)) {
            f(Move::of_raw(raw))
        } else {
            0nat
        }
}

/// The sum over a list that holds, each once, the moves of which a
/// predicate holds is the sum over all such moves.
pub proof fn lemma_list_sums(list: Seq<Move>, which: spec_fn(Move) -> bool, f: spec_fn(Move) -> nat)
    requires
        list.no_duplicates(),
        forall|x: Move| #[trigger] list.contains(x) <==> which(x),
    ensures
        list_sum(list, f) == sum_upto(masked(which, f), 65536),
    decreases list.len(),
{
    if list.len() == 0 {
        assert forall|i: int| 0 <= i < 65536 implies #[trigger] masked(which, f)(i) == 0 by {
            assert(!list.contains(Move::of_raw(i)));
        }
        lemma_sum_zero(masked(which, f), 65536);
    } else {
        let x = list.last();
        let rest = list.drop_last();
        let fewer = |y: Move| which(y) && y != x;
        assert forall|y: Move| #[trigger] rest.contains(y) <==> fewer(y) by {
            if rest.contains(y) {
                let i = choose|i: int| 0 <= i < rest.len() && rest[i] == y;
                assert(list[i] == y);
                assert(list.contains(y));
            }
            if fewer(y) {
                assert(list.contains(y));
                let i = choose|i: int| 0 <= i < list.len() && list[i] == y;
                assert(rest[i] == y);
            }
        }
        lemma_list_sums(rest, fewer, f);
        x.lemma_of_raw();
        assert(list.contains(x)) by {
            assert(list[list.len() - 1] == x);
        }
        assert forall|i: int| 0 <= i < 65536 && i != x.raw() implies #[trigger] masked(which, f)(i)
            == #[trigger] masked(fewer, f)(i) by {
            Move::lemma_raw_of(i);
        }
        lemma_sum_without(masked(which, f), masked(fewer, f), x.raw(), 65536);
    }
}

/// The sum over the first moves of a list is no more than the sum over all of it.
pub proof fn lemma_list_sum_grows(list: Seq<Move>, f: spec_fn(Move) -> nat, k: int)
    requires
        0 <= k <= list.len(),
    ensures
        list_sum(list.take(k), f) <= list_sum(list, f),
        k < list.len() ==> list_sum(list.take(k + 1), f) == list_sum(list.take(k), f) + f(list[k]),
    decreases list.len() - k,
{
    if k < list.len() {
        lemma_list_sum_grows(list, f, k + 1);
        assert(list.take(k + 1).drop_last() =~= list.take(k));
        assert(list.take(k + 1).last() == list[k]);
    } else {
        assert(list.take(k) =~= list);
    }
}

/// The number of leaves of the tree of legal moves of the given depth that
/// grows from the position: one for depth zero, and else the sum over the
/// legal moves of the leaves of the trees that grow from where they lead.
pub open spec fn perft_count(m: PositionModel, depth: nat) -> nat
    decreases depth, 65537nat,
{
    if depth == 0 {
        1
    } else {
        perft_sum(m, depth, 65536)
    }
}

/// The number of leaves below the move with the given sixteen bits; zero
/// where that move is not legal.
pub open spec fn perft_below(m: PositionModel, raw: int, depth: nat) -> nat
    decreases depth, 0nat,
{
    if depth > 0 && m.legal(Move::of_raw(raw)) {
        perft_count(m.after_make(Move::of_raw(raw)), (depth - 1) as nat)
    } else {
        0
    }
}

/// The number of leaves below the moves whose sixteen bits, as a number, lie below `n`.
pub open spec fn perft_sum(m: PositionModel, depth: nat, n: nat) -> nat
    decreases depth, n,
{
    if n == 0 || depth == 0 {
        0
    } else {
        perft_sum(m, depth, (n - 1) as nat) + perft_below(m, n - 1, depth)
    }
}

/// The sum of the leaves below the moves, written as a sum of a function.
pub proof fn lemma_perft_sum(m: PositionModel, depth: nat, f: spec_fn(int) -> nat, n: nat)
    requires
        depth > 0,
        forall|i: int| 0 <= i < n ==> #[trigger] f(i) == perft_below(m, i, depth),
    ensures
        perft_sum(m, depth, n) == sum_upto(f, n as int),
    decreases n,
{
    if n > 0 {
        lemma_perft_sum(m, depth, f, (n - 1) as nat);
    }
}

/// Counts the leaves of the tree of legal moves of the given depth that
/// grows from the position. A pseudo-legal move is tried either by the
/// legality test on a copy of the position, or by making it and looking for
/// check: both count the same.
pub fn perft(pos: &Position, depth: u32, use_legality_test: bool) -> (count: u64)
    requires
        pos.wf(),
        perft_count(pos@, depth as nat) <= u64::MAX,
    ensures
        count == perft_count(pos@, depth as nat),
    decreases depth,
{
    if depth == 0 {
        return 1;
    }
    let ghost m = pos@;
    let side_to_move = pos.side_to_move();
    let mut moves: Vec<Move> = Vec::new();
    generate_moves(side_to_move, pos, &mut moves);
    let ghost gen = moves@;
    // What is not legal counts nothing.
    let ghost worth = |x: Move| perft_below(m, x.raw(), depth as nat);
    proof {
        assert(gen.skip(0) =~= gen);
        lemma_list_sums(gen, |x: Move| m.pseudo_legal(m.side, x), worth);
        let generated = masked(|x: Move| m.pseudo_legal(m.side, x), worth);
        assert forall|i: int| 0 <= i < 65536 implies #[trigger] generated(i) == perft_below(
            m,
            i,
            depth as nat,
        ) by {
            Move::lemma_raw_of(i);
        }
        lemma_perft_sum(m, depth as nat, generated, 65536);
        assert(gen.take(0) =~= Seq::<Move>::empty());
    }
    let mut total: u64 = 0;
    let mut k: usize = 0;
    while k < moves.len()
        invariant
            k <= moves.len(),
            pos.wf(),
            depth > 0,
            m == pos@,
            gen == moves@,
            side_to_move == m.side,
            worth == (|x: Move| perft_below(m, x.raw(), depth as nat)),
            forall|x: Move| #[trigger] gen.contains(x) <==> m.pseudo_legal(m.side, x),
            list_sum(gen, worth) == perft_count(m, depth as nat),
            list_sum(gen, worth) <= u64::MAX,
            total == list_sum(gen.take(k as int), worth),
        decreases moves.len() - k,
    {
        let mov = moves[k];
        proof {
            assert(gen.contains(mov));
            pos.lemma_wf_model();
            m.lemma_pseudo_legal_can_make(mov);
            mov.lemma_of_raw();
            lemma_list_sum_grows(gen, worth, k as int);
            lemma_list_sum_grows(gen, worth, k + 1);
        }
        let legal = if use_legality_test {
            pos.is_legal_given_pseudolegal(mov)
        } else {
            let new_pos = pos.clone_and_make_move(mov);
            !new_pos.is_check(side_to_move)
        };
        if legal {
            let new_pos = pos.clone_and_make_move(mov);
            total = total + perft(&new_pos, depth - 1, use_legality_test);
        }
        k += 1;
    }
    proof {
        assert(gen.take(k as int) =~= gen);
    }
    total
}

/// Counts the leaves as `perft` does, for every position and depth: gives
/// nothing where there are more leaves than a count can hold.
pub fn perft_checked(pos: &Position, depth: u32, use_legality_test: bool) -> (count: Option<u64>)
    requires
        pos.wf(),
    ensures
        count == if perft_count(pos@, depth as nat) <= u64::MAX {
            Some(perft_count(pos@, depth as nat) as u64)
        } else {
            None
        },
    decreases depth,
{
    if depth == 0 {
        return Some(1);
    }
    let ghost m = pos@;
    let side_to_move = pos.side_to_move();
    let mut moves: Vec<Move> = Vec::new();
    generate_moves(side_to_move, pos, &mut moves);
    let ghost gen = moves@;
    // What is not legal counts nothing.
    let ghost worth = |x: Move| perft_below(m, x.raw(), depth as nat);
    proof {
        assert(gen.skip(0) =~= gen);
        lemma_list_sums(gen, |x: Move| m.pseudo_legal(m.side, x), worth);
        let generated = masked(|x: Move| m.pseudo_legal(m.side, x), worth);
        assert forall|i: int| 0 <= i < 65536 implies #[trigger] generated(i) == perft_below(
            m,
            i,
            depth as nat,
        ) by {
            Move::lemma_raw_of(i);
        }
        lemma_perft_sum(m, depth as nat, generated, 65536);
        assert(gen.take(0) =~= Seq::<Move>::empty());
    }
    let mut total: u64 = 0;
    let mut k: usize = 0;
    while k < moves.len()
        invariant
            k <= moves.len(),
            pos.wf(),
            depth > 0,
            m == pos@,
            gen == moves@,
            side_to_move == m.side,
            worth == (|x: Move| perft_below(m, x.raw(), depth as nat)),
            forall|x: Move| #[trigger] gen.contains(x) <==> m.pseudo_legal(m.side, x),
            list_sum(gen, worth) == perft_count(m, depth as nat),
            total == list_sum(gen.take(k as int), worth),
        decreases moves.len() - k,
    {
        let mov = moves[k];
        proof {
            assert(gen.contains(mov));
            pos.lemma_wf_model();
            m.lemma_pseudo_legal_can_make(mov);
            mov.lemma_of_raw();
            lemma_list_sum_grows(gen, worth, k as int);
            lemma_list_sum_grows(gen, worth, k + 1);
        }
        let legal = if use_legality_test {
            pos.is_legal_given_pseudolegal(mov)
        } else {
            let new_pos = pos.clone_and_make_move(mov);
            !new_pos.is_check(side_to_move)
        };
        if legal {
            let new_pos = pos.clone_and_make_move(mov);
            let below = match perft_checked(&new_pos, depth - 1, use_legality_test) {
                Some(below) => below,
                None => {
                    return None;
                },
            };
            if below > u64::MAX - total {
                return None;
            }
            total = total + below;
        }
        k += 1;
    }
    proof {
        assert(gen.take(k as int) =~= gen);
    }
    Some(total)
}


} // verus!
