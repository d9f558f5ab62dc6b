//! Generation of the pseudo-legal moves of a position: the moves that obey
//! the rules of movement and do not land on a piece of the same color, but
//! may leave the mover's own king in check.

use crate::attacks::{attacks, king_attacks, pawn_attacks};
use crate::model::PositionModel;
use crate::moves::Move;
use crate::position::{king_start, kingside_rook, queenside_rook, Position};
use crate::squareset::{
    count_where, lemma_count_where_none, lemma_count_where_one_more, lemma_count_where_same,
    SquareSet,
};
use crate::types::{Color, Direction, Piece, PieceKind, Rank, Square};
use vstd::prelude::*;

verus! {

/// A sequence with one more element holds what it held and that element.
pub proof fn lemma_push_contains(s: Seq<Move>, x: Move)
    ensures
        forall|m: Move| #[trigger] s.push(x).contains(m) <==> (s.contains(m) || m == x),
{
    assert forall|m: Move| #[trigger] s.push(x).contains(m) <==> (s.contains(m) || m == x) by {
        if s.push(x).contains(m) {
            let i = choose|i: int| 0 <= i < s.push(x).len() && s.push(x)[i] == m;
            if i < s.len() {
                assert(s[i] == m);
            }
        }
        if s.contains(m) {
            let i = choose|i: int| 0 <= i < s.len() && s[i] == m;
            assert(s.push(x)[i] == m);
        }
        if m == x {
            assert(s.push(x)[s.len() as int] == m);
        }
    }
}

/// Whether `after` is `before` with moves appended, each once, that are
/// exactly the moves of which `which` holds.
pub open spec fn appended(before: Seq<Move>, after: Seq<Move>, which: spec_fn(Move) -> bool) -> bool {
    &&& before.len() <= after.len()
    &&& after.subrange(0, before.len() as int) == before
    &&& after.skip(before.len() as int).no_duplicates()
    &&& forall|m: Move| #[trigger] after.skip(before.len() as int).contains(m) <==> which(m)
}

/// Appending nothing appends the moves of which nothing holds.
pub proof fn lemma_appended_none(before: Seq<Move>, which: spec_fn(Move) -> bool)
    requires
        forall|m: Move| !#[trigger] which(m),
    ensures
        appended(before, before, which),
{
    assert(before.subrange(0, before.len() as int) =~= before);
    assert(before.skip(before.len() as int) =~= Seq::<Move>::empty());
}

/// Appending one more move.
pub proof fn lemma_appended_push(
    before: Seq<Move>,
    mid: Seq<Move>,
    x: Move,
    had: spec_fn(Move) -> bool,
    has: spec_fn(Move) -> bool,
)
    requires
        appended(before, mid, had),
        !had(x),
        forall|m: Move| #[trigger] has(m) <==> (had(m) || m == x),
    ensures
        appended(before, mid.push(x), has),
{
    let n = before.len() as int;
    let tail = mid.skip(n);
    assert(mid.push(x).skip(n) =~= tail.push(x));
    assert(mid.push(x).subrange(0, n) =~= mid.subrange(0, n));
    lemma_push_contains(tail, x);
    assert(has(x));
    assert(!tail.contains(x));
}

/// Appending moves of one sort and then moves of another appends the moves of either sort.
pub proof fn lemma_appended_then(
    before: Seq<Move>,
    mid: Seq<Move>,
    after: Seq<Move>,
    first: spec_fn(Move) -> bool,
    second: spec_fn(Move) -> bool,
    both: spec_fn(Move) -> bool,
)
    requires
        appended(before, mid, first),
        appended(mid, after, second),
        forall|m: Move| !(#[trigger] first(m) && second(m)),
        forall|m: Move| #[trigger] both(m) <==> (first(m) || second(m)),
    ensures
        appended(before, after, both),
{
    let n = before.len() as int;
    let k = mid.len() as int;
    let a = mid.skip(n);
    let b = after.skip(k);
    assert(after.subrange(0, k) == mid);
    assert(after.subrange(0, n) =~= mid.subrange(0, n));
    assert(after.skip(n) =~= a + b);
    assert forall|m: Move| #[trigger] (a + b).contains(m) <==> both(m) by {
        if (a + b).contains(m) {
            let i = choose|i: int| 0 <= i < (a + b).len() && (a + b)[i] == m;
            if i < a.len() {
                assert(a[i] == m);
                assert(a.contains(m));
            } else {
                assert(b[i - a.len()] == m);
                assert(b.contains(m));
            }
        }
        if a.contains(m) {
            let i = choose|i: int| 0 <= i < a.len() && a[i] == m;
            assert((a + b)[i] == m);
        }
        if b.contains(m) {
            let i = choose|i: int| 0 <= i < b.len() && b[i] == m;
            assert((a + b)[a.len() + i] == m);
        }
    }
    assert forall|i: int, j: int| 0 <= i < (a + b).len() && 0 <= j < (a + b).len() && i != j implies (
    a + b)[i] != (a + b)[j] by {
        if i < a.len() {
            assert(a.contains(a[i]));
        } else {
            assert(b.contains(b[i - a.len()]));
        }
        if j < a.len() {
            assert(a.contains(a[j]));
        } else {
            assert(b.contains(b[j - a.len()]));
        }
    }
}

/// What was appended is held, and what is held was held before or appended.
pub proof fn lemma_appended_contains(
    before: Seq<Move>,
    after: Seq<Move>,
    which: spec_fn(Move) -> bool,
)
    requires
        appended(before, after, which),
    ensures
        forall|m: Move| #[trigger] after.contains(m) <==> (before.contains(m) || which(m)),
{
    let n = before.len() as int;
    let tail = after.skip(n);
    assert forall|m: Move| #[trigger] after.contains(m) <==> (before.contains(m) || which(m)) by {
        if after.contains(m) {
            let i = choose|i: int| 0 <= i < after.len() && after[i] == m;
            if i < n {
                assert(after.subrange(0, n)[i] == m);
                assert(before.contains(m));
            } else {
                assert(tail[i - n] == m);
                assert(tail.contains(m));
            }
        }
        if before.contains(m) {
            let i = choose|i: int| 0 <= i < before.len() && before[i] == m;
            assert(after.subrange(0, n)[i] == after[i]);
        }
        if which(m) {
            assert(tail.contains(m));
            let i = choose|i: int| 0 <= i < tail.len() && tail[i] == m;
            assert(after[i + n] == m);
        }
    }
}

/// The same moves appended, said with another predicate that holds of the same moves.
pub proof fn lemma_appended_same(
    before: Seq<Move>,
    after: Seq<Move>,
    one: spec_fn(Move) -> bool,
    other: spec_fn(Move) -> bool,
)
    requires
        appended(before, after, one),
        forall|m: Move| #[trigger] one(m) <==> other(m),
    ensures
        appended(before, after, other),
{
}

/// Whether the moves of the list stand in the order of their ranks, each rank higher than the last.
pub open spec fn ranked(list: Seq<Move>, rank: spec_fn(Move) -> int) -> bool {
    forall|i: int, j: int| 0 <= i < j < list.len() ==> rank(list[i]) < rank(list[j])
}

/// A list in the order of its ranks stays so when a move of higher rank is put behind it.
pub proof fn lemma_ranked_push(
    before: Seq<Move>,
    mid: Seq<Move>,
    x: Move,
    rank: spec_fn(Move) -> int,
)
    requires
        before.len() <= mid.len(),
        ranked(mid.skip(before.len() as int), rank),
        forall|y: Move| #[trigger] mid.skip(before.len() as int).contains(y) ==> rank(y) < rank(x),
    ensures
        ranked(mid.push(x).skip(before.len() as int), rank),
{
    let n = before.len() as int;
    let tail = mid.skip(n);
    assert(mid.push(x).skip(n) =~= tail.push(x));
    assert forall|i: int, j: int| 0 <= i < j < tail.push(x).len() implies rank(tail.push(x)[i])
        < rank(tail.push(x)[j]) by {
        if j == tail.len() {
            assert(tail.contains(tail[i]));
        }
    }
}

/// Two lists in the order of their ranks, the ranks of the second above
/// those of the first, are in the order of their ranks when joined.
pub proof fn lemma_ranked_then(
    before: Seq<Move>,
    mid: Seq<Move>,
    after: Seq<Move>,
    rank: spec_fn(Move) -> int,
)
    requires
        before.len() <= mid.len() <= after.len(),
        after.subrange(0, mid.len() as int) == mid,
        ranked(mid.skip(before.len() as int), rank),
        ranked(after.skip(mid.len() as int), rank),
        forall|x: Move, y: Move|
            #![trigger mid.skip(before.len() as int).contains(x), after.skip(mid.len() as int).contains(y)]
            mid.skip(before.len() as int).contains(x) && after.skip(mid.len() as int).contains(y)
                ==> rank(x) < rank(y),
    ensures
        ranked(after.skip(before.len() as int), rank),
{
    let n = before.len() as int;
    let k = mid.len() as int;
    let a = mid.skip(n);
    let b = after.skip(k);
    assert(after.skip(n) =~= a + b) by {
        assert forall|i: int| 0 <= i < after.len() - n implies after.skip(n)[i] == (a + b)[i] by {
            if i < k - n {
                assert(after.subrange(0, k)[i + n] == after[i + n]);
            }
        }
    }
    assert forall|i: int, j: int| 0 <= i < j < (a + b).len() implies rank((a + b)[i]) < rank(
        (a + b)[j],
    ) by {
        if i < a.len() && j >= a.len() {
            assert(a.contains(a[i]));
            assert(b.contains(b[j - a.len()]));
        }
    }
}

/// The same order, said with another rank that orders the moves of the list alike.
pub proof fn lemma_ranked_same(
    list: Seq<Move>,
    one: spec_fn(Move) -> int,
    other: spec_fn(Move) -> int,
)
    requires
        ranked(list, one),
        forall|x: Move, y: Move|
            #![trigger list.contains(x), list.contains(y)]
            list.contains(x) && list.contains(y) && one(x) < one(y) ==> other(x) < other(y),
    ensures
        ranked(list, other),
{
    assert forall|i: int, j: int| 0 <= i < j < list.len() implies other(list[i]) < other(
        list[j],
    ) by {
        assert(list.contains(list[i]));
        assert(list.contains(list[j]));
    }
}

/// Lists that hold the same moves, each in the order of the same ranks, are the same list.
pub proof fn lemma_ranked_unique(a: Seq<Move>, b: Seq<Move>, rank: spec_fn(Move) -> int)
    requires
        ranked(a, rank),
        ranked(b, rank),
        forall|x: Move| #[trigger] a.contains(x) <==> b.contains(x),
    ensures
        a == b,
    decreases a.len(),
{
    if a.len() == 0 {
        if b.len() > 0 {
            assert(b.contains(b[0]));
            assert(a.contains(b[0]));
        }
        assert(a =~= b);
    } else {
        let x = a.last();
        assert(a.contains(x)) by {
            assert(a[a.len() - 1] == x);
        }
        assert(b.contains(x));
        let jx = choose|j: int| 0 <= j < b.len() && b[j] == x;
        let y = b.last();
        assert(b.contains(y)) by {
            assert(b[b.len() - 1] == y);
        }
        assert(a.contains(y));
        let iy = choose|i: int| 0 <= i < a.len() && a[i] == y;
        // The move of the highest rank stands last in both lists.
        assert(y == x) by {
            if jx < b.len() - 1 {
                assert(rank(b[jx]) < rank(b[b.len() - 1]));
                if iy < a.len() - 1 {
                    assert(rank(a[iy]) < rank(a[a.len() - 1]));
                }
            }
        }
        let ra = a.drop_last();
        let rb = b.drop_last();
        assert forall|z: Move| #[trigger] ra.contains(z) <==> rb.contains(z) by {
            if ra.contains(z) {
                let i = choose|i: int| 0 <= i < ra.len() && ra[i] == z;
                assert(a[i] == z);
                assert(a.contains(z));
                assert(b.contains(z));
                assert(rank(a[i]) < rank(a[a.len() - 1]));
                let j = choose|j: int| 0 <= j < b.len() && b[j] == z;
                assert(j < b.len() - 1);
                assert(rb[j] == z);
            }
            if rb.contains(z) {
                let j = choose|j: int| 0 <= j < rb.len() && rb[j] == z;
                assert(b[j] == z);
                assert(b.contains(z));
                assert(a.contains(z));
                assert(rank(b[j]) < rank(b[b.len() - 1]));
                let i = choose|i: int| 0 <= i < a.len() && a[i] == z;
                assert(i < a.len() - 1);
                assert(ra[i] == z);
            }
        }
        lemma_ranked_unique(ra, rb, rank);
        assert(a =~= ra.push(x));
        assert(b =~= rb.push(x));
    }
}

/// The place of a promotion piece in the order in which promotions are
/// generated: bishop, knight, rook, queen.
pub open spec fn promotion_order(flags: int) -> int {
    let code = flags % 4;
    if code == 1 {
        0
    } else if code == 0 {
        1
    } else {
        code
    }
}

/// The rank of a move among the moves to the squares of one set: by
/// destination, and for one destination by promotion piece.
pub open spec fn target_rank(m: Move) -> int {
    m.dst() * 8 + promotion_order(m.flags())
}

/// Whether `m` is one of the moves that lead to a square of `targets` from
/// the square that lies `back` indices further, with the given flags; for a
/// promotion, with any of the four promotion pieces.
pub open spec fn emitted(targets: SquareSet, back: int, flags: int, promo: bool, m: Move) -> bool {
    &&& targets.has(m.dst())
    &&& m.src() == m.dst() + back
    &&& if promo {
        flags <= m.flags() < flags + 4
    } else {
        m.flags() == flags
    }
}

/// Appends, for every square of `targets`, the move to it from the square
/// `ranks` ranks and `files` files away.
fn emit_targets(
    moves: &mut Vec<Move>,
    targets: SquareSet,
    ranks: i8,
    files: i8,
    flags: u16,
    promo: bool,
)
    requires
        -2 <= ranks <= 2,
        -1 <= files <= 1,
        promo ==> flags == 8 || flags == 12,
        !promo ==> flags < 16,
        forall|t: int|
            #![trigger targets.has(t)]
            targets.has(t) ==> 0 <= t / 8 + ranks < 8 && 0 <= t % 8 + files < 8,
    ensures
        appended(
            old(moves)@,
            final(moves)@,
            |m: Move| emitted(targets, 8 * ranks + files, flags as int, promo, m),
        ),
        ranked(final(moves)@.skip(old(moves)@.len() as int), |m: Move| target_rank(m)),
{
    let ghost start = moves@;
    let ghost n0 = start.len() as int;
    let ghost rk = |m: Move| target_rank(m);
    let ghost back = 8 * ranks + files;
    let ghost fl = flags as int;
    assert(start.skip(n0) =~= Seq::<Move>::empty());
    let list = targets.to_vec();
    let mut k: usize = 0;
    proof {
        lemma_appended_none(
            start,
            |m: Move|
                emitted(targets, back, fl, promo, m) && exists|j: int|
                    0 <= j < 0 && list[j].idx() == m.dst(),
        );
    }
    while k < list.len()
        invariant
            k <= list.len(),
            -2 <= ranks <= 2,
            -1 <= files <= 1,
            back == 8 * ranks + files,
            fl == flags,
            promo ==> flags == 8 || flags == 12,
            !promo ==> flags < 16,
            forall|t: int|
                #![trigger targets.has(t)]
                targets.has(t) ==> 0 <= t / 8 + ranks < 8 && 0 <= t % 8 + files < 8,
            forall|j: int| 0 <= j < list.len() ==> targets.has(#[trigger] list[j].idx()),
            forall|j: int, l: int| 0 <= j < l < list.len() ==> list[j].idx() < list[l].idx(),
            forall|i: int|
                #![trigger targets.has(i)]
                targets.has(i) ==> exists|j: int| 0 <= j < list.len() && list[j].idx() == i,
            appended(
                start,
                moves@,
                |m: Move|
                    emitted(targets, back, fl, promo, m) && exists|j: int|
                        0 <= j < k && list[j].idx() == m.dst(),
            ),
            n0 == start.len(),
            rk == (|m: Move| target_rank(m)),
            ranked(moves@.skip(n0), rk),
        decreases list.len() - k,
    {
        let target = list[k];
        let ghost t = target.idx();
        assert(targets.has(t));
        let source = target.offset(ranks, files).unwrap();
        let ghost before = moves@;
        let ghost had = |m: Move|
            emitted(targets, back, fl, promo, m) && exists|j: int|
                0 <= j < k && list[j].idx() == m.dst();
        let ghost has = |m: Move|
            emitted(targets, back, fl, promo, m) && exists|j: int|
                0 <= j < k + 1 && list[j].idx() == m.dst();
        if promo {
            let m1 = Move::make(source, target, flags + 1);
            let m0 = Move::make(source, target, flags);
            let m2 = Move::make(source, target, flags + 2);
            let m3 = Move::make(source, target, flags + 3);
            moves.push(m1);
            moves.push(m0);
            moves.push(m2);
            moves.push(m3);
            proof {
                let h1 = |m: Move| had(m) || m == m1;
                let h2 = |m: Move| h1(m) || m == m0;
                let h3 = |m: Move| h2(m) || m == m2;
                assert forall|y: Move| had(y) implies y.dst() < t by {
                    let j = choose|j: int| 0 <= j < k && list[j].idx() == y.dst();
                    assert(list[j].idx() < list[k as int].idx());
                }
                lemma_appended_push(start, before, m1, had, h1);
                lemma_ranked_push(start, before, m1, rk);
                lemma_appended_push(start, before.push(m1), m0, h1, h2);
                lemma_ranked_push(start, before.push(m1), m0, rk);
                lemma_appended_push(start, before.push(m1).push(m0), m2, h2, h3);
                lemma_ranked_push(start, before.push(m1).push(m0), m2, rk);
                assert forall|m: Move| #[trigger] has(m) <==> (h3(m) || m == m3) by {
                    m.lemma_parts();
                    if has(m) && !had(m) {
                        let j = choose|j: int| 0 <= j < k + 1 && list[j].idx() == m.dst();
                        assert(j == k);
                        if m.flags() == flags {
                            Move::lemma_equal(m, m0);
                        } else if m.flags() == flags + 1 {
                            Move::lemma_equal(m, m1);
                        } else if m.flags() == flags + 2 {
                            Move::lemma_equal(m, m2);
                        } else {
                            Move::lemma_equal(m, m3);
                        }
                    }
                    if had(m) {
                        let j = choose|j: int| 0 <= j < k && list[j].idx() == m.dst();
                        assert(0 <= j < k + 1 && list[j].idx() == m.dst());
                    }
                    if m == m0 || m == m1 || m == m2 || m == m3 {
                        assert(list[k as int].idx() == m.dst());
                    }
                }
                lemma_appended_push(start, before.push(m1).push(m0).push(m2), m3, h3, has);
                lemma_ranked_push(start, before.push(m1).push(m0).push(m2), m3, rk);
            }
        } else {
            let m0 = Move::make(source, target, flags);
            moves.push(m0);
            proof {
                assert forall|m: Move| #[trigger] has(m) <==> (had(m) || m == m0) by {
                    m.lemma_parts();
                    if has(m) && !had(m) {
                        let j = choose|j: int| 0 <= j < k + 1 && list[j].idx() == m.dst();
                        assert(j == k);
                        Move::lemma_equal(m, m0);
                    }
                    if had(m) {
                        let j = choose|j: int| 0 <= j < k && list[j].idx() == m.dst();
                        assert(0 <= j < k + 1 && list[j].idx() == m.dst());
                    }
                    if m == m0 {
                        assert(list[k as int].idx() == m.dst());
                    }
                }
                assert forall|y: Move| had(y) implies y.dst() < t by {
                    let j = choose|j: int| 0 <= j < k && list[j].idx() == y.dst();
                    assert(list[j].idx() < list[k as int].idx());
                }
                lemma_appended_push(start, before, m0, had, has);
                lemma_ranked_push(start, before, m0, rk);
            }
        }
        k += 1;
    }
    proof {
        lemma_appended_same(
            start,
            moves@,
            |m: Move|
                emitted(targets, back, fl, promo, m) && exists|j: int|
                    0 <= j < k && list[j].idx() == m.dst(),
            |m: Move| emitted(targets, 8 * ranks + files, flags as int, promo, m),
        );
    }
}

/// Whether `m` is one of the moves from `source` to a square of `targets`:
/// a capture where the square is in `enemy`, a quiet move where it is not.
pub open spec fn emitted_from(source: int, targets: SquareSet, enemy: SquareSet, m: Move) -> bool {
    &&& m.src() == source
    &&& targets.has(m.dst())
    &&& m.flags() == if enemy.has(m.dst()) {
        4int
    } else {
        0int
    }
}

/// Appends, for every square of `targets`, the move to it from `source`.
fn emit_from(moves: &mut Vec<Move>, source: Square, targets: SquareSet, enemy: SquareSet)
    ensures
        appended(
            old(moves)@,
            final(moves)@,
            |m: Move| emitted_from(source.idx(), targets, enemy, m),
        ),
        ranked(final(moves)@.skip(old(moves)@.len() as int), |m: Move| m.dst()),
{
    let ghost start = moves@;
    let ghost n0 = start.len() as int;
    let ghost rk = |m: Move| m.dst();
    let ghost s = source.idx();
    assert(start.skip(n0) =~= Seq::<Move>::empty());
    let list = targets.to_vec();
    let mut k: usize = 0;
    proof {
        lemma_appended_none(
            start,
            |m: Move|
                emitted_from(s, targets, enemy, m) && exists|j: int|
                    0 <= j < 0 && list[j].idx() == m.dst(),
        );
    }
    while k < list.len()
        invariant
            k <= list.len(),
            s == source.idx(),
            forall|j: int| 0 <= j < list.len() ==> targets.has(#[trigger] list[j].idx()),
            forall|j: int, l: int| 0 <= j < l < list.len() ==> list[j].idx() < list[l].idx(),
            forall|i: int|
                #![trigger targets.has(i)]
                targets.has(i) ==> exists|j: int| 0 <= j < list.len() && list[j].idx() == i,
            appended(
                start,
                moves@,
                |m: Move|
                    emitted_from(s, targets, enemy, m) && exists|j: int|
                        0 <= j < k && list[j].idx() == m.dst(),
            ),
            n0 == start.len(),
            rk == (|m: Move| m.dst()),
            ranked(moves@.skip(n0), rk),
        decreases list.len() - k,
    {
        let target = list[k];
        let ghost before = moves@;
        let ghost had = |m: Move|
            emitted_from(s, targets, enemy, m) && exists|j: int|
                0 <= j < k && list[j].idx() == m.dst();
        let ghost has = |m: Move|
            emitted_from(s, targets, enemy, m) && exists|j: int|
                0 <= j < k + 1 && list[j].idx() == m.dst();
        let m0 = if enemy.contains(target) {
            Move::capture(source, target)
        } else {
            Move::quiet(source, target)
        };
        moves.push(m0);
        proof {
            assert forall|m: Move| #[trigger] has(m) <==> (had(m) || m == m0) by {
                m.lemma_parts();
                if has(m) && !had(m) {
                    let j = choose|j: int| 0 <= j < k + 1 && list[j].idx() == m.dst();
                    assert(j == k);
                    Move::lemma_equal(m, m0);
                }
                if had(m) {
                    let j = choose|j: int| 0 <= j < k && list[j].idx() == m.dst();
                    assert(0 <= j < k + 1 && list[j].idx() == m.dst());
                }
                if m == m0 {
                    assert(list[k as int].idx() == m.dst());
                }
            }
            assert forall|y: Move| had(y) implies y.dst() < list[k as int].idx() by {
                let j = choose|j: int| 0 <= j < k && list[j].idx() == y.dst();
                assert(list[j].idx() < list[k as int].idx());
            }
            lemma_appended_push(start, before, m0, had, has);
            lemma_ranked_push(start, before, m0, rk);
        }
        k += 1;
    }
    proof {
        lemma_appended_same(
            start,
            moves@,
            |m: Move|
                emitted_from(s, targets, enemy, m) && exists|j: int|
                    0 <= j < k && list[j].idx() == m.dst(),
            |m: Move| emitted_from(source.idx(), targets, enemy, m),
        );
    }
}

/// Whether `m` is a capture en passant that a pawn of the color may make.
pub open spec fn en_passant_move(pos: &Position, us: Color, m: Move) -> bool {
    &&& pos@.piece_on(m.src()) == Some(Piece { color: us, kind: PieceKind::Pawn })
    &&& m.flags() == 5
    &&& pos@.pawn_move(us, m)
}

/// Appends the en-passant captures of the color's pawns.
fn emit_en_passant(us: Color, pos: &Position, moves: &mut Vec<Move>)
    requires
        pos.wf(),
    ensures
        appended(old(moves)@, final(moves)@, |m: Move| en_passant_move(pos, us, m)),
        ranked(final(moves)@.skip(old(moves)@.len() as int), |m: Move| m.src()),
{
    let ghost start = moves@;
    let ghost n0 = start.len() as int;
    let ghost rk = |m: Move| m.src();
    assert(start.skip(n0) =~= Seq::<Move>::empty());
    let them = us.toggle();
    let ghost goal = |m: Move| en_passant_move(pos, us, m);
    let ep_square = match pos.en_passant_square() {
        Some(square) => square,
        None => {
            proof {
                lemma_appended_none(start, goal);
            }
            return ;
        },
    };
    let e = ep_square.as_u8();
    // The square must be free, and the pawn that passed over it must stand behind it.
    let behind = match us {
        Color::White => ep_square.offset(-1, 0),
        Color::Black => ep_square.offset(1, 0),
    };
    let open = match behind {
        Some(square) => {
            let there = pos.piece_at(square);
            pos.piece_at(ep_square).is_none() && match there {
                Some(piece) => piece.color == them && piece.kind == PieceKind::Pawn,
                None => false,
            }
        },
        None => false,
    };
    assert(open == pos@.en_passant_open(us, e as int));
    if !open {
        proof {
            lemma_appended_none(start, goal);
        }
        return ;
    }
    let reach = pawn_attacks(ep_square, them);
    let pawns = pos.pawns(us);
    let sources = reach.and(pawns);
    let list = sources.to_vec();
    let mut k: usize = 0;
    proof {
        lemma_appended_none(
            start,
            |m: Move|
                sources.has(m.src()) && m.dst() == e && m.flags() == 5 && exists|j: int|
                    0 <= j < 0 && list[j].idx() == m.src(),
        );
    }
    while k < list.len()
        invariant
            k <= list.len(),
            pos.wf(),
            e == ep_square.idx(),
            forall|j: int| 0 <= j < list.len() ==> sources.has(#[trigger] list[j].idx()),
            forall|j: int, l: int| 0 <= j < l < list.len() ==> list[j].idx() < list[l].idx(),
            forall|i: int|
                #![trigger sources.has(i)]
                sources.has(i) ==> exists|j: int| 0 <= j < list.len() && list[j].idx() == i,
            appended(
                start,
                moves@,
                |m: Move|
                    sources.has(m.src()) && m.dst() == e && m.flags() == 5 && exists|j: int|
                        0 <= j < k && list[j].idx() == m.src(),
            ),
            n0 == start.len(),
            rk == (|m: Move| m.src()),
            ranked(moves@.skip(n0), rk),
        decreases list.len() - k,
    {
        let source = list[k];
        let ghost before = moves@;
        let ghost had = |m: Move|
            sources.has(m.src()) && m.dst() == e && m.flags() == 5 && exists|j: int|
                0 <= j < k && list[j].idx() == m.src();
        let ghost has = |m: Move|
            sources.has(m.src()) && m.dst() == e && m.flags() == 5 && exists|j: int|
                0 <= j < k + 1 && list[j].idx() == m.src();
        let m0 = Move::en_passant(source, ep_square);
        moves.push(m0);
        proof {
            assert forall|m: Move| #[trigger] has(m) <==> (had(m) || m == m0) by {
                m.lemma_parts();
                if has(m) && !had(m) {
                    let j = choose|j: int| 0 <= j < k + 1 && list[j].idx() == m.src();
                    assert(j == k);
                    Move::lemma_equal(m, m0);
                }
                if had(m) {
                    let j = choose|j: int| 0 <= j < k && list[j].idx() == m.src();
                    assert(0 <= j < k + 1 && list[j].idx() == m.src());
                }
                if m == m0 {
                    assert(list[k as int].idx() == m.src());
                }
            }
            assert forall|y: Move| had(y) implies y.src() < list[k as int].idx() by {
                let j = choose|j: int| 0 <= j < k && list[j].idx() == y.src();
                assert(list[j].idx() < list[k as int].idx());
            }
            lemma_appended_push(start, before, m0, had, has);
            lemma_ranked_push(start, before, m0, rk);
        }
        k += 1;
    }
    proof {
        let done = |m: Move|
            sources.has(m.src()) && m.dst() == e && m.flags() == 5 && exists|j: int|
                0 <= j < k && list[j].idx() == m.src();
        assert forall|m: Move| #[trigger] done(m) <==> goal(m) by {
            m.lemma_parts();
            let s = m.src();
            assert(sources.has(s) == (reach.has(s) && pawns.has(s)));
            assert(reach.has(s) == crate::attacks::pawn_reach(e as int, them, s));
            assert(pawns.has(s) == (pos@.piece_on(s) == Some(
                Piece { color: us, kind: PieceKind::Pawn },
            )));
            if sources.has(s) && m.dst() == e && m.flags() == 5 {
                let j = choose|j: int| 0 <= j < list.len() && list[j].idx() == s;
                assert(0 <= j < k && list[j].idx() == m.src());
            }
        }
        lemma_appended_same(start, moves@, done, goal);
    }
}

/// The place of a kind of pawn move in the order of generation: single
/// pushes, double pushes, promotions with capture towards the a-file and
/// towards the h-file, promotions, captures towards the a-file and towards
/// the h-file, captures en passant.
pub open spec fn pawn_category(mv: Move) -> int {
    let f = mv.flags();
    let left = mv.dst() % 8 < mv.src() % 8;
    if f == 0 {
        0
    } else if f == 1 {
        1
    } else if f >= 12 {
        if left {
            2
        } else {
            3
        }
    } else if f >= 8 {
        4
    } else if f == 4 {
        if left {
            5
        } else {
            6
        }
    } else {
        7
    }
}

/// The lowest rank of the moves of the given place in the order of generation.
pub open spec fn rank_base(place: int) -> int {
    place * 65536
}

/// The rank of a move in the order of generation: the moves of the pawns
/// by their kind and destination, then the moves of the bishops, knights,
/// rooks and queens by source and destination, then the steps of the king by
/// destination, then castling on the kingside and on the queenside.
pub open spec fn generation_rank(m: PositionModel, mv: Move) -> int {
    match m.piece_on(mv.src()) {
        Some(p) => match p.kind {
            PieceKind::Pawn => rank_base(pawn_category(mv)) + if pawn_category(mv) == 7 {
                mv.src() * 8
            } else {
                target_rank(mv)
            },
            PieceKind::Bishop => rank_base(8) + mv.src() * 512 + mv.dst() * 8,
            PieceKind::Knight => rank_base(9) + mv.src() * 512 + mv.dst() * 8,
            PieceKind::Rook => rank_base(10) + mv.src() * 512 + mv.dst() * 8,
            PieceKind::Queen => rank_base(11) + mv.src() * 512 + mv.dst() * 8,
            PieceKind::King => if mv.flags() == 2 {
                rank_base(13)
            } else if mv.flags() == 3 {
                rank_base(14)
            } else {
                rank_base(12) + mv.dst() * 8
            },
        },
        None => 0,
    }
}

/// Joins what was appended in one step to what was appended before, in
/// the order of generation: the step appended moves of one place in that
/// order, which lies behind the places of all moves appended before.
proof fn lemma_generation_step(
    m: PositionModel,
    start: Seq<Move>,
    mid: Seq<Move>,
    after: Seq<Move>,
    had: spec_fn(Move) -> bool,
    now: spec_fn(Move) -> bool,
    local: spec_fn(Move) -> int,
    base: int,
)
    requires
        appended(start, mid, had),
        appended(mid, after, now),
        ranked(mid.skip(start.len() as int), |mv: Move| generation_rank(m, mv)),
        ranked(after.skip(mid.len() as int), local),
        forall|x: Move| #[trigger] had(x) ==> generation_rank(m, x) < base,
        forall|x: Move| #[trigger] now(x) ==> generation_rank(m, x) == base + local(x) && local(x) >= 0,
    ensures
        ranked(after.skip(start.len() as int), |mv: Move| generation_rank(m, mv)),
{
    let global = |mv: Move| generation_rank(m, mv);
    let part = after.skip(mid.len() as int);
    assert forall|x: Move, y: Move|
        #![trigger part.contains(x), part.contains(y)]
        part.contains(x) && part.contains(y) && local(x) < local(y) implies global(x) < global(
        y,
    ) by {
        assert(now(x) && now(y));
    }
    lemma_ranked_same(part, local, global);
    assert forall|x: Move, y: Move|
        #![trigger mid.skip(start.len() as int).contains(x), part.contains(y)]
        mid.skip(start.len() as int).contains(x) && part.contains(y) implies global(x) < global(
        y,
    ) by {
        assert(had(x) && now(y));
    }
    lemma_ranked_then(start, mid, after, global);
}

/// The eight steps in which the moves of the pawns are appended append
/// them in the order of generation.
proof fn lemma_pawn_order(
    m: PositionModel,
    us: Color,
    v: Seq<Seq<Move>>,
    p: Seq<spec_fn(Move) -> bool>,
)
    requires
        v.len() == 9,
        p.len() == 8,
        forall|i: int| 0 <= i < 8 ==> appended(#[trigger] v[i], v[i + 1], p[i]),
        forall|i: int|
            0 <= i < 7 ==> ranked(
                v[i + 1].skip((#[trigger] v[i]).len() as int),
                |mv: Move| target_rank(mv),
            ),
        ranked(v[8].skip(v[7].len() as int), |mv: Move| mv.src()),
        forall|i: int, x: Move|
            0 <= i < 8 && #[trigger] p[i](x) ==> m.piece_on(x.src()) == Some(
                Piece { color: us, kind: PieceKind::Pawn },
            ),
        forall|x: Move| #[trigger] p[0](x) ==> x.flags() == 0,
        forall|x: Move| #[trigger] p[1](x) ==> x.flags() == 1,
        forall|x: Move| #[trigger] p[2](x) ==> x.flags() >= 12 && x.dst() % 8 < x.src() % 8,
        forall|x: Move| #[trigger] p[3](x) ==> x.flags() >= 12 && x.dst() % 8 > x.src() % 8,
        forall|x: Move| #[trigger] p[4](x) ==> 8 <= x.flags() < 12,
        forall|x: Move| #[trigger] p[5](x) ==> x.flags() == 4 && x.dst() % 8 < x.src() % 8,
        forall|x: Move| #[trigger] p[6](x) ==> x.flags() == 4 && x.dst() % 8 > x.src() % 8,
        forall|x: Move| #[trigger] p[7](x) ==> x.flags() == 5,
    ensures
        ranked(v[8].skip(v[0].len() as int), |mv: Move| generation_rank(m, mv)),
{
    let by_target = |mv: Move| target_rank(mv);
    let by_source = |mv: Move| mv.src();
    let by_source8 = |mv: Move| mv.src() * 8;
    let nothing = |mv: Move| false;
    let start = v[0];
    assert forall|x: Move| 0 <= #[trigger] target_rank(x) < 65536 by {
        x.lemma_parts();
    }
    assert forall|x: Move| 0 <= #[trigger] x.src() < 64 by {
        x.lemma_parts();
    }
    lemma_appended_none(start, nothing);
    assert(start.skip(start.len() as int) =~= Seq::<Move>::empty());
    let q1 = p[0];
    let q2 = |x: Move| q1(x) || p[1](x);
    let q3 = |x: Move| q2(x) || p[2](x);
    let q4 = |x: Move| q3(x) || p[3](x);
    let q5 = |x: Move| q4(x) || p[4](x);
    let q6 = |x: Move| q5(x) || p[5](x);
    let q7 = |x: Move| q6(x) || p[6](x);
    assert(appended(v[0], v[1], p[0]));
    assert(appended(v[1], v[2], p[1]));
    assert(appended(v[2], v[3], p[2]));
    assert(appended(v[3], v[4], p[3]));
    assert(appended(v[4], v[5], p[4]));
    assert(appended(v[5], v[6], p[5]));
    assert(appended(v[6], v[7], p[6]));
    assert(appended(v[7], v[8], p[7]));
    assert(ranked(v[1].skip(v[0].len() as int), by_target));
    assert(ranked(v[2].skip(v[1].len() as int), by_target));
    assert(ranked(v[3].skip(v[2].len() as int), by_target));
    assert(ranked(v[4].skip(v[3].len() as int), by_target));
    assert(ranked(v[5].skip(v[4].len() as int), by_target));
    assert(ranked(v[6].skip(v[5].len() as int), by_target));
    assert(ranked(v[7].skip(v[6].len() as int), by_target));
    lemma_appended_then(start, v[1], v[2], q1, p[1], q2);
    lemma_appended_then(start, v[2], v[3], q2, p[2], q3);
    lemma_appended_then(start, v[3], v[4], q3, p[3], q4);
    lemma_appended_then(start, v[4], v[5], q4, p[4], q5);
    lemma_appended_then(start, v[5], v[6], q5, p[5], q6);
    lemma_appended_then(start, v[6], v[7], q6, p[6], q7);
    lemma_generation_step(m, start, start, v[1], nothing, p[0], by_target, rank_base(0));
    lemma_generation_step(m, start, v[1], v[2], q1, p[1], by_target, rank_base(1));
    lemma_generation_step(m, start, v[2], v[3], q2, p[2], by_target, rank_base(2));
    lemma_generation_step(m, start, v[3], v[4], q3, p[3], by_target, rank_base(3));
    lemma_generation_step(m, start, v[4], v[5], q4, p[4], by_target, rank_base(4));
    lemma_generation_step(m, start, v[5], v[6], q5, p[5], by_target, rank_base(5));
    lemma_generation_step(m, start, v[6], v[7], q6, p[6], by_target, rank_base(6));
    lemma_ranked_same(v[8].skip(v[7].len() as int), by_source, by_source8);
    lemma_generation_step(m, start, v[7], v[8], q7, p[7], by_source8, rank_base(7));
}

/// Whether `m` is a move that one of the color's pawns may make.
pub open spec fn pawn_moves(pos: &Position, us: Color, m: Move) -> bool {
    pos@.piece_on(m.src()) == Some(Piece { color: us, kind: PieceKind::Pawn }) && pos@.pawn_move(
        us,
        m,
    )
}

/// The sets of squares from which the moves of the pawns are generated.
pub struct PawnSets {
    pub their_pieces: SquareSet,
    pub empty_squares: SquareSet,
    pub our_pawns: SquareSet,
    pub rank_below_promo: SquareSet,
    pub pushers: SquareSet,
    pub single_pushes: SquareSet,
    pub second_rank: SquareSet,
    pub double_pushes: SquareSet,
    pub pawns_near_promo: SquareSet,
    pub up_left_promo: SquareSet,
    pub up_right_promo: SquareSet,
    pub up_promo: SquareSet,
    pub other_pawns: SquareSet,
    pub up_left_cap: SquareSet,
    pub up_right_cap: SquareSet,
}

/// The direction in which the color's pawns move.
pub open spec fn up_of(us: Color) -> Direction {
    match us {
        Color::White => Direction::North,
        Color::Black => Direction::South,
    }
}

/// The direction in which the color's pawns capture towards the a-file.
pub open spec fn up_left_of(us: Color) -> Direction {
    match us {
        Color::White => Direction::NorthWest,
        Color::Black => Direction::SouthWest,
    }
}

/// The direction in which the color's pawns capture towards the h-file.
pub open spec fn up_right_of(us: Color) -> Direction {
    match us {
        Color::White => Direction::NorthEast,
        Color::Black => Direction::SouthEast,
    }
}

impl PawnSets {
    /// Whether the sets are those of the color's pawns in the position.
    #[verifier::opaque]
    pub open spec fn of(self, m: PositionModel, us: Color) -> bool {
        let up = up_of(us);
        let up_left = up_left_of(us);
        let up_right = up_right_of(us);
        &&& forall|i: int|
            #![trigger self.their_pieces.has(i)]
            self.their_pieces.has(i) <==> m.enemy_on(us, i)
        &&& forall|i: int|
            #![trigger self.empty_squares.has(i)]
            self.empty_squares.has(i) <==> (0 <= i < 64 && !m.occupied(i))
        &&& forall|i: int| #![trigger self.our_pawns.has(i)] self.our_pawns.has(i) <==> m.pawn_on(us, i)
        &&& forall|i: int|
            #![trigger self.rank_below_promo.has(i)]
            self.rank_below_promo.has(i) <==> (0 <= i < 64 && i / 8 == crate::rules::last_step_rank(
                us,
            ))
        &&& forall|i: int|
            #![trigger self.second_rank.has(i)]
            self.second_rank.has(i) <==> (self.single_pushes.has(i) && i / 8
                == crate::rules::start_rank(us) + crate::attacks::forward(us))
        &&& forall|i: int|
            #![trigger self.pushers.has(i)]
            self.pushers.has(i) <==> (self.our_pawns.has(i) && !self.rank_below_promo.has(i))
        &&& forall|i: int|
            #![trigger self.single_pushes.has(i)]
            self.single_pushes.has(i) <==> (self.pushers.shifted_has(up, i)
                && self.empty_squares.has(i))
        &&& forall|i: int|
            #![trigger self.double_pushes.has(i)]
            self.double_pushes.has(i) <==> (self.second_rank.shifted_has(up, i)
                && self.empty_squares.has(i))
        &&& forall|i: int|
            #![trigger self.pawns_near_promo.has(i)]
            self.pawns_near_promo.has(i) <==> (self.our_pawns.has(i) && self.rank_below_promo.has(
                i,
            ))
        &&& forall|i: int|
            #![trigger self.up_left_promo.has(i)]
            self.up_left_promo.has(i) <==> (self.pawns_near_promo.shifted_has(up_left, i)
                && self.their_pieces.has(i))
        &&& forall|i: int|
            #![trigger self.up_right_promo.has(i)]
            self.up_right_promo.has(i) <==> (self.pawns_near_promo.shifted_has(up_right, i)
                && self.their_pieces.has(i))
        &&& forall|i: int|
            #![trigger self.up_promo.has(i)]
            self.up_promo.has(i) <==> (self.pawns_near_promo.shifted_has(up, i)
                && self.empty_squares.has(i))
        &&& forall|i: int|
            #![trigger self.other_pawns.has(i)]
            self.other_pawns.has(i) <==> (self.our_pawns.has(i) && !self.pawns_near_promo.has(i))
        &&& forall|i: int|
            #![trigger self.up_left_cap.has(i)]
            self.up_left_cap.has(i) <==> (self.other_pawns.shifted_has(up_left, i)
                && self.their_pieces.has(i))
        &&& forall|i: int|
            #![trigger self.up_right_cap.has(i)]
            self.up_right_cap.has(i) <==> (self.other_pawns.shifted_has(up_right, i)
                && self.their_pieces.has(i))
    }

    /// What the sets say of one move: which of the steps of generation
    /// appends it, if it is a move of a pawn that is no capture en passant.
    pub proof fn lemma_move(self, m: PositionModel, us: Color, mv: Move)
        requires
            self.of(m, us),
        ensures
            ({
                let fw = crate::attacks::forward(us);
                let mine = m.piece_on(mv.src()) == Some(Piece { color: us, kind: PieceKind::Pawn });
                let f = mv.flags();
                &&& emitted(self.single_pushes, -8 * fw, 0, false, mv) <==> (mine && f == 0
                    && m.pawn_move(us, mv))
                &&& emitted(self.double_pushes, -16 * fw, 1, false, mv) <==> (mine && f == 1
                    && m.pawn_move(us, mv))
                &&& (emitted(self.up_left_promo, -8 * fw + 1, 12, true, mv) || emitted(
                    self.up_right_promo,
                    -8 * fw - 1,
                    12,
                    true,
                    mv,
                )) <==> (mine && f >= 12 && m.pawn_move(us, mv))
                &&& emitted(self.up_promo, -8 * fw, 8, true, mv) <==> (mine && 8 <= f < 12
                    && m.pawn_move(us, mv))
                &&& (emitted(self.up_left_cap, -8 * fw + 1, 4, false, mv) || emitted(
                    self.up_right_cap,
                    -8 * fw - 1,
                    4,
                    false,
                    mv,
                )) <==> (mine && f == 4 && m.pawn_move(us, mv))
                &&& emitted(self.up_left_promo, -8 * fw + 1, 12, true, mv) ==> mv.dst() % 8
                    < mv.src() % 8
                &&& emitted(self.up_left_cap, -8 * fw + 1, 4, false, mv) ==> mv.dst() % 8
                    < mv.src() % 8
                &&& emitted(self.up_right_promo, -8 * fw - 1, 12, true, mv) ==> mv.dst() % 8
                    > mv.src() % 8
                &&& emitted(self.up_right_cap, -8 * fw - 1, 4, false, mv) ==> mv.dst() % 8
                    > mv.src() % 8
            }),
    {
        reveal(PawnSets::of);
        mv.lemma_parts();
        let fw = crate::attacks::forward(us);
        let s = mv.src();
        let d = mv.dst();
        let f = mv.flags();
        let up = up_of(us);
        if f == 1 && d == s + 16 * fw {
            assert(self.single_pushes.has(s + 8 * fw) <==> (self.pushers.shifted_has(up, s + 8 * fw)
                && self.empty_squares.has(s + 8 * fw)));
            assert(self.second_rank.has(s + 8 * fw) <==> (self.single_pushes.has(s + 8 * fw) && (s
                + 8 * fw) / 8 == crate::rules::start_rank(us) + fw));
        }
    }
}

/// Appends the moves of the color's pawns, each once: single and double
/// pushes, promotions with and without capture, captures, and captures en passant.
pub fn generate_pawn_moves(us: Color, pos: &Position, moves: &mut Vec<Move>)
    requires
        pos.wf(),
    ensures
        appended(old(moves)@, final(moves)@, |m: Move| pawn_moves(pos, us, m)),
        ranked(
            final(moves)@.skip(old(moves)@.len() as int),
            |mv: Move| generation_rank(pos@, mv),
        ),
{
    let ghost start = moves@;
    let them = us.toggle();
    let their_pieces = pos.pieces(them);
    let our_pieces = pos.pieces(us);
    let all_pieces = their_pieces.or(our_pieces);
    let empty_squares = all_pieces.not();
    let (up, up_left, up_right, forward, last_rank, second_rank): (
        Direction,
        Direction,
        Direction,
        i8,
        u8,
        u8,
    ) = if us == Color::White {
        (Direction::North, Direction::NorthWest, Direction::NorthEast, 1, 6, 2)
    } else {
        (Direction::South, Direction::SouthWest, Direction::SouthEast, -1, 1, 5)
    };
    let rank_below_promo = SquareSet::all().rank(Rank::new(last_rank));
    let our_pawns = pos.pawns(us);
    // Single and double pushes, not counting promotions.
    let pushers = our_pawns.and(rank_below_promo.not());
    let single_pushes = pushers.shift(up).and(empty_squares);
    let on_second_rank = single_pushes.rank(Rank::new(second_rank));
    let double_pushes = on_second_rank.shift(up).and(empty_squares);
    // Promotions, with and without capture.
    let pawns_near_promo = our_pawns.and(rank_below_promo);
    let up_left_promo = pawns_near_promo.shift(up_left).and(their_pieces);
    let up_right_promo = pawns_near_promo.shift(up_right).and(their_pieces);
    let up_promo = pawns_near_promo.shift(up).and(empty_squares);
    // Captures that do not promote.
    let other_pawns = our_pawns.and(pawns_near_promo.not());
    let up_left_cap = other_pawns.shift(up_left).and(their_pieces);
    let up_right_cap = other_pawns.shift(up_right).and(their_pieces);
    let ghost sets = PawnSets {
        their_pieces,
        empty_squares,
        our_pawns,
        rank_below_promo,
        pushers,
        single_pushes,
        second_rank: on_second_rank,
        double_pushes,
        pawns_near_promo,
        up_left_promo,
        up_right_promo,
        up_promo,
        other_pawns,
        up_left_cap,
        up_right_cap,
    };
    assert(sets.of(pos@, us)) by {
        reveal(PawnSets::of);
    }
    emit_targets(moves, single_pushes, -forward, 0, 0, false);
    let ghost v1 = moves@;
    emit_targets(moves, double_pushes, -2 * forward, 0, 1, false);
    let ghost v2 = moves@;
    emit_targets(moves, up_left_promo, -forward, 1, 12, true);
    let ghost v3 = moves@;
    emit_targets(moves, up_right_promo, -forward, -1, 12, true);
    let ghost v4 = moves@;
    emit_targets(moves, up_promo, -forward, 0, 8, true);
    let ghost v5 = moves@;
    emit_targets(moves, up_left_cap, -forward, 1, 4, false);
    let ghost v6 = moves@;
    emit_targets(moves, up_right_cap, -forward, -1, 4, false);
    let ghost v7 = moves@;
    emit_en_passant(us, pos, moves);
    proof {
        lemma_pawn_moves(pos, us, sets, seq![start, v1, v2, v3, v4, v5, v6, v7, moves@], forward);
    }
}

/// The eight steps in which the moves of the pawns are appended append,
/// each once and in the order of generation, the moves that the color's pawns may make.
proof fn lemma_pawn_moves(pos: &Position, us: Color, sets: PawnSets, v: Seq<Seq<Move>>, forward: i8)
    requires
        sets.of(pos@, us),
        forward == crate::attacks::forward(us),
        v.len() == 9,
        appended(
            v[0],
            v[1],
            |m: Move| emitted(sets.single_pushes, 8 * (-forward) + 0, 0, false, m),
        ),
        appended(
            v[1],
            v[2],
            |m: Move| emitted(sets.double_pushes, 8 * (-2 * forward) + 0, 1, false, m),
        ),
        appended(
            v[2],
            v[3],
            |m: Move| emitted(sets.up_left_promo, 8 * (-forward) + 1, 12, true, m),
        ),
        appended(
            v[3],
            v[4],
            |m: Move| emitted(sets.up_right_promo, 8 * (-forward) + -1, 12, true, m),
        ),
        appended(v[4], v[5], |m: Move| emitted(sets.up_promo, 8 * (-forward) + 0, 8, true, m)),
        appended(
            v[5],
            v[6],
            |m: Move| emitted(sets.up_left_cap, 8 * (-forward) + 1, 4, false, m),
        ),
        appended(
            v[6],
            v[7],
            |m: Move| emitted(sets.up_right_cap, 8 * (-forward) + -1, 4, false, m),
        ),
        appended(v[7], v[8], |m: Move| en_passant_move(pos, us, m)),
        forall|i: int|
            0 <= i < 7 ==> ranked(
                v[i + 1].skip((#[trigger] v[i]).len() as int),
                |mv: Move| target_rank(mv),
            ),
        ranked(v[8].skip(v[7].len() as int), |mv: Move| mv.src()),
    ensures
        appended(v[0], v[8], |m: Move| pawn_moves(pos, us, m)),
        ranked(v[8].skip(v[0].len() as int), |mv: Move| generation_rank(pos@, mv)),
{
    let start = v[0];
    let w1 = |m: Move| emitted(sets.single_pushes, 8 * (-forward) + 0, 0, false, m);
    let w2 = |m: Move| emitted(sets.double_pushes, 8 * (-2 * forward) + 0, 1, false, m);
    let w3 = |m: Move| emitted(sets.up_left_promo, 8 * (-forward) + 1, 12, true, m);
    let w4 = |m: Move| emitted(sets.up_right_promo, 8 * (-forward) + -1, 12, true, m);
    let w5 = |m: Move| emitted(sets.up_promo, 8 * (-forward) + 0, 8, true, m);
    let w6 = |m: Move| emitted(sets.up_left_cap, 8 * (-forward) + 1, 4, false, m);
    let w7 = |m: Move| emitted(sets.up_right_cap, 8 * (-forward) + -1, 4, false, m);
    let w8 = |m: Move| en_passant_move(pos, us, m);
    let q2 = |m: Move| w1(m) || w2(m);
    let q3 = |m: Move| q2(m) || w3(m);
    let q4 = |m: Move| q3(m) || w4(m);
    let q5 = |m: Move| q4(m) || w5(m);
    let q6 = |m: Move| q5(m) || w6(m);
    let q7 = |m: Move| q6(m) || w7(m);
    let q8 = |m: Move| q7(m) || w8(m);
    let goal = |m: Move| pawn_moves(pos, us, m);
    let pawn = Piece { color: us, kind: PieceKind::Pawn };
    assert forall|m: Move|
        (#[trigger] q8(m) <==> goal(m)) && (w1(m) ==> m.flags() == 0 && goal(m)) && (w2(m)
            ==> m.flags() == 1 && goal(m)) && (w3(m) ==> m.flags() >= 12 && goal(m) && m.dst() % 8
            < m.src() % 8) && (w4(m) ==> m.flags() >= 12 && goal(m) && m.dst() % 8 > m.src() % 8)
            && (w5(m) ==> 8 <= m.flags() < 12 && goal(m)) && (w6(m) ==> m.flags() == 4 && goal(m)
            && m.dst() % 8 < m.src() % 8) && (w7(m) ==> m.flags() == 4 && goal(m) && m.dst() % 8
            > m.src() % 8) && (w8(m) ==> m.flags() == 5 && goal(m)) by {
        sets.lemma_move(pos@, us, m);
        m.lemma_parts();
    }
    lemma_appended_then(start, v[1], v[2], w1, w2, q2);
    lemma_appended_then(start, v[2], v[3], q2, w3, q3);
    lemma_appended_then(start, v[3], v[4], q3, w4, q4);
    lemma_appended_then(start, v[4], v[5], q4, w5, q5);
    lemma_appended_then(start, v[5], v[6], q5, w6, q6);
    lemma_appended_then(start, v[6], v[7], q6, w7, q7);
    lemma_appended_then(start, v[7], v[8], q7, w8, q8);
    lemma_appended_same(start, v[8], q8, goal);
    let p = seq![w1, w2, w3, w4, w5, w6, w7, w8];
    assert forall|i: int, x: Move| 0 <= i < 8 && #[trigger] p[i](x) implies pos@.piece_on(x.src())
        == Some(pawn) by {
        assert(q8(x));
    }
    assert forall|x: Move| #[trigger] p[0](x) implies x.flags() == 0 by {
        assert(q8(x));
    }
    assert forall|x: Move| #[trigger] p[1](x) implies x.flags() == 1 by {
        assert(q8(x));
    }
    assert forall|x: Move| #[trigger] p[2](x) implies x.flags() >= 12 && x.dst() % 8 < x.src()
        % 8 by {
        assert(q8(x));
    }
    assert forall|x: Move| #[trigger] p[3](x) implies x.flags() >= 12 && x.dst() % 8 > x.src()
        % 8 by {
        assert(q8(x));
    }
    assert forall|x: Move| #[trigger] p[4](x) implies 8 <= x.flags() < 12 by {
        assert(q8(x));
    }
    assert forall|x: Move| #[trigger] p[5](x) implies x.flags() == 4 && x.dst() % 8 < x.src()
        % 8 by {
        assert(q8(x));
    }
    assert forall|x: Move| #[trigger] p[6](x) implies x.flags() == 4 && x.dst() % 8 > x.src()
        % 8 by {
        assert(q8(x));
    }
    assert forall|x: Move| #[trigger] p[7](x) implies x.flags() == 5 by {
        assert(q8(x));
    }
    lemma_pawn_order(pos@, us, v, p);
}

/// Joins what was appended in one step to what was appended before, in
/// the order of generation: the ranks of the step lie above those before.
proof fn lemma_generation_join(
    m: PositionModel,
    start: Seq<Move>,
    mid: Seq<Move>,
    after: Seq<Move>,
    had: spec_fn(Move) -> bool,
    now: spec_fn(Move) -> bool,
    bound: int,
)
    requires
        appended(start, mid, had),
        appended(mid, after, now),
        ranked(mid.skip(start.len() as int), |mv: Move| generation_rank(m, mv)),
        ranked(after.skip(mid.len() as int), |mv: Move| generation_rank(m, mv)),
        forall|x: Move| #[trigger] had(x) ==> generation_rank(m, x) < bound,
        forall|x: Move| #[trigger] now(x) ==> generation_rank(m, x) >= bound,
    ensures
        ranked(after.skip(start.len() as int), |mv: Move| generation_rank(m, mv)),
{
    let global = |mv: Move| generation_rank(m, mv);
    let part = after.skip(mid.len() as int);
    assert forall|x: Move, y: Move|
        #![trigger mid.skip(start.len() as int).contains(x), part.contains(y)]
        mid.skip(start.len() as int).contains(x) && part.contains(y) implies global(x) < global(
        y,
    ) by {
        assert(had(x) && now(y));
    }
    lemma_ranked_then(start, mid, after, global);
}

/// The place of the moves of a kind of piece in the order of generation.
pub open spec fn kind_place(kind: PieceKind) -> int {
    match kind {
        PieceKind::Bishop => 8,
        PieceKind::Knight => 9,
        PieceKind::Rook => 10,
        PieceKind::Queen => 11,
        _ => 12,
    }
}

/// Whether `m` is a move that one of the color's pieces of the given kind may make.
pub open spec fn kind_moves(pos: &Position, us: Color, kind: PieceKind, m: Move) -> bool {
    pos@.piece_on(m.src()) == Some(Piece { color: us, kind }) && pos@.piece_move(us, kind, m)
}

/// Appends the moves of the color's pieces of the given kind, which is
/// neither pawn nor king, each once: to every square that the piece attacks
/// and that holds no piece of its own color.
pub fn generate_moves_for_kind(us: Color, pos: &Position, kind: PieceKind, moves: &mut Vec<Move>)
    requires
        pos.wf(),
        kind != PieceKind::King,
        kind != PieceKind::Pawn,
    ensures
        appended(old(moves)@, final(moves)@, |m: Move| kind_moves(pos, us, kind, m)),
        ranked(
            final(moves)@.skip(old(moves)@.len() as int),
            |mv: Move| generation_rank(pos@, mv),
        ),
{
    let ghost start = moves@;
    let ghost model = pos@;
    assert(start.skip(start.len() as int) =~= Seq::<Move>::empty());
    let ghost piece = Piece { color: us, kind };
    let ours = pos.pieces(us);
    let all_pieces = pos.pieces(Color::White).or(pos.pieces(Color::Black));
    let enemy_pieces = pos.pieces(us.toggle());
    let free = ours.not();
    proof {
        assert(all_pieces@ =~= pos@.occupancy());
    }
    let set = pos.pieces_of_kind(us, kind);
    let list = set.to_vec();
    proof {
        assert forall|i: int| pos@.piece_on(i) == Some(piece) implies exists|j: int|
            0 <= j < list.len() && #[trigger] list[j].idx() == i by {
            assert(set.has(i));
        }
        lemma_appended_none(
            start,
            |m: Move|
                kind_moves(pos, us, kind, m) && exists|j: int|
                    0 <= j < 0 && list[j].idx() == m.src(),
        );
    }
    let mut k: usize = 0;
    while k < list.len()
        invariant
            k <= list.len(),
            pos.wf(),
            piece == (Piece { color: us, kind }),
            all_pieces@ == pos@.occupancy(),
            forall|i: int|
                #![trigger free.has(i)]
                free.has(i) <==> (0 <= i < 64 && !pos@.friend_on(us, i)),
            forall|i: int|
                #![trigger enemy_pieces.has(i)]
                enemy_pieces.has(i) <==> pos@.enemy_on(us, i),
            forall|j: int|
                0 <= j < list.len() ==> pos@.piece_on(#[trigger] list[j].idx()) == Some(piece),
            forall|j: int, l: int| 0 <= j < l < list.len() ==> list[j].idx() < list[l].idx(),
            forall|i: int|
                pos@.piece_on(i) == Some(piece) ==> exists|j: int|
                    0 <= j < list.len() && #[trigger] list[j].idx() == i,
            appended(
                start,
                moves@,
                |m: Move|
                    kind_moves(pos, us, kind, m) && exists|j: int|
                        0 <= j < k && list[j].idx() == m.src(),
            ),
            model == pos@,
            kind != PieceKind::King,
            kind != PieceKind::Pawn,
            ranked(moves@.skip(start.len() as int), |mv: Move| generation_rank(model, mv)),
        decreases list.len() - k,
    {
        let source = list[k];
        let ghost before = moves@;
        let ghost had = |m: Move|
            kind_moves(pos, us, kind, m) && exists|j: int| 0 <= j < k && list[j].idx() == m.src();
        let ghost has = |m: Move|
            kind_moves(pos, us, kind, m) && exists|j: int|
                0 <= j < k + 1 && list[j].idx() == m.src();
        let targets = attacks(kind, us, source, all_pieces).and(free);
        emit_from(moves, source, targets, enemy_pieces);
        proof {
            let now = |m: Move| emitted_from(source.idx(), targets, enemy_pieces, m);
            assert forall|m: Move| !(#[trigger] had(m) && now(m)) by {
                if had(m) && now(m) {
                    let j = choose|j: int| 0 <= j < k && list[j].idx() == m.src();
                    assert(list[j].idx() < list[k as int].idx());
                }
            }
            assert forall|m: Move| #[trigger] has(m) <==> (had(m) || now(m)) by {
                m.lemma_parts();
                if now(m) {
                    assert(list[k as int].idx() == m.src());
                }
                if had(m) {
                    let j = choose|j: int| 0 <= j < k && list[j].idx() == m.src();
                    assert(0 <= j < k + 1 && list[j].idx() == m.src());
                }
                if has(m) && !had(m) {
                    let j = choose|j: int| 0 <= j < k + 1 && list[j].idx() == m.src();
                    assert(j == k);
                }
            }
            lemma_appended_then(start, before, moves@, had, now, has);
            // The order of generation.
            let sx = source.idx();
            let by_dst = |m: Move| m.dst();
            let by_dst8 = |m: Move| m.dst() * 8;
            assert forall|m: Move| 0 <= #[trigger] m.dst() < 64 by {
                m.lemma_parts();
            }
            lemma_ranked_same(moves@.skip(before.len() as int), by_dst, by_dst8);
            assert forall|x: Move| #[trigger] had(x) implies generation_rank(model, x) < rank_base(
                kind_place(kind),
            ) + sx * 512 by {
                let j = choose|j: int| 0 <= j < k && list[j].idx() == x.src();
                assert(list[j].idx() < list[k as int].idx());
            }
            lemma_generation_step(
                model,
                start,
                before,
                moves@,
                had,
                now,
                by_dst8,
                rank_base(kind_place(kind)) + sx * 512,
            );
        }
        k += 1;
    }
    proof {
        let done = |m: Move|
            kind_moves(pos, us, kind, m) && exists|j: int| 0 <= j < k && list[j].idx() == m.src();
        let goal = |m: Move| kind_moves(pos, us, kind, m);
        assert forall|m: Move| #[trigger] done(m) <==> goal(m) by {
            if goal(m) {
                let j = choose|j: int| 0 <= j < list.len() && list[j].idx() == m.src();
                assert(0 <= j < k && list[j].idx() == m.src());
            }
        }
        lemma_appended_same(start, moves@, done, goal);
    }
}

/// Whether `m` is a move that the color's king may make.
pub open spec fn king_moves(pos: &Position, us: Color, m: Move) -> bool {
    pos@.piece_on(m.src()) == Some(Piece { color: us, kind: PieceKind::King }) && pos@.king_move(
        us,
        m,
    )
}

/// Appends the moves of the color's king, each once: its steps, and the
/// castling moves that the position allows.
pub fn generate_king_moves(us: Color, pos: &Position, moves: &mut Vec<Move>)
    requires
        pos.wf(),
    ensures
        appended(old(moves)@, final(moves)@, |m: Move| king_moves(pos, us, m)),
        ranked(
            final(moves)@.skip(old(moves)@.len() as int),
            |mv: Move| generation_rank(pos@, mv),
        ),
{
    let ghost start = moves@;
    let ghost model = pos@;
    let ghost global = |mv: Move| generation_rank(model, mv);
    assert(start.skip(start.len() as int) =~= Seq::<Move>::empty());
    let ghost piece = Piece { color: us, kind: PieceKind::King };
    let ghost goal = |m: Move| king_moves(pos, us, m);
    let them = us.toggle();
    let enemy_pieces = pos.pieces(them);
    let allied_pieces = pos.pieces(us);
    let pieces = enemy_pieces.or(allied_pieces);
    let king = match pos.king(us) {
        Some(king) => king,
        None => {
            proof {
                lemma_appended_none(start, goal);
            }
            return ;
        },
    };
    let ghost k = king.idx();
    let kk = king.as_u8();
    assert(pos@.is_king_square(us, k));
    proof {
        assert(pieces@ =~= pos@.occupancy());
        assert forall|j: int| pos@.is_king_square(us, j) implies j == k by {}
    }
    let targets = king_attacks(king).and(allied_pieces.not());
    emit_from(moves, king, targets, enemy_pieces);
    let ghost v1 = moves@;
    let ghost steps = |m: Move| emitted_from(king.idx(), targets, enemy_pieces, m);
    proof {
        let by_dst = |m: Move| m.dst();
        let by_dst8 = |m: Move| m.dst() * 8;
        let nothing = |m: Move| false;
        assert forall|m: Move| 0 <= #[trigger] m.dst() < 64 by {
            m.lemma_parts();
        }
        lemma_appended_none(start, nothing);
        lemma_ranked_same(v1.skip(start.len() as int), by_dst, by_dst8);
        lemma_generation_step(model, start, start, v1, nothing, steps, by_dst8, rank_base(12));
    }
    // No castling out of check, nor with the king away from home.
    let at_home = kk == king_start(us).as_u8();
    let in_check = pos.is_check(us);
    let mut kingside = false;
    let mut queenside = false;
    if at_home && !in_check {
        if pos.can_castle_kingside(us) {
            let rook = pos.piece_at(kingside_rook(us));
            let rook_there = match rook {
                Some(found) => found.kind == PieceKind::Rook && found.color == us,
                None => false,
            };
            if rook_there {
                let one = king.offset(0, 1).unwrap();
                let two = king.offset(0, 2).unwrap();
                if !pieces.contains(one) && !pieces.contains(two) {
                    // The king may not cross an attacked square.
                    let a1 = pos.squares_attacking(them, one);
                    let a2 = pos.squares_attacking(them, two);
                    proof {
                        a1.lemma_view();
                        a2.lemma_view();
                        lemma_attacked(pos, them, one.idx(), a1);
                        lemma_attacked(pos, them, two.idx(), a2);
                    }
                    if a1.is_empty() && a2.is_empty() {
                        kingside = true;
                    }
                }
            }
        }
        if pos.can_castle_queenside(us) {
            let rook = pos.piece_at(queenside_rook(us));
            let rook_there = match rook {
                Some(found) => found.kind == PieceKind::Rook && found.color == us,
                None => false,
            };
            if rook_there {
                let one = king.offset(0, -1).unwrap();
                let two = king.offset(0, -2).unwrap();
                let three = king.offset(0, -3).unwrap();
                if !pieces.contains(one) && !pieces.contains(two) && !pieces.contains(three) {
                    // The rook crosses the third square, the king does not.
                    let a1 = pos.squares_attacking(them, one);
                    let a2 = pos.squares_attacking(them, two);
                    proof {
                        a1.lemma_view();
                        a2.lemma_view();
                        lemma_attacked(pos, them, one.idx(), a1);
                        lemma_attacked(pos, them, two.idx(), a2);
                    }
                    if a1.is_empty() && a2.is_empty() {
                        queenside = true;
                    }
                }
            }
        }
    }
    assert(kingside == pos@.may_castle_kingside(us));
    assert(queenside == pos@.may_castle_queenside(us));
    let ghost short = |m: Move| kingside && m == Move::pack(k, k + 2, 2);
    let ghost long = |m: Move| queenside && m == Move::pack(k, k - 2, 3);
    let ghost q2 = |m: Move| steps(m) || short(m);
    let ghost q3 = |m: Move| q2(m) || long(m);
    if kingside {
        let m0 = Move::kingside_castle(king, king.offset(0, 2).unwrap());
        proof {
            assert(!steps(m0));
            assert forall|m: Move| #[trigger] q2(m) <==> (steps(m) || m == m0) by {}
            lemma_appended_push(start, v1, m0, steps, q2);
            assert forall|y: Move| #[trigger] v1.skip(start.len() as int).contains(y) implies global(
                y,
            ) < global(m0) by {
                assert(steps(y));
                y.lemma_parts();
            }
            lemma_ranked_push(start, v1, m0, global);
        }
        moves.push(m0);
    } else {
        proof {
            lemma_appended_same(start, v1, steps, q2);
        }
    }
    let ghost v2 = moves@;
    if queenside {
        let m0 = Move::queenside_castle(king, king.offset(0, -2).unwrap());
        proof {
            assert(!q2(m0)) by {
                Move::lemma_pack(k, k + 2, 2);
            }
            assert forall|m: Move| #[trigger] q3(m) <==> (q2(m) || m == m0) by {}
            lemma_appended_push(start, v2, m0, q2, q3);
            assert forall|y: Move| #[trigger] v2.skip(start.len() as int).contains(y) implies global(
                y,
            ) < global(m0) by {
                assert(q2(y));
                y.lemma_parts();
                if kingside {
                    Move::lemma_pack(k, k + 2, 2);
                }
            }
            lemma_ranked_push(start, v2, m0, global);
        }
        moves.push(m0);
    } else {
        proof {
            lemma_appended_same(start, v2, q2, q3);
        }
    }
    proof {
        assert forall|m: Move| #[trigger] q3(m) <==> goal(m) by {
            m.lemma_parts();
            if kingside {
                Move::lemma_pack(k, k + 2, 2);
            }
            if queenside {
                Move::lemma_pack(k, k - 2, 3);
            }
            if m.flags() == 2 && goal(m) {
                Move::lemma_equal(m, Move::pack(k, k + 2, 2));
            }
            if m.flags() == 3 && goal(m) {
                Move::lemma_equal(m, Move::pack(k, k - 2, 3));
            }
        }
        lemma_appended_same(start, moves@, q3, goal);
    }
}

/// The set of attackers of a square is empty exactly when the square is not attacked.
proof fn lemma_attacked(pos: &Position, color: Color, t: int, attackers: SquareSet)
    requires
        forall|s: int|
            #![trigger attackers.has(s)]
            attackers.has(s) <==> pos@.attacks_square(color, s, t),
    ensures
        attackers.none() <==> !pos@.attacked_by(color, t),
{
    if pos@.attacked_by(color, t) {
        let s = choose|s: int| #[trigger] pos@.attacks_square(color, s, t);
        assert(attackers.has(s));
    }
    if !attackers.none() {
        let s = choose|s: int| attackers.has(s);
        assert(pos@.attacks_square(color, s, t));
    }
}

/// Whether the list holds the pseudo-legal moves of the color, each once,
/// in the order of generation.
pub open spec fn is_generated(m: PositionModel, us: Color, list: Seq<Move>) -> bool {
    &&& list.no_duplicates()
    &&& forall|x: Move| #[trigger] list.contains(x) <==> m.pseudo_legal(us, x)
    &&& ranked(list, |mv: Move| generation_rank(m, mv))
}

/// Every move there is, by its sixteen bits.
pub open spec fn all_moves() -> Seq<Move> {
    Seq::new(65536, |i: int| Move::of_raw(i))
}

/// The number by which the moves of a position are ordered: the rank in
/// the order of generation first, and then the sixteen bits.
#[verifier::opaque]
pub open spec fn generation_key(m: PositionModel, mv: Move) -> int {
    generation_rank(m, mv) * 65536 + mv.raw()
}

/// Whether a move does not stand behind another in the order of generation.
pub open spec fn earlier(m: PositionModel) -> spec_fn(Move, Move) -> bool {
    |a: Move, b: Move| generation_key(m, a) <= generation_key(m, b)
}

/// The pseudo-legal moves of the color, each once, in the order of generation.
pub open spec fn generated(m: PositionModel, us: Color) -> Seq<Move> {
    all_moves().filter(|x: Move| m.pseudo_legal(us, x)).sort_by(earlier(m))
}

/// What is kept of a list without duplicates is without duplicates, and
/// holds the moves of the list of which the predicate holds.
pub proof fn lemma_filter_keeps(list: Seq<Move>, which: spec_fn(Move) -> bool)
    requires
        list.no_duplicates(),
    ensures
        list.filter(which).no_duplicates(),
        forall|x: Move| #[trigger] list.filter(which).contains(x) <==> list.contains(x) && which(x),
    decreases list.len(),
{
    reveal(Seq::filter);
    if list.len() > 0 {
        let rest = list.drop_last();
        let last = list.last();
        let kept = rest.filter(which);
        lemma_filter_keeps(rest, which);
        assert(list =~= rest.push(last));
        lemma_push_contains(rest, last);
        lemma_push_contains(kept, last);
        assert(!rest.contains(last)) by {
            if rest.contains(last) {
                let i = choose|i: int| 0 <= i < rest.len() && rest[i] == last;
                assert(list[i] == list[list.len() - 1]);
            }
        }
        if which(last) {
            let more = kept.push(last);
            assert(list.filter(which) == more);
            assert forall|i: int, j: int| 0 <= i < more.len() && 0 <= j < more.len() && i
                != j implies more[i] != more[j] by {
                if i == kept.len() {
                    assert(kept.contains(more[j]));
                } else if j == kept.len() {
                    assert(kept.contains(more[i]));
                }
            }
        } else {
            assert(list.filter(which) == kept);
        }
    }
}

/// Two moves with the same number in the order of generation are the same move.
pub proof fn lemma_key_tells(m: PositionModel, a: Move, b: Move)
    requires
        generation_key(m, a) == generation_key(m, b),
    ensures
        a == b,
{
    reveal(generation_key);
    let ra = generation_rank(m, a);
    let rb = generation_rank(m, b);
    a.lemma_of_raw();
    b.lemma_of_raw();
    assert(ra * 65536 + a.raw() == rb * 65536 + b.raw());
    assert(ra == rb);
    assert(a.raw() == b.raw());
}

/// The order of generation is an order: of two moves one stands first.
pub proof fn lemma_earlier_orders(m: PositionModel)
    ensures
        vstd::relations::total_ordering(earlier(m)),
{
    let leq = earlier(m);
    assert forall|a: Move, b: Move| #[trigger] leq(a, b) && #[trigger] leq(b, a) implies a == b by {
        lemma_key_tells(m, a, b);
    }
    assert(vstd::relations::antisymmetric(leq));
    assert(vstd::relations::reflexive(leq));
    assert(vstd::relations::transitive(leq));
    assert(vstd::relations::strongly_connected(leq));
}

/// The list of the generated moves holds the pseudo-legal moves of the
/// color, each once, in the order of generation.
pub proof fn lemma_generated_moves(m: PositionModel, us: Color)
    ensures
        generated(m, us).no_duplicates(),
        forall|x: Move| #[trigger] generated(m, us).contains(x) <==> m.pseudo_legal(us, x),
        vstd::relations::sorted_by(generated(m, us), earlier(m)),
{
    broadcast use vstd::seq_lib::group_to_multiset_ensures;

    let which = |x: Move| m.pseudo_legal(us, x);
    let all = all_moves();
    let kept = all.filter(which);
    let sorted = generated(m, us);
    assert forall|i: int, j: int| 0 <= i < all.len() && 0 <= j < all.len() && i != j implies all[i]
        != all[j] by {
        Move::lemma_raw_of(i);
        Move::lemma_raw_of(j);
    }
    lemma_filter_keeps(all, which);
    lemma_earlier_orders(m);
    kept.lemma_sort_by_ensures(earlier(m));
    kept.lemma_multiset_has_no_duplicates();
    sorted.lemma_multiset_has_no_duplicates_conv();
    assert forall|x: Move| #[trigger] sorted.contains(x) <==> m.pseudo_legal(us, x) by {
        assert(sorted.contains(x) <==> kept.contains(x)) by {
            assert(sorted.to_multiset().count(x) == kept.to_multiset().count(x));
        }
        if m.pseudo_legal(us, x) {
            x.lemma_of_raw();
            assert(all[x.raw()] == x);
            assert(all.contains(x));
        }
    }
}

/// There is one list of the pseudo-legal moves in the order of generation.
pub proof fn lemma_generated(m: PositionModel, us: Color, list: Seq<Move>)
    requires
        is_generated(m, us, list),
    ensures
        list == generated(m, us),
{
    let other = generated(m, us);
    let rank = |mv: Move| generation_rank(m, mv);
    lemma_generated_moves(m, us);
    assert forall|i: int, j: int| 0 <= i < j < other.len() implies rank(other[i]) < rank(
        other[j],
    ) by {
        reveal(generation_key);
        let x = other[i];
        let y = other[j];
        assert(earlier(m)(x, y));
        assert(other.contains(x) && other.contains(y));
        assert(list.contains(x) && list.contains(y));
        let a = choose|a: int| 0 <= a < list.len() && list[a] == x;
        let b = choose|b: int| 0 <= b < list.len() && list[b] == y;
        x.lemma_of_raw();
        y.lemma_of_raw();
        if a < b {
            assert(rank(list[a]) < rank(list[b]));
        } else if b < a {
            assert(rank(list[b]) < rank(list[a]));
        }
    }
    lemma_ranked_unique(list, other, rank);
}

/// Appends all pseudo-legal moves of the color, each once: those of the
/// pawns first, then of the bishops, knights, rooks and queens, then of the king.
pub fn generate_moves(us: Color, pos: &Position, moves: &mut Vec<Move>)
    requires
        pos.wf(),
    ensures
        appended(old(moves)@, final(moves)@, |m: Move| pos@.pseudo_legal(us, m)),
        forall|m: Move|
            #![trigger final(moves)@.contains(m)]
            final(moves)@.contains(m) <==> (old(moves)@.contains(m) || pos@.pseudo_legal(us, m)),
        ranked(
            final(moves)@.skip(old(moves)@.len() as int),
            |mv: Move| generation_rank(pos@, mv),
        ),
        final(moves)@ == old(moves)@ + generated(pos@, us),
{
    let ghost start = moves@;
    generate_pawn_moves(us, pos, moves);
    let ghost v1 = moves@;
    generate_moves_for_kind(us, pos, PieceKind::Bishop, moves);
    let ghost v2 = moves@;
    generate_moves_for_kind(us, pos, PieceKind::Knight, moves);
    let ghost v3 = moves@;
    generate_moves_for_kind(us, pos, PieceKind::Rook, moves);
    let ghost v4 = moves@;
    generate_moves_for_kind(us, pos, PieceKind::Queen, moves);
    let ghost v5 = moves@;
    generate_king_moves(us, pos, moves);
    proof {
        let w1 = |m: Move| pawn_moves(pos, us, m);
        let w2 = |m: Move| kind_moves(pos, us, PieceKind::Bishop, m);
        let w3 = |m: Move| kind_moves(pos, us, PieceKind::Knight, m);
        let w4 = |m: Move| kind_moves(pos, us, PieceKind::Rook, m);
        let w5 = |m: Move| kind_moves(pos, us, PieceKind::Queen, m);
        let w6 = |m: Move| king_moves(pos, us, m);
        let q2 = |m: Move| w1(m) || w2(m);
        let q3 = |m: Move| q2(m) || w3(m);
        let q4 = |m: Move| q3(m) || w4(m);
        let q5 = |m: Move| q4(m) || w5(m);
        let q6 = |m: Move| q5(m) || w6(m);
        let goal = |m: Move| pos@.pseudo_legal(us, m);
        lemma_appended_then(start, v1, v2, w1, w2, q2);
        lemma_appended_then(start, v2, v3, q2, w3, q3);
        lemma_appended_then(start, v3, v4, q3, w4, q4);
        lemma_appended_then(start, v4, v5, q4, w5, q5);
        lemma_appended_then(start, v5, moves@, q5, w6, q6);
        assert forall|m: Move| #[trigger] q6(m) <==> goal(m) by {
            match pos@.piece_on(m.src()) {
                Some(p) => {},
                None => {},
            }
        }
        lemma_appended_same(start, moves@, q6, goal);
        lemma_appended_contains(start, moves@, goal);
        // The order of generation.
        let model = pos@;
        assert forall|x: Move|
            0 <= #[trigger] generation_rank(model, x) && (w1(x) ==> generation_rank(model, x)
                < rank_base(8)) && (w2(x) ==> rank_base(8) <= generation_rank(model, x)
                < rank_base(9)) && (w3(x) ==> rank_base(9) <= generation_rank(model, x)
                < rank_base(10)) && (w4(x) ==> rank_base(10) <= generation_rank(model, x)
                < rank_base(11)) && (w5(x) ==> rank_base(11) <= generation_rank(model, x)
                < rank_base(12)) && (w6(x) ==> rank_base(12) <= generation_rank(model, x)) by {
            x.lemma_parts();
        }
        lemma_generation_join(model, start, v1, v2, w1, w2, rank_base(8));
        lemma_generation_join(model, start, v2, v3, q2, w3, rank_base(9));
        lemma_generation_join(model, start, v3, v4, q3, w4, rank_base(10));
        lemma_generation_join(model, start, v4, v5, q4, w5, rank_base(11));
        lemma_generation_join(model, start, v5, moves@, q5, w6, rank_base(12));
        lemma_generated(model, us, moves@.skip(start.len() as int));
        assert(moves@ =~= start + moves@.skip(start.len() as int));
    }
}

/// How many moves there are of which the predicate holds.
pub open spec fn count_moves(which: spec_fn(Move) -> bool) -> nat {
    count_where(|raw: int| which(Move::of_raw(raw)), 65536)
}

/// How many legal moves the position has.
pub open spec fn legal_count(m: PositionModel) -> nat {
    count_moves(|x: Move| m.legal(x))
}

/// A list that holds, each once, the moves of which a predicate holds is
/// as long as there are such moves.
pub proof fn lemma_list_counts(list: Seq<Move>, which: spec_fn(Move) -> bool)
    requires
        list.no_duplicates(),
        forall|x: Move| #[trigger] list.contains(x) <==> which(x),
    ensures
        list.len() == count_moves(which),
        list.len() <= 65536,
    decreases list.len(),
{
    let p = |raw: int| which(Move::of_raw(raw));
    lemma_count_where_same(p, p, 65536);
    if list.len() == 0 {
        assert forall|i: int| 0 <= i < 65536 implies !#[trigger] p(i) by {
            assert(!list.contains(Move::of_raw(i)));
        }
        lemma_count_where_none(p, 65536);
    } else {
        let x = list.last();
        let rest = list.drop_last();
        let fewer = |y: Move| which(y) && y != x;
        let q = |raw: int| fewer(Move::of_raw(raw));
        assert forall|y: Move| #[trigger] rest.contains(y) <==> fewer(y) by {
            if rest.contains(y) {
                let i = choose|i: int| 0 <= i < rest.len() && rest[i] == y;
                assert(list[i] == y);
                assert(list.contains(y));
            }
            if fewer(y) {
                assert(list.contains(y));
                let i = choose|i: int| 0 <= i < list.len() && list[i] == y;
                assert(rest[i] == y);
            }
        }
        lemma_list_counts(rest, fewer);
        x.lemma_of_raw();
        assert(list.contains(x)) by {
            assert(list[list.len() - 1] == x);
        }
        assert forall|i: int| 0 <= i < 65536 && i != x.raw() implies (#[trigger] p(i)
            <==> #[trigger] q(i)) by {
            Move::lemma_raw_of(i);
        }
        lemma_count_where_one_more(p, q, x.raw(), 65536);
    }
}

/// The legal moves of the side to move, each once, in the order of generation.
pub open spec fn legal_list(m: PositionModel) -> Seq<Move> {
    generated(m, m.side).filter(|x: Move| m.leaves_king_safe(x))
}

/// The list of the legal moves holds the legal moves of the side to move,
/// each once: as many as there are.
pub proof fn lemma_legal_list(m: PositionModel)
    ensures
        legal_list(m).no_duplicates(),
        forall|x: Move| #[trigger] legal_list(m).contains(x) <==> m.legal(x),
        legal_list(m).len() == legal_count(m),
{
    lemma_generated_moves(m, m.side);
    lemma_filter_keeps(generated(m, m.side), |x: Move| m.leaves_king_safe(x));
    lemma_list_counts(legal_list(m), |x: Move| m.legal(x));
}

/// The legal moves of the side to move, each once, in the order in which
/// they are generated.
pub fn legal_moves(pos: &Position) -> (r: Vec<Move>)
    requires
        pos.wf(),
    ensures
        r@ == legal_list(pos@),
        appended(Seq::<Move>::empty(), r@, |m: Move| pos@.legal(m)),
        r@.no_duplicates(),
        forall|m: Move| #[trigger] r@.contains(m) <==> pos@.legal(m),
{
    let mut pseudo: Vec<Move> = Vec::new();
    generate_moves(pos.side_to_move(), pos, &mut pseudo);
    let ghost nothing = Seq::<Move>::empty();
    let ghost gen = pseudo@;
    let ghost safe = |x: Move| pos@.leaves_king_safe(x);
    let mut legal: Vec<Move> = Vec::new();
    let mut k: usize = 0;
    proof {
        assert(gen.skip(0) =~= gen);
        assert(gen =~= nothing + generated(pos@, pos@.side));
        assert(gen.take(0) =~= nothing);
        lemma_appended_none(nothing, |m: Move| pos@.legal(m) && gen.take(0).contains(m));
    }
    while k < pseudo.len()
        invariant
            k <= pseudo.len(),
            pos.wf(),
            gen == pseudo@,
            nothing == Seq::<Move>::empty(),
            gen == generated(pos@, pos@.side),
            safe == (|x: Move| pos@.leaves_king_safe(x)),
            legal@ == gen.take(k as int).filter(safe),
            gen.no_duplicates(),
            forall|m: Move| #[trigger] gen.contains(m) <==> pos@.pseudo_legal(pos@.side, m),
            appended(
                nothing,
                legal@,
                |m: Move| pos@.legal(m) && gen.take(k as int).contains(m),
            ),
        decreases pseudo.len() - k,
    {
        let mov = pseudo[k];
        let ghost had = |m: Move| pos@.legal(m) && gen.take(k as int).contains(m);
        let ghost has = |m: Move| pos@.legal(m) && gen.take(k + 1).contains(m);
        proof {
            assert(gen.contains(mov));
            pos.lemma_wf_model();
            pos@.lemma_pseudo_legal_can_make(mov);
            assert(gen.take(k + 1) =~= gen.take(k as int).push(mov));
            gen.take(k as int).lemma_filter_push(mov, safe);
            lemma_push_contains(gen.take(k as int), mov);
            if gen.take(k as int).contains(mov) {
                let j = choose|j: int| 0 <= j < k && gen.take(k as int)[j] == mov;
                assert(gen[j] == gen[k as int]);
            }
        }
        if pos.is_legal_given_pseudolegal(mov) {
            let ghost before = legal@;
            legal.push(mov);
            proof {
                assert forall|m: Move| #[trigger] has(m) <==> (had(m) || m == mov) by {}
                lemma_appended_push(nothing, before, mov, had, has);
            }
        } else {
            proof {
                assert forall|m: Move| #[trigger] had(m) <==> has(m) by {}
                lemma_appended_same(nothing, legal@, had, has);
            }
        }
        k += 1;
    }
    proof {
        let done = |m: Move| pos@.legal(m) && gen.take(k as int).contains(m);
        let goal = |m: Move| pos@.legal(m);
        assert(gen.take(k as int) =~= gen);
        assert forall|m: Move| #[trigger] done(m) <==> goal(m) by {}
        lemma_appended_same(nothing, legal@, done, goal);
        lemma_appended_contains(nothing, legal@, goal);
        assert(legal@.skip(0) =~= legal@);
    }
    legal
}

impl Position {
    /// Whether the move is legal: among the pseudo-legal moves of the side
    /// to move, and leaving that side's king out of check.
    pub fn is_legal(&self, mov: Move) -> (r: bool)
        requires
            self.wf(),
        ensures
            r == self@.legal(mov),
    {
        let mut moves: Vec<Move> = Vec::new();
        generate_moves(self.side_to_move(), self, &mut moves);
        let mut found = false;
        let mut k: usize = 0;
        while k < moves.len()
            invariant
                k <= moves.len(),
                found == moves@.take(k as int).contains(mov),
            decreases moves.len() - k,
        {
            proof {
                assert(moves@.take(k + 1) =~= moves@.take(k as int).push(moves@[k as int]));
                lemma_push_contains(moves@.take(k as int), moves@[k as int]);
            }
            if moves[k] == mov {
                found = true;
            }
            k += 1;
        }
        assert(moves@.take(k as int) =~= moves@);
        if !found {
            return false;
        }
        proof {
            self.lemma_wf_model();
            self@.lemma_pseudo_legal_can_make(mov);
        }
        self.is_legal_given_pseudolegal(mov)
    }
}

} // verus!
