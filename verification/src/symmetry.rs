//! The symmetry of the game between the two colors: the position seen in a
//! mirror that swaps the ranks, with the colors of all pieces, the side to
//! move and the castling rights exchanged, is the same position for the other
//! side. The rules of movement hold of the one as of the other, and the
//! evaluation of the one is the negative of the evaluation of the other.

use crate::analysis::is_behind;
use crate::attacks::{attack_reach, clear_before, forward, on_ray, ray_square, slide_reach};
use crate::eval::{
    behind_pawn, centipawns, count_all, count_of, evaluation, in_space_zone, insufficient_material,
    material, mobility, pawn_structure, safe_square, side_total, space, threats, weak_piece,
    wholly_safe_square,
};
use crate::model::{backward, king_home, PositionModel};
use crate::movegen::legal_count;
use crate::moves::Move;
use crate::squareset::{count_where, lemma_count_where_none, lemma_count_where_one_more};
use crate::types::{CastleStatus, Color, Direction, Piece, PieceKind, Square};
use vstd::prelude::*;

verus! {

/// The index of the square that mirrors square `i`: the one on the same
/// file whose rank is as far from the eighth as the rank of `i` is from the first.
pub open spec fn flip(i: int) -> int {
    if 0 <= i < 64 {
        i + 56 - 16 * (i / 8)
    } else {
        i
    }
}

/// Mirroring twice gives the square itself; the mirrored square is on the
/// board where the square is, on the same file and the mirrored rank.
pub proof fn lemma_flip(i: int)
    ensures
        flip(flip(i)) == i,
        0 <= i < 64 <==> 0 <= flip(i) < 64,
        0 <= i < 64 ==> flip(i) / 8 == 7 - i / 8 && flip(i) % 8 == i % 8,
        0 <= i < 64 ==> flip(i) == 8 * (7 - i / 8) + i % 8,
{
}

/// Two predicates count the same below `n` where a one-to-one
/// correspondence of the numbers below `n` takes the one to the other.
pub proof fn lemma_count_where_matched(
    p: spec_fn(int) -> bool,
    q: spec_fn(int) -> bool,
    f: spec_fn(int) -> int,
    g: spec_fn(int) -> int,
    n: int,
)
    requires
        forall|i: int|
            0 <= i < n ==> 0 <= #[trigger] f(i) < n && g(f(i)) == i && (q(i) <==> p(f(i))),
        forall|j: int| 0 <= j < n ==> 0 <= #[trigger] g(j) < n && f(g(j)) == j,
    ensures
        count_where(q, n) == count_where(p, n),
    decreases count_where(p, n),
{
    if exists|x: int| 0 <= x < n && #[trigger] p(x) {
        let x = choose|x: int| 0 <= x < n && #[trigger] p(x);
        let y = g(x);
        let fewer_p = |i: int| p(i) && i != x;
        let fewer_q = |i: int| q(i) && i != y;
        assert(f(y) == x);
        lemma_count_where_one_more(p, fewer_p, x, n);
        lemma_count_where_one_more(q, fewer_q, y, n);
        assert forall|i: int| 0 <= i < n implies 0 <= #[trigger] f(i) < n && g(f(i)) == i && (
        fewer_q(i) <==> fewer_p(f(i))) by {
            if i != y && f(i) == x {
                assert(g(f(i)) == i);
            }
        }
        lemma_count_where_matched(fewer_p, fewer_q, f, g, n);
    } else {
        lemma_count_where_none(p, n);
        assert forall|i: int| 0 <= i < n implies !#[trigger] q(i) by {
            assert(0 <= f(i) < n);
        }
        lemma_count_where_none(q, n);
    }
}

/// Two predicates count the same squares where the one holds of a square
/// exactly if the other holds of the mirrored square.
pub proof fn lemma_count_flipped(p: spec_fn(int) -> bool, q: spec_fn(int) -> bool)
    requires
        forall|i: int| 0 <= i < 64 ==> (#[trigger] q(flip(i)) <==> p(i)),
    ensures
        count_where(q, 64) == count_where(p, 64),
{
    let f = |i: int| flip(i);
    assert forall|i: int| 0 <= i < 64 implies 0 <= #[trigger] f(i) < 64 && f(f(i)) == i && (q(i)
        <==> p(f(i))) by {
        lemma_flip(i);
        assert(q(flip(flip(i))) <==> p(flip(i)));
    }
    lemma_count_where_matched(p, q, f, f, 64);
}

/// The direction that mirrors a direction: north for south, east for east.
pub open spec fn flip_direction(d: Direction) -> Direction {
    match d {
        Direction::North => Direction::South,
        Direction::NorthEast => Direction::SouthEast,
        Direction::East => Direction::East,
        Direction::SouthEast => Direction::NorthEast,
        Direction::South => Direction::North,
        Direction::SouthWest => Direction::NorthWest,
        Direction::West => Direction::West,
        Direction::NorthWest => Direction::SouthWest,
    }
}

/// Whether the second set holds exactly the mirrored squares of the first.
pub open spec fn flipped_sets(a: Set<int>, b: Set<int>) -> bool {
    forall|i: int| #[trigger] b.contains(flip(i)) == a.contains(i)
}

/// Where one set mirrors another, the other mirrors the one.
pub proof fn lemma_flipped_sets_back(a: Set<int>, b: Set<int>)
    requires
        flipped_sets(a, b),
    ensures
        flipped_sets(b, a),
{
    assert forall|i: int| #[trigger] a.contains(flip(i)) == b.contains(i) by {
        lemma_flip(i);
        assert(b.contains(flip(flip(i))) == a.contains(flip(i)));
    }
}

/// The steps along a ray from the mirrored square in the mirrored
/// direction lead to the mirrored squares.
pub proof fn lemma_ray_flipped(s: int, d: Direction, k: int)
    requires
        on_ray(s, d, k),
        0 <= k < 8,
    ensures
        on_ray(flip(s), flip_direction(d), k),
        ray_square(flip(s), flip_direction(d), k) == flip(ray_square(s, d, k)),
{
    crate::attacks::lemma_ray_square(s, d, k);
    lemma_flip(s);
    lemma_flip(ray_square(s, d, k));
}

/// A slider on the mirrored board reaches the mirrored squares.
pub proof fn lemma_slide_flipped(s: int, d: Direction, occ: Set<int>, to: Set<int>, t: int)
    requires
        flipped_sets(occ, to),
        slide_reach(s, d, occ, t),
    ensures
        slide_reach(flip(s), flip_direction(d), to, flip(t)),
{
    let k = choose|k: int|
        1 <= k < 8 && on_ray(s, d, k) && t == #[trigger] ray_square(s, d, k) && clear_before(
            s,
            d,
            occ,
            k,
        );
    let e = flip_direction(d);
    lemma_ray_flipped(s, d, k);
    assert forall|j: int| 1 <= j < k implies !to.contains(#[trigger] ray_square(flip(s), e, j)) by {
        crate::attacks::lemma_on_ray_prefix(s, d, k, j);
        lemma_ray_flipped(s, d, j);
        assert(to.contains(flip(ray_square(s, d, j))) == occ.contains(ray_square(s, d, j)));
    }
    assert(clear_before(flip(s), e, to, k));
    assert(on_ray(flip(s), e, k) && flip(t) == ray_square(flip(s), e, k));
}

/// What a piece attacks on a board, a piece of the same kind and the other
/// color attacks in the mirror.
pub proof fn lemma_reach_flipped(
    kind: PieceKind,
    color: Color,
    s: int,
    occ: Set<int>,
    to: Set<int>,
    t: int,
)
    requires
        flipped_sets(occ, to),
        attack_reach(kind, color, s, occ, t),
    ensures
        attack_reach(kind, color.other(), flip(s), to, flip(t)),
{
    lemma_flip(s);
    lemma_flip(t);
    if kind == PieceKind::Bishop || kind == PieceKind::Queen {
        if slide_reach(s, Direction::NorthWest, occ, t) {
            lemma_slide_flipped(s, Direction::NorthWest, occ, to, t);
        }
        if slide_reach(s, Direction::SouthEast, occ, t) {
            lemma_slide_flipped(s, Direction::SouthEast, occ, to, t);
        }
        if slide_reach(s, Direction::NorthEast, occ, t) {
            lemma_slide_flipped(s, Direction::NorthEast, occ, to, t);
        }
        if slide_reach(s, Direction::SouthWest, occ, t) {
            lemma_slide_flipped(s, Direction::SouthWest, occ, to, t);
        }
    }
    if kind == PieceKind::Rook || kind == PieceKind::Queen {
        if slide_reach(s, Direction::North, occ, t) {
            lemma_slide_flipped(s, Direction::North, occ, to, t);
        }
        if slide_reach(s, Direction::South, occ, t) {
            lemma_slide_flipped(s, Direction::South, occ, to, t);
        }
        if slide_reach(s, Direction::East, occ, t) {
            lemma_slide_flipped(s, Direction::East, occ, to, t);
        }
        if slide_reach(s, Direction::West, occ, t) {
            lemma_slide_flipped(s, Direction::West, occ, to, t);
        }
    }
}

/// A piece attacks a square on a board exactly if a piece of the same
/// kind and the other color attacks the mirrored square in the mirror.
pub proof fn lemma_attack_flipped(
    kind: PieceKind,
    color: Color,
    s: int,
    occ: Set<int>,
    to: Set<int>,
    t: int,
)
    requires
        flipped_sets(occ, to),
    ensures
        attack_reach(kind, color.other(), flip(s), to, flip(t)) == attack_reach(
            kind,
            color,
            s,
            occ,
            t,
        ),
{
    if attack_reach(kind, color, s, occ, t) {
        lemma_reach_flipped(kind, color, s, occ, to, t);
    }
    if attack_reach(kind, color.other(), flip(s), to, flip(t)) {
        lemma_flipped_sets_back(occ, to);
        lemma_reach_flipped(kind, color.other(), flip(s), to, occ, flip(t));
        lemma_flip(s);
        lemma_flip(t);
    }
}

/// The piece of the other color.
pub open spec fn turned(p: Option<Piece>) -> Option<Piece> {
    match p {
        Some(x) => Some(Piece { color: x.color.other(), kind: x.kind }),
        None => None,
    }
}

/// The castling rights with those of the two colors exchanged.
pub open spec fn turned_rights(c: CastleStatus) -> CastleStatus {
    CastleStatus {
        white_kingside: c.black_kingside,
        white_queenside: c.black_queenside,
        black_kingside: c.white_kingside,
        black_queenside: c.white_queenside,
    }
}

/// Whether `n` is `m` seen in the mirror: each piece stands on the
/// mirrored square in the other color, the other side is to move, the
/// castling rights are exchanged and the en-passant square is mirrored. The
/// clocks and the history are not looked at.
pub open spec fn mirrored(m: PositionModel, n: PositionModel) -> bool {
    &&& m.wf()
    &&& n.wf()
    &&& forall|i: int| #[trigger] n.piece_on(flip(i)) == turned(m.piece_on(i))
    &&& n.side == m.side.other()
    &&& n.castle == turned_rights(m.castle)
    &&& match m.ep {
        Some(e) => n.ep.is_some() && n.ep.unwrap().idx() == flip(e.idx()),
        None => n.ep.is_none(),
    }
}

/// The occupied squares of the mirror are the mirrored occupied squares.
pub proof fn lemma_mirrored_occupancy(m: PositionModel, n: PositionModel)
    requires
        mirrored(m, n),
    ensures
        flipped_sets(m.occupancy(), n.occupancy()),
{
    assert forall|i: int| #[trigger]
        n.occupancy().contains(flip(i)) == m.occupancy().contains(i) by {
        assert(n.piece_on(flip(i)) == turned(m.piece_on(i)));
    }
}

/// A piece attacks a square exactly if its mirror image attacks the
/// mirrored square in the mirror.
pub proof fn lemma_mirrored_attacks(m: PositionModel, n: PositionModel, color: Color, s: int, t: int)
    requires
        mirrored(m, n),
    ensures
        n.attacks_square(color.other(), flip(s), flip(t)) == m.attacks_square(color, s, t),
{
    lemma_mirrored_occupancy(m, n);
    assert(n.piece_on(flip(s)) == turned(m.piece_on(s)));
    if m.piece_on(s).is_some() {
        let p = m.piece_on(s).unwrap();
        lemma_attack_flipped(p.kind, p.color, s, m.occupancy(), n.occupancy(), t);
    }
}

/// A color attacks a square exactly if the other color attacks the
/// mirrored square in the mirror.
pub proof fn lemma_mirrored_attacked(m: PositionModel, n: PositionModel, color: Color, t: int)
    requires
        mirrored(m, n),
    ensures
        n.attacked_by(color.other(), flip(t)) == m.attacked_by(color, t),
{
    if m.attacked_by(color, t) {
        let s = choose|s: int| #[trigger] m.attacks_square(color, s, t);
        lemma_mirrored_attacks(m, n, color, s, t);
        assert(n.attacks_square(color.other(), flip(s), flip(t)));
    }
    if n.attacked_by(color.other(), flip(t)) {
        let s = choose|s: int| #[trigger] n.attacks_square(color.other(), s, flip(t));
        lemma_flip(s);
        lemma_mirrored_attacks(m, n, color, flip(s), t);
        assert(m.attacks_square(color, flip(s), t));
    }
}

/// Whether the color has no more than one king.
pub open spec fn one_king(m: PositionModel, color: Color) -> bool {
    forall|i: int, j: int|
        #![trigger m.piece_on(i), m.piece_on(j)]
        m.piece_on(i) == Some(Piece { color, kind: PieceKind::King }) && m.piece_on(j) == Some(
            Piece { color, kind: PieceKind::King },
        ) ==> i == j
}

/// Where a color has no more than one king, so has the other color in the mirror.
pub proof fn lemma_mirrored_one_king(m: PositionModel, n: PositionModel, color: Color)
    requires
        mirrored(m, n),
        one_king(m, color),
    ensures
        one_king(n, color.other()),
{
    let king = Some(Piece { color: color.other(), kind: PieceKind::King });
    assert forall|i: int, j: int|
        #![trigger n.piece_on(i), n.piece_on(j)]
        n.piece_on(i) == king && n.piece_on(j) == king implies i == j by {
        lemma_flip(i);
        lemma_flip(j);
        assert(n.piece_on(flip(flip(i))) == turned(m.piece_on(flip(i))));
        assert(n.piece_on(flip(flip(j))) == turned(m.piece_on(flip(j))));
        assert(m.piece_on(flip(i)) == Some(Piece { color, kind: PieceKind::King }));
        assert(m.piece_on(flip(j)) == Some(Piece { color, kind: PieceKind::King }));
    }
}

/// Where a color has no more than one king, its king stands on a square
/// exactly if the king of the other color stands on the mirrored square in
/// the mirror.
pub proof fn lemma_mirrored_king(m: PositionModel, n: PositionModel, color: Color, k: int)
    requires
        mirrored(m, n),
        one_king(m, color),
    ensures
        n.is_king_square(color.other(), flip(k)) == m.is_king_square(color, k),
        m.is_king_square(color, k) == (m.piece_on(k) == Some(
            Piece { color, kind: PieceKind::King },
        )),
{
    lemma_mirrored_one_king(m, n, color);
    assert(n.piece_on(flip(k)) == turned(m.piece_on(k)));
}

/// A color is in check exactly if the other color is in check in the
/// mirror, where the color has no more than one king.
pub proof fn lemma_mirrored_check(m: PositionModel, n: PositionModel, color: Color)
    requires
        mirrored(m, n),
        one_king(m, color),
    ensures
        n.in_check(color.other()) == m.in_check(color),
{
    if m.in_check(color) {
        let k = choose|k: int| #[trigger]
            m.is_king_square(color, k) && m.attacked_by(color.other(), k);
        lemma_mirrored_king(m, n, color, k);
        lemma_mirrored_attacked(m, n, color.other(), k);
        assert(n.is_king_square(color.other(), flip(k)) && n.attacked_by(color, flip(k)));
    }
    if n.in_check(color.other()) {
        let k = choose|k: int| #[trigger]
            n.is_king_square(color.other(), k) && n.attacked_by(color, k);
        lemma_flip(k);
        lemma_mirrored_king(m, n, color, flip(k));
        lemma_mirrored_attacked(m, n, color.other(), flip(k));
        assert(m.is_king_square(color, flip(k)) && m.attacked_by(color.other(), flip(k)));
    }
}

/// The material of a color is that of the other color in the mirror.
pub proof fn lemma_mirrored_material(m: PositionModel, n: PositionModel, color: Color)
    requires
        mirrored(m, n),
    ensures
        material(n, color.other()) == material(m, color),
{
    lemma_mirrored_counts(m, n, color, PieceKind::Pawn);
    lemma_mirrored_counts(m, n, color, PieceKind::Knight);
    lemma_mirrored_counts(m, n, color, PieceKind::Bishop);
    lemma_mirrored_counts(m, n, color, PieceKind::Rook);
    lemma_mirrored_counts(m, n, color, PieceKind::Queen);
}

/// A color has as many pieces, and as many of a kind, as the other color
/// has in the mirror.
pub proof fn lemma_mirrored_counts(m: PositionModel, n: PositionModel, color: Color, kind: PieceKind)
    requires
        mirrored(m, n),
    ensures
        count_of(n, color.other(), kind) == count_of(m, color, kind),
        count_all(n, color.other()) == count_all(m, color),
{
    let them = color.other();
    assert forall|i: int| 0 <= i < 64 implies (#[trigger] n.piece_on(flip(i)) == Some(
        Piece { color: them, kind },
    ) <==> m.piece_on(i) == Some(Piece { color, kind })) by {}
    lemma_count_flipped(
        |i: int| m.piece_on(i) == Some(Piece { color, kind }),
        |i: int| n.piece_on(i) == Some(Piece { color: them, kind }),
    );
    assert forall|i: int| 0 <= i < 64 implies (n.friend_on(them, flip(i)) <==> m.friend_on(
        color,
        i,
    )) by {
        assert(n.piece_on(flip(i)) == turned(m.piece_on(i)));
    }
    lemma_count_flipped(|i: int| m.friend_on(color, i), |i: int| n.friend_on(them, i));
}

/// A pawn stands on a rank and file exactly if a pawn of the other color
/// stands on the mirrored rank and the same file in the mirror.
pub proof fn lemma_mirrored_pawn_at(
    m: PositionModel,
    n: PositionModel,
    color: Color,
    rank: int,
    file: int,
)
    requires
        mirrored(m, n),
    ensures
        n.pawn_at(color.other(), 7 - rank, file) == m.pawn_at(color, rank, file),
        n.pawn_beside(color.other(), 7 - rank, file) == m.pawn_beside(color, rank, file),
{
    lemma_mirrored_pawn_here(m, n, color, rank, file);
    lemma_mirrored_pawn_here(m, n, color, rank, file - 1);
    lemma_mirrored_pawn_here(m, n, color, rank, file + 1);
}

/// A pawn stands on a rank and file exactly if a pawn of the other color
/// stands on the mirrored rank and the same file in the mirror.
pub proof fn lemma_mirrored_pawn_here(
    m: PositionModel,
    n: PositionModel,
    color: Color,
    rank: int,
    file: int,
)
    requires
        mirrored(m, n),
    ensures
        n.pawn_at(color.other(), 7 - rank, file) == m.pawn_at(color, rank, file),
{
    if 0 <= rank < 8 && 0 <= file < 8 {
        lemma_flip(rank * 8 + file);
        assert(n.piece_on(flip(rank * 8 + file)) == turned(m.piece_on(rank * 8 + file)));
    }
}

/// A pawn stands on a file exactly if a pawn of the other color stands on
/// the file in the mirror.
pub proof fn lemma_mirrored_pawn_on_file(m: PositionModel, n: PositionModel, color: Color, file: int)
    requires
        mirrored(m, n),
    ensures
        n.pawn_on_file(color.other(), file) == m.pawn_on_file(color, file),
{
    if m.pawn_on_file(color, file) {
        let rank = choose|rank: int| #[trigger] m.pawn_at(color, rank, file);
        lemma_mirrored_pawn_here(m, n, color, rank, file);
        assert(n.pawn_at(color.other(), 7 - rank, file));
    }
    if n.pawn_on_file(color.other(), file) {
        let rank = choose|rank: int| #[trigger] n.pawn_at(color.other(), rank, file);
        lemma_mirrored_pawn_here(m, n, color, 7 - rank, file);
        assert(m.pawn_at(color, 7 - rank, file));
    }
}

/// A pawn is doubled, isolated or backward exactly if its mirror image is.
pub proof fn lemma_mirrored_pawn(m: PositionModel, n: PositionModel, color: Color, i: int)
    requires
        mirrored(m, n),
    ensures
        n.pawn_on(color.other(), flip(i)) == m.pawn_on(color, i),
        n.doubled(color.other(), flip(i)) == m.doubled(color, i),
        n.isolated(color.other(), flip(i)) == m.isolated(color, i),
        n.backward_pawn(color.other(), flip(i)) == m.backward_pawn(color, i),
{
    let them = color.other();
    lemma_flip(i);
    assert(n.piece_on(flip(i)) == turned(m.piece_on(i)));
    if m.pawn_on(color, i) {
        let r = i / 8;
        let f = i % 8;
        lemma_mirrored_pawn_on_file(m, n, color, f - 1);
        lemma_mirrored_pawn_on_file(m, n, color, f + 1);
        lemma_mirrored_pawn_at(m, n, color, r, f);
        if m.doubled(color, i) {
            let rank = choose|rank: int| rank != i / 8 && #[trigger] m.pawn_at(color, rank, f);
            lemma_mirrored_pawn_here(m, n, color, rank, f);
            assert(7 - rank != flip(i) / 8 && n.pawn_at(them, 7 - rank, f));
        }
        if n.doubled(them, flip(i)) {
            let rank = choose|rank: int|
                rank != flip(i) / 8 && #[trigger] n.pawn_at(them, rank, f);
            lemma_mirrored_pawn_here(m, n, color, 7 - rank, f);
            assert(7 - rank != i / 8 && m.pawn_at(color, 7 - rank, f));
        }
        let ahead_m = forall|rank: int|
            0 <= rank < 8 && is_behind(color, rank, r) ==> (#[trigger] m.pawn_at(color, rank, f)
                <==> m.pawn_beside(color, rank, f));
        let ahead_n = forall|rank: int|
            0 <= rank < 8 && is_behind(them, rank, 7 - r) ==> (#[trigger] n.pawn_at(
                them,
                rank,
                f,
            ) <==> n.pawn_beside(them, rank, f));
        if ahead_m {
            assert forall|rank: int| 0 <= rank < 8 && is_behind(them, rank, 7 - r) implies (
            #[trigger] n.pawn_at(them, rank, f) <==> n.pawn_beside(them, rank, f)) by {
                lemma_mirrored_pawn_at(m, n, color, 7 - rank, f);
                assert(m.pawn_at(color, 7 - rank, f) <==> m.pawn_beside(color, 7 - rank, f));
            }
        }
        if ahead_n {
            assert forall|rank: int| 0 <= rank < 8 && is_behind(color, rank, r) implies (
            #[trigger] m.pawn_at(color, rank, f) <==> m.pawn_beside(color, rank, f)) by {
                lemma_mirrored_pawn_at(m, n, color, rank, f);
                assert(n.pawn_at(them, 7 - rank, f) <==> n.pawn_beside(them, 7 - rank, f));
            }
        }
    }
}

/// The malus for a color's pawn structure is that of the other color in the mirror.
pub proof fn lemma_mirrored_pawn_structure(m: PositionModel, n: PositionModel, color: Color)
    requires
        mirrored(m, n),
    ensures
        pawn_structure(n, color.other()) == pawn_structure(m, color),
{
    let them = color.other();
    assert forall|i: int| 0 <= i < 64 implies (n.isolated(them, flip(i)) <==> m.isolated(color, i))
        && (n.doubled(them, flip(i)) <==> m.doubled(color, i)) && (n.backward_pawn(
        them,
        flip(i),
    ) <==> m.backward_pawn(color, i)) by {
        lemma_mirrored_pawn(m, n, color, i);
    }
    lemma_count_flipped(|i: int| m.isolated(color, i), |i: int| n.isolated(them, i));
    lemma_count_flipped(|i: int| m.doubled(color, i), |i: int| n.doubled(them, i));
    lemma_count_flipped(|i: int| m.backward_pawn(color, i), |i: int| n.backward_pawn(them, i));
}

/// A color's pieces of a kind attack a square exactly if the other
/// color's pieces of the kind attack the mirrored square in the mirror.
pub proof fn lemma_mirrored_attacked_kind(
    m: PositionModel,
    n: PositionModel,
    color: Color,
    kind: PieceKind,
    t: int,
)
    requires
        mirrored(m, n),
    ensures
        n.attacked_by_kind(color.other(), kind, flip(t)) == m.attacked_by_kind(color, kind, t),
{
    let them = color.other();
    lemma_mirrored_occupancy(m, n);
    if m.attacked_by_kind(color, kind, t) {
        let s = choose|s: int|
            m.piece_on(s) == Some(Piece { color, kind }) && #[trigger] attack_reach(
                kind,
                color,
                s,
                m.occupancy(),
                t,
            );
        lemma_attack_flipped(kind, color, s, m.occupancy(), n.occupancy(), t);
        assert(n.piece_on(flip(s)) == turned(m.piece_on(s)));
        assert(n.piece_on(flip(s)) == Some(Piece { color: them, kind }) && attack_reach(
            kind,
            them,
            flip(s),
            n.occupancy(),
            flip(t),
        ));
    }
    if n.attacked_by_kind(them, kind, flip(t)) {
        let s = choose|s: int|
            n.piece_on(s) == Some(Piece { color: them, kind }) && #[trigger] attack_reach(
                kind,
                them,
                s,
                n.occupancy(),
                flip(t),
            );
        lemma_flip(s);
        lemma_attack_flipped(kind, color, flip(s), m.occupancy(), n.occupancy(), t);
        assert(n.piece_on(flip(flip(s))) == turned(m.piece_on(flip(s))));
        assert(m.piece_on(flip(s)) == Some(Piece { color, kind }) && attack_reach(
            kind,
            color,
            flip(s),
            m.occupancy(),
            t,
        ));
    }
}

/// A square lies in the space zone of a color exactly if the mirrored
/// square lies in that of the other color.
pub proof fn lemma_mirrored_zone(color: Color, i: int)
    ensures
        in_space_zone(color.other(), flip(i)) == in_space_zone(color, i),
{
    lemma_flip(i);
}

/// The square `k` ranks up from a square mirrors the square `k` ranks
/// down from the mirrored square, on the board or off it.
pub proof fn lemma_flip_step(i: int, k: int)
    requires
        0 <= i < 64,
    ensures
        0 <= i + 8 * k < 64 <==> 0 <= flip(i) - 8 * k < 64,
        0 <= i + 8 * k < 64 ==> flip(i + 8 * k) == flip(i) - 8 * k,
{
    let r = i / 8;
    let f = i % 8;
    assert(i == 8 * r + f);
    assert(flip(i) == 8 * (7 - r) + f);
    if 0 <= i + 8 * k < 64 {
        assert(i + 8 * k == 8 * (r + k) + f);
        assert((i + 8 * k) / 8 == r + k);
    }
}

/// What stands `k` ranks up from a square stands, in the other color, `k`
/// ranks down from the mirrored square in the mirror.
pub proof fn lemma_mirrored_step(m: PositionModel, n: PositionModel, i: int, k: int)
    requires
        mirrored(m, n),
        0 <= i < 64,
    ensures
        n.piece_on(flip(i) - 8 * k) == turned(m.piece_on(i + 8 * k)),
{
    lemma_flip_step(i, k);
    assert(n.piece_on(flip(i + 8 * k)) == turned(m.piece_on(i + 8 * k)));
}

/// A square lies behind a pawn of a color exactly if the mirrored square
/// lies behind a pawn of the other color in the mirror.
pub proof fn lemma_mirrored_behind_pawn(m: PositionModel, n: PositionModel, color: Color, i: int)
    requires
        mirrored(m, n),
    ensures
        behind_pawn(n, color.other(), flip(i)) == behind_pawn(m, color, i),
{
    lemma_flip(i);
    if 0 <= i < 64 {
        lemma_mirrored_step(m, n, i, 0);
        lemma_mirrored_step(m, n, i, forward(color));
        lemma_mirrored_step(m, n, i, 2 * forward(color));
    }
}

/// A square is safe for a color exactly if the mirrored square is safe
/// for the other color in the mirror.
pub proof fn lemma_mirrored_safe(m: PositionModel, n: PositionModel, color: Color, i: int)
    requires
        mirrored(m, n),
    ensures
        safe_square(n, color.other(), flip(i)) == safe_square(m, color, i),
{
    lemma_mirrored_zone(color, i);
    assert(n.piece_on(flip(i)) == turned(m.piece_on(i)));
    lemma_mirrored_attacked_kind(m, n, color.other(), PieceKind::Pawn, i);
}

/// A square is safe, or wholly safe, for a color exactly if the mirrored
/// square is so for the other color in the mirror; and a piece is weak
/// exactly if its mirror image is.
pub proof fn lemma_mirrored_square(m: PositionModel, n: PositionModel, color: Color, i: int)
    requires
        mirrored(m, n),
    ensures
        safe_square(n, color.other(), flip(i)) == safe_square(m, color, i),
        wholly_safe_square(n, color.other(), flip(i)) == wholly_safe_square(m, color, i),
        weak_piece(n, color.other(), flip(i)) == weak_piece(m, color, i),
{
    lemma_mirrored_safe(m, n, color, i);
    lemma_mirrored_behind_pawn(m, n, color, i);
    lemma_mirrored_attacked(m, n, color.other(), i);
    lemma_mirrored_attacked(m, n, color, i);
    assert(n.piece_on(flip(i)) == turned(m.piece_on(i)));
}

/// The space and the threats of a color are those of the other color in the mirror.
pub proof fn lemma_mirrored_space(m: PositionModel, n: PositionModel, color: Color)
    requires
        mirrored(m, n),
    ensures
        space(n, color.other()) == space(m, color),
        threats(n, color.other()) == threats(m, color),
{
    let them = color.other();
    assert forall|i: int| 0 <= i < 64 implies (safe_square(n, them, flip(i)) <==> safe_square(
        m,
        color,
        i,
    )) && (wholly_safe_square(n, them, flip(i)) <==> wholly_safe_square(m, color, i)) && (
    weak_piece(n, them, flip(i)) <==> weak_piece(m, color, i)) by {
        lemma_mirrored_square(m, n, color, i);
    }
    lemma_count_flipped(|i: int| safe_square(m, color, i), |i: int| safe_square(n, them, i));
    lemma_count_flipped(
        |i: int| wholly_safe_square(m, color, i),
        |i: int| wholly_safe_square(n, them, i),
    );
    lemma_count_flipped(|i: int| weak_piece(m, color, i), |i: int| weak_piece(n, them, i));
}

/// The move seen in the mirror: from the mirrored source to the mirrored
/// destination, with the same flags.
pub open spec fn flip_move(x: Move) -> Move {
    Move::pack(flip(x.src()), flip(x.dst()), x.flags())
}

/// The parts of the mirrored move; mirroring a move twice gives the move itself.
pub proof fn lemma_flip_move(x: Move)
    ensures
        flip_move(x).src() == flip(x.src()),
        flip_move(x).dst() == flip(x.dst()),
        flip_move(x).flags() == x.flags(),
        flip_move(flip_move(x)) == x,
        0 <= x.src() < 64,
        0 <= x.dst() < 64,
        x.src() != x.dst() ==> flip_move(x).raw() != 0 && x.raw() != 0,
{
    x.lemma_parts();
    lemma_flip(x.src());
    lemma_flip(x.dst());
    Move::lemma_pack(flip(x.src()), flip(x.dst()), x.flags());
    let y = flip_move(x);
    Move::lemma_pack(flip(y.src()), flip(y.dst()), y.flags());
    Move::lemma_equal(flip_move(y), x);
    Move::lemma_pack(x.src(), x.dst(), x.flags());
}

/// A pawn may make a move exactly if a pawn of the other color may make
/// the mirrored move in the mirror.
pub proof fn lemma_mirrored_pawn_move(m: PositionModel, n: PositionModel, us: Color, x: Move)
    requires
        mirrored(m, n),
    ensures
        n.pawn_move(us.other(), flip_move(x)) == m.pawn_move(us, x),
{
    let them = us.other();
    let s = x.src();
    let d = x.dst();
    let k = forward(us);
    lemma_flip_move(x);
    lemma_flip(s);
    lemma_flip(d);
    lemma_flip_step(s, k);
    lemma_flip_step(s, 2 * k);
    lemma_flip_step(flip(s), -k);
    lemma_flip_step(flip(s), -2 * k);
    lemma_mirrored_step(m, n, s, k);
    lemma_mirrored_step(m, n, d, 0);
    lemma_mirrored_step(m, n, d, -k);
    lemma_mirrored_occupancy(m, n);
    lemma_attack_flipped(PieceKind::Pawn, us, s, m.occupancy(), n.occupancy(), d);
    if m.ep.is_some() {
        lemma_flip(m.ep.unwrap().idx());
    }
}

/// A piece may make a move exactly if a piece of its kind and the other
/// color may make the mirrored move in the mirror.
pub proof fn lemma_mirrored_piece_move(
    m: PositionModel,
    n: PositionModel,
    us: Color,
    kind: PieceKind,
    x: Move,
)
    requires
        mirrored(m, n),
    ensures
        n.piece_move(us.other(), kind, flip_move(x)) == m.piece_move(us, kind, x),
{
    lemma_flip_move(x);
    lemma_mirrored_occupancy(m, n);
    lemma_attack_flipped(kind, us, x.src(), m.occupancy(), n.occupancy(), x.dst());
    assert(n.piece_on(flip(x.dst())) == turned(m.piece_on(x.dst())));
}

/// What stands `k` files to the right of a square stands, in the other
/// color, `k` files to the right of the mirrored square in the mirror, and
/// is attacked there as here.
pub proof fn lemma_mirrored_beside(m: PositionModel, n: PositionModel, us: Color, i: int, k: int)
    requires
        mirrored(m, n),
        0 <= i < 64,
        0 <= i % 8 + k < 8,
    ensures
        flip(i + k) == flip(i) + k,
        n.piece_on(flip(i) + k) == turned(m.piece_on(i + k)),
        n.attacked_by(us, flip(i) + k) == m.attacked_by(us.other(), i + k),
{
    lemma_flip(i);
    lemma_flip(i + k);
    assert(n.piece_on(flip(i + k)) == turned(m.piece_on(i + k)));
    lemma_mirrored_attacked(m, n, us.other(), i + k);
}

/// A color may castle exactly if the other color may castle on the same
/// side in the mirror, where the color has no more than one king.
pub proof fn lemma_mirrored_castle(m: PositionModel, n: PositionModel, us: Color)
    requires
        mirrored(m, n),
        one_king(m, us),
    ensures
        n.may_castle_kingside(us.other()) == m.may_castle_kingside(us),
        n.may_castle_queenside(us.other()) == m.may_castle_queenside(us),
{
    let k = king_home(us);
    lemma_mirrored_king(m, n, us, k);
    lemma_mirrored_check(m, n, us);
    lemma_mirrored_beside(m, n, us, k, 1);
    lemma_mirrored_beside(m, n, us, k, 2);
    lemma_mirrored_beside(m, n, us, k, 3);
    lemma_mirrored_beside(m, n, us, k, -1);
    lemma_mirrored_beside(m, n, us, k, -2);
    lemma_mirrored_beside(m, n, us, k, -3);
    lemma_mirrored_beside(m, n, us, k, -4);
}

/// A king may make a move exactly if the king of the other color may make
/// the mirrored move in the mirror, where the color has no more than one king.
pub proof fn lemma_mirrored_king_move(m: PositionModel, n: PositionModel, us: Color, x: Move)
    requires
        mirrored(m, n),
        one_king(m, us),
    ensures
        n.king_move(us.other(), flip_move(x)) == m.king_move(us, x),
{
    lemma_flip_move(x);
    lemma_mirrored_king(m, n, us, x.src());
    lemma_mirrored_castle(m, n, us);
    lemma_mirrored_piece_move(m, n, us, PieceKind::King, x);
    lemma_flip(x.src());
    lemma_flip(x.dst());
}

/// A move is pseudo-legal for a color exactly if the mirrored move is
/// pseudo-legal for the other color in the mirror, where the color has no
/// more than one king.
pub proof fn lemma_mirrored_pseudo_legal(m: PositionModel, n: PositionModel, us: Color, x: Move)
    requires
        mirrored(m, n),
        one_king(m, us),
    ensures
        n.pseudo_legal(us.other(), flip_move(x)) == m.pseudo_legal(us, x),
{
    lemma_flip_move(x);
    assert(n.piece_on(flip(x.src())) == turned(m.piece_on(x.src())));
    if m.piece_on(x.src()).is_some() {
        let p = m.piece_on(x.src()).unwrap();
        lemma_mirrored_pawn_move(m, n, us, x);
        lemma_mirrored_king_move(m, n, us, x);
        lemma_mirrored_piece_move(m, n, us, p.kind, x);
    }
}

/// What stands on square `i` after a move.
pub open spec fn piece_after(m: PositionModel, x: Move, i: int) -> Option<Piece> {
    let castles = x.flags() == 2 || x.flags() == 3;
    if i == x.dst() {
        Some(
            if x.promotes() {
                Piece { color: m.side, kind: x.promoted() }
            } else {
                m.piece_on(x.src()).unwrap()
            },
        )
    } else if i == x.src() {
        None
    } else if castles && i == PositionModel::rook_to(x) {
        m.piece_on(PositionModel::rook_from(x))
    } else if castles && i == PositionModel::rook_from(x) {
        None
    } else if x.captures() && i == m.capture_square(x) {
        None
    } else {
        m.piece_on(i)
    }
}

/// After a move that can be made, each square holds what the move puts there.
pub proof fn lemma_piece_after(m: PositionModel, x: Move, i: int)
    requires
        m.wf(),
        m.can_make(x),
        x.raw() != 0,
    ensures
        m.after_make(x).wf(),
        m.after_make(x).piece_on(i) == piece_after(m, x, i),
{
    m.lemma_stages(x);
}

/// The square `k` files to the right of a square mirrors the square `k`
/// files to the right of the mirrored square.
pub proof fn lemma_flip_beside(i: int, k: int)
    requires
        0 <= i < 64,
        0 <= i % 8 + k < 8,
    ensures
        flip(i + k) == flip(i) + k,
        0 <= i + k < 64,
        (flip(i) + k) % 8 == i % 8 + k,
{
    let r = i / 8;
    let f = i % 8;
    assert(i + k == 8 * r + (f + k));
    assert((i + k) / 8 == r);
}

/// The rook of a castling move stands and lands in the mirror on the mirrored squares.
pub proof fn lemma_mirrored_rook_squares(x: Move)
    requires
        x.flags() == 2 || x.flags() == 3,
        PositionModel::rook_squares_on_board(x),
    ensures
        PositionModel::rook_from(flip_move(x)) == flip(PositionModel::rook_from(x)),
        PositionModel::rook_to(flip_move(x)) == flip(PositionModel::rook_to(x)),
        PositionModel::rook_squares_on_board(flip_move(x)),
{
    lemma_flip_move(x);
    let d = x.dst();
    lemma_flip(d);
    if x.flags() == 2 {
        lemma_flip_beside(d, 1);
        lemma_flip_beside(d, -1);
    } else {
        lemma_flip_beside(d, 1);
        lemma_flip_beside(d, -2);
    }
}

/// The piece that a move captures stands in the mirror on the mirrored square.
pub proof fn lemma_mirrored_capture_square(m: PositionModel, n: PositionModel, x: Move)
    requires
        mirrored(m, n),
        x.flags() == 5 ==> m.ep.is_some() && 0 <= m.ep.unwrap().idx() < 64 && 0
            <= m.capture_square(x) < 64,
    ensures
        n.capture_square(flip_move(x)) == flip(m.capture_square(x)),
{
    lemma_flip_move(x);
    if x.flags() == 5 {
        let e = m.ep.unwrap().idx();
        lemma_flip_step(e, -forward(m.side));
    }
}

/// After a move, a square holds what the mirrored square holds in the
/// other color after the mirrored move in the mirror.
pub proof fn lemma_mirrored_piece_after(m: PositionModel, n: PositionModel, x: Move, i: int)
    requires
        mirrored(m, n),
        m.occupied(x.src()),
        (x.flags() == 2 || x.flags() == 3) ==> PositionModel::rook_squares_on_board(x),
        x.flags() == 5 ==> m.ep.is_some() && 0 <= m.ep.unwrap().idx() < 64 && 0
            <= m.capture_square(x) < 64,
    ensures
        piece_after(n, flip_move(x), flip(i)) == turned(piece_after(m, x, i)),
{
    let y = flip_move(x);
    lemma_flip_move(x);
    lemma_flip(i);
    lemma_flip(x.src());
    lemma_flip(x.dst());
    lemma_mirrored_capture_square(m, n, x);
    lemma_flip(m.capture_square(x));
    assert(n.piece_on(flip(i)) == turned(m.piece_on(i)));
    assert(n.piece_on(flip(x.src())) == turned(m.piece_on(x.src())));
    if x.flags() == 2 || x.flags() == 3 {
        lemma_mirrored_rook_squares(x);
        lemma_flip(PositionModel::rook_from(x));
        lemma_flip(PositionModel::rook_to(x));
        assert(n.piece_on(flip(PositionModel::rook_from(x))) == turned(
            m.piece_on(PositionModel::rook_from(x)),
        ));
    }
}

/// What a pseudo-legal move needs to be made, and to be mirrored.
pub proof fn lemma_pseudo_legal_parts(m: PositionModel, x: Move)
    requires
        m.wf(),
        m.pseudo_legal(m.side, x),
    ensures
        m.can_make(x),
        x.raw() != 0,
        m.occupied(x.src()),
        (x.flags() == 2 || x.flags() == 3) ==> PositionModel::rook_squares_on_board(x)
            && m.piece_on(PositionModel::rook_from(x)) == Some(
            Piece { color: m.side, kind: PieceKind::Rook },
        ),
        x.flags() == 5 ==> m.ep.is_some() && 0 <= m.ep.unwrap().idx() < 64 && 0
            <= m.capture_square(x) < 64,
        x.captures() ==> 0 <= m.capture_square(x) < 64,
        x.flags() == 1 ==> 0 <= x.dst() + backward(m.side) < 64,
{
    m.lemma_pseudo_legal_can_make(x);
    x.lemma_parts();
}

/// The castling rights after a move are, exchanged, those after the
/// mirrored move in the mirror.
pub proof fn lemma_mirrored_rights(m: PositionModel, n: PositionModel, x: Move)
    requires
        mirrored(m, n),
        m.pseudo_legal(m.side, x),
    ensures
        n.after_make(flip_move(x)).castle == turned_rights(m.after_make(x).castle),
{
    let y = flip_move(x);
    lemma_pseudo_legal_parts(m, x);
    lemma_flip_move(x);
    lemma_flip(x.src());
    lemma_mirrored_capture_square(m, n, x);
    let cap = m.capture_square(x);
    lemma_flip(cap);
    assert(n.piece_on(flip(cap)) == turned(m.piece_on(cap)));
    assert(n.piece_on(flip(x.src())) == turned(m.piece_on(x.src())));
}

/// Where a color has no more than one king, it has no more than one after
/// a pseudo-legal move.
pub proof fn lemma_one_king_after(m: PositionModel, x: Move, color: Color)
    requires
        m.wf(),
        m.pseudo_legal(m.side, x),
        one_king(m, color),
    ensures
        one_king(m.after_make(x), color),
{
    let after = m.after_make(x);
    let king = Some(Piece { color, kind: PieceKind::King });
    lemma_pseudo_legal_parts(m, x);
    x.lemma_parts();
    assert forall|i: int, j: int|
        #![trigger after.piece_on(i), after.piece_on(j)]
        after.piece_on(i) == king && after.piece_on(j) == king implies i == j by {
        lemma_piece_after(m, x, i);
        lemma_piece_after(m, x, j);
        lemma_piece_after(m, x, x.src());
        let from_i = if i == x.dst() {
            x.src()
        } else {
            i
        };
        let from_j = if j == x.dst() {
            x.src()
        } else {
            j
        };
        assert(m.piece_on(from_i) == king);
        assert(m.piece_on(from_j) == king);
    }
}

/// The position after a pseudo-legal move is, in the mirror, the position
/// after the mirrored move.
pub proof fn lemma_mirrored_after(m: PositionModel, n: PositionModel, x: Move)
    requires
        mirrored(m, n),
        one_king(m, m.side),
        m.pseudo_legal(m.side, x),
    ensures
        mirrored(m.after_make(x), n.after_make(flip_move(x))),
{
    let y = flip_move(x);
    let a = m.after_make(x);
    let b = n.after_make(y);
    lemma_pseudo_legal_parts(m, x);
    lemma_mirrored_pseudo_legal(m, n, m.side, x);
    lemma_pseudo_legal_parts(n, y);
    lemma_flip_move(x);
    lemma_mirrored_rights(m, n, x);
    assert forall|i: int| #[trigger] b.piece_on(flip(i)) == turned(a.piece_on(i)) by {
        lemma_piece_after(m, x, i);
        lemma_piece_after(n, y, flip(i));
        lemma_mirrored_piece_after(m, n, x, i);
    }
    lemma_piece_after(m, x, 0);
    lemma_piece_after(n, y, 0);
    if x.flags() == 1 {
        let e = x.dst() + backward(m.side);
        Square::lemma_at_idx(e);
        lemma_flip_step(x.dst(), -forward(m.side));
        Square::lemma_at_idx(flip(x.dst()) + backward(n.side));
    }
}

/// A move is legal exactly if the mirrored move is legal in the mirror,
/// where the side to move has no more than one king.
pub proof fn lemma_mirrored_legal(m: PositionModel, n: PositionModel, x: Move)
    requires
        mirrored(m, n),
        one_king(m, m.side),
    ensures
        n.legal(flip_move(x)) == m.legal(x),
{
    lemma_mirrored_pseudo_legal(m, n, m.side, x);
    if m.pseudo_legal(m.side, x) {
        lemma_mirrored_after(m, n, x);
        lemma_one_king_after(m, x, m.side);
        lemma_mirrored_check(m.after_make(x), n.after_make(flip_move(x)), m.side);
    }
}

/// A position has as many legal moves as its mirror image, where the side
/// to move has no more than one king.
pub proof fn lemma_mirrored_legal_count(m: PositionModel, n: PositionModel)
    requires
        mirrored(m, n),
        one_king(m, m.side),
    ensures
        legal_count(n) == legal_count(m),
{
    let f = |raw: int| flip_move(Move::of_raw(raw)).raw();
    let p = |raw: int| m.legal(Move::of_raw(raw));
    let q = |raw: int| n.legal(Move::of_raw(raw));
    assert forall|i: int|
        0 <= i < 65536 implies 0 <= #[trigger] f(i) < 65536 && f(f(i)) == i && (q(i) <==> p(f(i))) by {
        let x = Move::of_raw(i);
        let y = flip_move(x);
        Move::lemma_raw_of(i);
        y.lemma_parts();
        y.lemma_of_raw();
        lemma_flip_move(x);
        lemma_mirrored_legal(m, n, y);
    }
    lemma_count_where_matched(p, q, f, f, 65536);
    crate::squareset::lemma_count_where_same(
        p,
        |raw: int| (|x: Move| m.legal(x))(Move::of_raw(raw)),
        65536,
    );
    crate::squareset::lemma_count_where_same(
        q,
        |raw: int| (|x: Move| n.legal(x))(Move::of_raw(raw)),
        65536,
    );
    assert(legal_count(m) == count_where(p, 65536));
    assert(legal_count(n) == count_where(q, 65536));
}

/// The position in which it is a color's turn is, in the mirror, the
/// position in which it is the other color's turn.
pub proof fn lemma_mirrored_turn(m: PositionModel, n: PositionModel, color: Color)
    requires
        mirrored(m, n),
    ensures
        mirrored(m.turn_of(color), n.turn_of(color.other())),
        forall|i: int| m.turn_of(color).piece_on(i) == m.piece_on(i),
        m.turn_of(color).side == color,
{
    Move::lemma_pack(0, 0, 0);
    let a = m.turn_of(color);
    let b = n.turn_of(color.other());
    assert forall|i: int| #[trigger] b.piece_on(flip(i)) == turned(a.piece_on(i)) by {
        assert(n.piece_on(flip(i)) == turned(m.piece_on(i)));
    }
}

/// A color has as many legal moves when it is its turn as the other color
/// has in the mirror, where the color has no more than one king.
pub proof fn lemma_mirrored_mobility(m: PositionModel, n: PositionModel, color: Color)
    requires
        mirrored(m, n),
        one_king(m, color),
    ensures
        legal_count(n.turn_of(color.other())) == legal_count(m.turn_of(color)),
        mobility(n, color.other()) == mobility(m, color),
{
    lemma_mirrored_turn(m, n, color);
    let a = m.turn_of(color);
    assert forall|i: int, j: int|
        #![trigger a.piece_on(i), a.piece_on(j)]
        a.piece_on(i) == Some(Piece { color, kind: PieceKind::King }) && a.piece_on(j) == Some(
            Piece { color, kind: PieceKind::King },
        ) implies i == j by {
        assert(m.piece_on(i) == a.piece_on(i) && m.piece_on(j) == a.piece_on(j));
    }
    lemma_mirrored_legal_count(a, n.turn_of(color.other()));
}

/// All terms of a color together are those of the other color in the
/// mirror, where the color has no more than one king.
pub proof fn lemma_mirrored_side_total(m: PositionModel, n: PositionModel, color: Color)
    requires
        mirrored(m, n),
        one_king(m, color),
    ensures
        side_total(n, color.other()) == side_total(m, color),
{
    lemma_mirrored_material(m, n, color);
    lemma_mirrored_mobility(m, n, color);
    lemma_mirrored_pawn_structure(m, n, color);
    lemma_mirrored_space(m, n, color);
}

/// The side that is ahead lacks the material to mate exactly if the side
/// that is ahead in the mirror lacks it.
pub proof fn lemma_mirrored_insufficient(m: PositionModel, n: PositionModel, total: int)
    requires
        mirrored(m, n),
        total != 0,
    ensures
        insufficient_material(n, -total) == insufficient_material(m, total),
{
    let winner = if total > 0 {
        Color::White
    } else {
        Color::Black
    };
    let loser = winner.other();
    lemma_mirrored_counts(m, n, winner, PieceKind::Pawn);
    lemma_mirrored_counts(m, n, winner, PieceKind::Knight);
    lemma_mirrored_counts(m, n, winner, PieceKind::Bishop);
    lemma_mirrored_counts(m, n, winner, PieceKind::Rook);
    lemma_mirrored_counts(m, n, winner, PieceKind::Queen);
    lemma_mirrored_counts(m, n, loser, PieceKind::Pawn);
    assert forall|i: int| 0 <= i < 64 implies ((#[trigger] n.piece_on(flip(i)) == Some(
        Piece { color: loser, kind: PieceKind::Knight },
    ) || n.piece_on(flip(i)) == Some(Piece { color: loser, kind: PieceKind::Bishop })) <==> (
    m.piece_on(i) == Some(Piece { color: winner, kind: PieceKind::Knight }) || m.piece_on(i)
        == Some(Piece { color: winner, kind: PieceKind::Bishop }))) by {}
    lemma_count_flipped(
        |i: int|
            m.piece_on(i) == Some(Piece { color: winner, kind: PieceKind::Knight }) || m.piece_on(
                i,
            ) == Some(Piece { color: winner, kind: PieceKind::Bishop }),
        |i: int|
            n.piece_on(i) == Some(Piece { color: loser, kind: PieceKind::Knight }) || n.piece_on(
                i,
            ) == Some(Piece { color: loser, kind: PieceKind::Bishop }),
    );
}

/// Whether the position is one in which neither side could move, were it
/// its turn, and at least one of them is in check: the evaluation then says
/// which side is mated by looking at White first.
pub open spec fn both_stuck(m: PositionModel) -> bool {
    &&& legal_count(m.turn_of(Color::White)) == 0
    &&& legal_count(m.turn_of(Color::Black)) == 0
    &&& (m.in_check(Color::White) || m.in_check(Color::Black))
}

/// The evaluation of the mirrored position is the negative of the
/// evaluation of the position: what is good for White here is as good for
/// Black there. This holds where each color has no more than one king, and
/// the position is not one in which neither side could move and one is in
/// check.
pub proof fn lemma_evaluation_mirrored(m: PositionModel, n: PositionModel)
    requires
        mirrored(m, n),
        one_king(m, Color::White),
        one_king(m, Color::Black),
        !both_stuck(m),
    ensures
        evaluation(n) == -evaluation(m),
{
    lemma_mirrored_side_total(m, n, Color::White);
    lemma_mirrored_side_total(m, n, Color::Black);
    lemma_mirrored_mobility(m, n, Color::White);
    lemma_mirrored_mobility(m, n, Color::Black);
    lemma_mirrored_check(m, n, Color::White);
    lemma_mirrored_check(m, n, Color::Black);
    let total = centipawns(m);
    assert(centipawns(n) == -total);
    if total != 0 {
        lemma_mirrored_insufficient(m, n, total);
    }
}

/// The position seen in the mirror, with the same clocks and no history.
pub open spec fn mirror(m: PositionModel) -> PositionModel {
    PositionModel {
        board: Seq::new(64, |i: int| turned(m.board[flip(i)])),
        side: m.side.other(),
        castle: turned_rights(m.castle),
        ep: match m.ep {
            Some(e) => Some(Square::at(flip(e.idx()))),
            None => None,
        },
        halfmove: m.halfmove,
        fullmove: m.fullmove,
        history: Seq::empty(),
    }
}

/// The position seen in the mirror is the position's mirror image, where
/// the en-passant square, if there is one, is on the board.
pub proof fn lemma_mirror(m: PositionModel)
    requires
        m.wf(),
        m.ep.is_some() ==> 0 <= m.ep.unwrap().idx() < 64,
    ensures
        mirrored(m, mirror(m)),
{
    let n = mirror(m);
    assert forall|i: int| #[trigger] n.piece_on(flip(i)) == turned(m.piece_on(i)) by {
        lemma_flip(i);
    }
    if m.ep.is_some() {
        lemma_flip(m.ep.unwrap().idx());
        Square::lemma_at_idx(flip(m.ep.unwrap().idx()));
    }
}

/// The evaluation of the position seen in the mirror is the negative of
/// the evaluation of the position, where each color has no more than one
/// king, the en-passant square is on the board, and the position is not one
/// in which neither side could move and one is in check.
pub proof fn lemma_evaluation_symmetric(m: PositionModel)
    requires
        m.wf(),
        m.ep.is_some() ==> 0 <= m.ep.unwrap().idx() < 64,
        one_king(m, Color::White),
        one_king(m, Color::Black),
        !both_stuck(m),
    ensures
        evaluation(mirror(m)) == -evaluation(m),
{
    lemma_mirror(m);
    lemma_evaluation_mirrored(m, mirror(m));
}

} // verus!
