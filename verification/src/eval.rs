//! Static evaluation: a score for a position, seen from White's side, made
//! of material, mobility, pawn structure, space, threats and tempo. A side
//! without a legal move is mated or stalemated; a lead that cannot be turned
//! into a mate for want of material counts as a draw.

use crate::analysis::Analysis;
use crate::attacks::forward;
use crate::model::PositionModel;
use crate::movegen::legal_count;
use crate::position::Position;
use crate::squareset::{count_where, SquareSet};
use crate::types::{Color, Direction, File, Piece, PieceKind, Rank};
use crate::value::{clamp_centipawns, Value, VALUE_MATE, VALUE_MATED};
use vstd::prelude::*;

verus! {

/// The weights of the terms of the evaluation, in centipawns.
pub const QUEEN_WEIGHT: i32 = 900;
pub const ROOK_WEIGHT: i32 = 500;
pub const BISHOP_WEIGHT: i32 = 300;
pub const KNIGHT_WEIGHT: i32 = 300;
pub const PAWN_WEIGHT: i32 = 100;
pub const MOBILITY_WEIGHT: i32 = 4;
pub const SPACE_WEIGHT: i32 = 13;
pub const THREATS_WEIGHT: i32 = 7;
pub const TEMPO_WEIGHT: i32 = 15;
pub const ISOLATED_PAWN_MODIFIER: i32 = 17;
pub const BACKWARD_PAWN_MODIFIER: i32 = 10;
pub const DOUBLED_PAWN_MODIFIER: i32 = 10;

/// How many pieces of the color and kind stand on the board.
pub open spec fn count_of(m: PositionModel, color: Color, kind: PieceKind) -> int {
    count_where(|i: int| m.piece_on(i) == Some(Piece { color, kind }), 64) as int
}

/// How many pieces of the color stand on the board.
pub open spec fn count_all(m: PositionModel, color: Color) -> int {
    count_where(|i: int| m.friend_on(color, i), 64) as int
}

/// The material of the color in centipawns; the king counts nothing.
pub open spec fn material(m: PositionModel, color: Color) -> int {
    PAWN_WEIGHT * count_of(m, color, PieceKind::Pawn) + KNIGHT_WEIGHT * count_of(
        m,
        color,
        PieceKind::Knight,
    ) + BISHOP_WEIGHT * count_of(m, color, PieceKind::Bishop) + ROOK_WEIGHT * count_of(
        m,
        color,
        PieceKind::Rook,
    ) + QUEEN_WEIGHT * count_of(m, color, PieceKind::Queen)
}

/// The mobility of the color: its number of legal moves, less four, weighted.
pub open spec fn mobility(m: PositionModel, color: Color) -> int {
    (legal_count(m.turn_of(color)) - 4) * MOBILITY_WEIGHT
}

/// The malus for the color's isolated, doubled and backward pawns, which is not positive.
pub open spec fn pawn_structure(m: PositionModel, color: Color) -> int {
    -(ISOLATED_PAWN_MODIFIER * count_where(|i: int| m.isolated(color, i), 64)
        + DOUBLED_PAWN_MODIFIER * count_where(|i: int| m.doubled(color, i), 64)
        + BACKWARD_PAWN_MODIFIER * count_where(|i: int| m.backward_pawn(color, i), 64))
}

/// Whether square `i` lies on the files c to f, in the three ranks in front
/// of the color's first rank.
pub open spec fn in_space_zone(color: Color, i: int) -> bool {
    &&& 0 <= i < 64
    &&& 2 <= i % 8 <= 5
    &&& match color {
        Color::White => 1 <= i / 8 <= 3,
        Color::Black => 4 <= i / 8 <= 6,
    }
}

/// Whether square `i` is safe for the color: in its space zone, free of
/// its own pawns and not attacked by a pawn of the other color.
pub open spec fn safe_square(m: PositionModel, color: Color, i: int) -> bool {
    &&& in_space_zone(color, i)
    &&& !m.pawn_on(color, i)
    &&& !m.attacked_by_kind(color.other(), PieceKind::Pawn, i)
}

/// Whether a pawn of the color stands on square `i` or up to two squares in front of it.
pub open spec fn behind_pawn(m: PositionModel, color: Color, i: int) -> bool {
    &&& 0 <= i < 64
    &&& (m.pawn_on(color, i) || m.pawn_on(color, i + 8 * forward(color)) || m.pawn_on(
        color,
        i + 16 * forward(color),
    ))
}

/// Whether square `i` is wholly safe for the color: safe, behind one of its
/// pawns, and attacked by no piece of the other color.
pub open spec fn wholly_safe_square(m: PositionModel, color: Color, i: int) -> bool {
    &&& safe_square(m, color, i)
    &&& behind_pawn(m, color, i)
    &&& !m.attacked_by(color.other(), i)
}

/// The space of the color: its safe squares, the wholly safe ones counted twice, weighted.
pub open spec fn space(m: PositionModel, color: Color) -> int {
    (count_where(|i: int| safe_square(m, color, i), 64) + count_where(
        |i: int| wholly_safe_square(m, color, i),
        64,
    )) * SPACE_WEIGHT
}

/// Whether a piece of the other color stands on square `i` that the color
/// attacks and the other color does not defend.
pub open spec fn weak_piece(m: PositionModel, color: Color, i: int) -> bool {
    &&& m.friend_on(color.other(), i)
    &&& !m.attacked_by(color.other(), i)
    &&& m.attacked_by(color, i)
}

/// The threats of the color: the weak pieces of the other color, weighted.
pub open spec fn threats(m: PositionModel, color: Color) -> int {
    count_where(|i: int| weak_piece(m, color, i), 64) * THREATS_WEIGHT
}

/// The tempo: a bonus for the side to move.
pub open spec fn tempo(m: PositionModel, color: Color) -> int {
    if m.side == color {
        TEMPO_WEIGHT as int
    } else {
        0
    }
}

/// All terms of the color together.
pub open spec fn side_total(m: PositionModel, color: Color) -> int {
    material(m, color) + mobility(m, color) + pawn_structure(m, color) + space(m, color) + tempo(
        m,
        color,
    ) + threats(m, color)
}

/// The score in centipawns before it is looked at for want of material:
/// White's terms less Black's.
pub open spec fn centipawns(m: PositionModel) -> int {
    side_total(m, Color::White) - side_total(m, Color::Black)
}

/// Whether the side that is ahead cannot mate for want of material: it has
/// no pawn, and either no more than one minor piece and neither rook nor
/// queen; or two knights and nothing else against a bare king; or a bare
/// king against a bare king.
pub open spec fn insufficient_material(m: PositionModel, total: int) -> bool {
    let winner = if total > 0 {
        Color::White
    } else {
        Color::Black
    };
    let loser = winner.other();
    let minors = count_where(
        |i: int|
            m.piece_on(i) == Some(Piece { color: winner, kind: PieceKind::Knight }) || m.piece_on(
                i,
            ) == Some(Piece { color: winner, kind: PieceKind::Bishop }),
        64,
    );
    &&& count_of(m, winner, PieceKind::Pawn) == 0
    &&& {
        ||| (count_of(m, winner, PieceKind::Rook) == 0 && count_of(m, winner, PieceKind::Queen)
            == 0 && minors <= 1)
        ||| (count_all(m, loser) == 1 && count_of(m, winner, PieceKind::Bishop) == 0 && count_of(
            m,
            winner,
            PieceKind::Rook,
        ) == 0 && count_of(m, winner, PieceKind::Queen) == 0 && count_of(
            m,
            winner,
            PieceKind::Knight,
        ) == 2)
        ||| (count_all(m, winner) == 1 && count_all(m, loser) == 1)
    }
}

/// The score of the position from White's side, as a number: mated or
/// mate where a side has no legal move and is in check, zero where it has
/// none and is not, and else the centipawns, zero for want of material.
pub open spec fn evaluation(m: PositionModel) -> int {
    if legal_count(m.turn_of(Color::White)) == 0 {
        if m.in_check(Color::White) {
            Value::mated_score(0)
        } else {
            0
        }
    } else if legal_count(m.turn_of(Color::Black)) == 0 {
        if m.in_check(Color::Black) {
            Value::mate_score(0)
        } else {
            0
        }
    } else if insufficient_material(m, centipawns(m)) {
        0
    } else {
        clamp_centipawns(centipawns(m))
    }
}

/// The number of squares in the set, which are those of which `which` holds.
fn count(set: SquareSet, which: Ghost<spec_fn(int) -> bool>) -> (n: i32)
    requires
        forall|i: int| 0 <= i < 64 ==> (set.has(i) <==> #[trigger] (which@)(i)),
    ensures
        n == count_where(which@, 64),
        0 <= n <= 64,
{
    proof {
        set.lemma_len_counts(which@);
    }
    set.len() as i32
}

/// An evaluation of one position in progress: the terms of both sides.
pub struct Evaluator<'a> {
    analysis: Analysis<'a>,
    mobility: [i32; 2],
    material: [i32; 2],
    pawn_modifiers: [i32; 2],
    space: [i32; 2],
    threats: [i32; 2],
    tempo: [i32; 2],
}

impl<'a> Evaluator<'a> {
    /// The model of the position that is evaluated.
    pub closed spec fn model(&self) -> PositionModel {
        self.analysis.model()
    }

    /// Whether the analyses behind the evaluation are sound.
    pub closed spec fn wf(&self) -> bool {
        self.analysis.wf()
    }

    /// An evaluation of the position, with all terms at zero.
    pub fn new(pos: &'a Position) -> (e: Evaluator<'a>)
        requires
            pos.wf(),
        ensures
            e.wf(),
            e.model() == pos@,
    {
        Evaluator {
            analysis: Analysis::new(pos),
            mobility: [0;2],
            material: [0;2],
            pawn_modifiers: [0;2],
            space: [0;2],
            threats: [0;2],
            tempo: [0;2],
        }
    }

    /// The material of the color.
    fn material_of(&self, side: Color) -> (r: i32)
        requires
            self.wf(),
        ensures
            r == material(self.model(), side),
            0 <= r <= 64 * 2100,
    {
        let ghost m = self.model();
        let pos = self.analysis.position();
        let pawns = count(
            pos.pawns(side),
            Ghost(|i: int| m.piece_on(i) == Some(Piece { color: side, kind: PieceKind::Pawn })),
        );
        let knights = count(
            pos.knights(side),
            Ghost(|i: int| m.piece_on(i) == Some(Piece { color: side, kind: PieceKind::Knight })),
        );
        let bishops = count(
            pos.bishops(side),
            Ghost(|i: int| m.piece_on(i) == Some(Piece { color: side, kind: PieceKind::Bishop })),
        );
        let rooks = count(
            pos.rooks(side),
            Ghost(|i: int| m.piece_on(i) == Some(Piece { color: side, kind: PieceKind::Rook })),
        );
        let queens = count(
            pos.queens(side),
            Ghost(|i: int| m.piece_on(i) == Some(Piece { color: side, kind: PieceKind::Queen })),
        );
        PAWN_WEIGHT * pawns + KNIGHT_WEIGHT * knights + BISHOP_WEIGHT * bishops + ROOK_WEIGHT
            * rooks + QUEEN_WEIGHT * queens
    }

    /// The malus for the pawn structure of the color.
    fn pawn_structure_of(&mut self, side: Color) -> (r: i32)
        requires
            old(self).wf(),
        ensures
            final(self).wf(),
            final(self).model() == old(self).model(),
            r == pawn_structure(old(self).model(), side),
            -64 * 37 <= r <= 0,
    {
        let ghost m = self.model();
        let isolated = self.analysis.isolated_pawns(side);
        let doubled = self.analysis.doubled_pawns(side);
        let backward = self.analysis.backward_pawns(side);
        let a = count(isolated, Ghost(|i: int| m.isolated(side, i)));
        let b = count(doubled, Ghost(|i: int| m.doubled(side, i)));
        let c = count(backward, Ghost(|i: int| m.backward_pawn(side, i)));
        0 - (ISOLATED_PAWN_MODIFIER * a + DOUBLED_PAWN_MODIFIER * b + BACKWARD_PAWN_MODIFIER * c)
    }

    /// The space of the color: the squares behind its advanced pawns that it holds.
    fn space_of(&mut self, side: Color) -> (r: i32)
        requires
            old(self).wf(),
        ensures
            final(self).wf(),
            final(self).model() == old(self).model(),
            r == space(old(self).model(), side),
            0 <= r <= 128 * 13,
    {
        let ghost m = self.model();
        let center_files = SquareSet::all().file(File::new(2)).or(
            SquareSet::all().file(File::new(3)),
        ).or(SquareSet::all().file(File::new(4))).or(SquareSet::all().file(File::new(5)));
        let our_side_of_the_board = match side {
            Color::White => SquareSet::all().rank(Rank::new(1)).or(
                SquareSet::all().rank(Rank::new(2)),
            ).or(SquareSet::all().rank(Rank::new(3))),
            Color::Black => SquareSet::all().rank(Rank::new(6)).or(
                SquareSet::all().rank(Rank::new(5)),
            ).or(SquareSet::all().rank(Rank::new(4))),
        };
        let space_squares = center_files.and(our_side_of_the_board);
        let down = match side {
            Color::White => Direction::South,
            Color::Black => Direction::North,
        };
        let pawns = self.analysis.position().pawns(side);
        // A square is held only if it is safe from the other side's pawns.
        let enemy_pawn_attacks = self.analysis.attacked_by_kind(side.toggle(), PieceKind::Pawn);
        let safe_squares = space_squares.and(pawns.not()).and(enemy_pawn_attacks.not());
        let one_behind = pawns.shift(down);
        let two_behind = one_behind.shift(down);
        let space_behind_pawns = pawns.or(one_behind).or(two_behind);
        let enemy_attacks = self.analysis.attacked_by(side.toggle());
        let totally_safe_spaces = safe_squares.and(space_behind_pawns).and(enemy_attacks.not());
        proof {
            assert forall|i: int| 0 <= i < 64 implies (#[trigger] space_behind_pawns.has(i)
                <==> behind_pawn(m, side, i)) by {
                assert(one_behind.has(i) <==> pawns.shifted_has(down, i));
                assert(two_behind.has(i) <==> one_behind.shifted_has(down, i));
                let v = down.vector();
                assert(one_behind.has(i - v) <==> pawns.shifted_has(down, i - v));
            }
        }
        let a = count(safe_squares, Ghost(|i: int| safe_square(m, side, i)));
        let b = count(totally_safe_spaces, Ghost(|i: int| wholly_safe_square(m, side, i)));
        (a + b) * SPACE_WEIGHT
    }

    /// The threats of the color: the pieces of the other color that it
    /// attacks and the other color does not defend.
    fn threats_of(&mut self, side: Color) -> (r: i32)
        requires
            old(self).wf(),
        ensures
            final(self).wf(),
            final(self).model() == old(self).model(),
            r == threats(old(self).model(), side),
            0 <= r <= 64 * 7,
    {
        let ghost m = self.model();
        let them = side.toggle();
        let their_pieces = self.analysis.position().pieces(them);
        let their_attacks = self.analysis.attacked_by(them);
        let our_attacks = self.analysis.attacked_by(side);
        // Pieces that their own side attacks are defended.
        let defended_pieces = their_pieces.and(their_attacks);
        let weak_pieces = their_pieces.and(defended_pieces.not()).and(our_attacks);
        let n = count(weak_pieces, Ghost(|i: int| weak_piece(m, side, i)));
        n * THREATS_WEIGHT
    }

    /// Whether the side that is ahead by `input_cp` cannot mate for want of material.
    fn final_adjustment(&self, input_cp: i32) -> (r: bool)
        requires
            self.wf(),
        ensures
            r == insufficient_material(self.model(), input_cp as int),
    {
        let ghost m = self.model();
        let winner = if input_cp > 0 {
            Color::White
        } else {
            Color::Black
        };
        let loser = winner.toggle();
        let pos = self.analysis.position();
        let pawns = count(
            pos.pawns(winner),
            Ghost(|i: int| m.piece_on(i) == Some(Piece { color: winner, kind: PieceKind::Pawn })),
        );
        if pawns != 0 {
            return false;
        }
        let knights = pos.knights(winner);
        let bishops = pos.bishops(winner);
        let knight_count = count(
            knights,
            Ghost(|i: int| m.piece_on(i) == Some(Piece { color: winner, kind: PieceKind::Knight })),
        );
        let bishop_count = count(
            bishops,
            Ghost(|i: int| m.piece_on(i) == Some(Piece { color: winner, kind: PieceKind::Bishop })),
        );
        let rooks = count(
            pos.rooks(winner),
            Ghost(|i: int| m.piece_on(i) == Some(Piece { color: winner, kind: PieceKind::Rook })),
        );
        let queens = count(
            pos.queens(winner),
            Ghost(|i: int| m.piece_on(i) == Some(Piece { color: winner, kind: PieceKind::Queen })),
        );
        let minors = count(
            knights.or(bishops),
            Ghost(
                |i: int|
                    m.piece_on(i) == Some(Piece { color: winner, kind: PieceKind::Knight })
                        || m.piece_on(i) == Some(
                        Piece { color: winner, kind: PieceKind::Bishop },
                    ),
            ),
        );
        let ours = count(pos.pieces(winner), Ghost(|i: int| m.friend_on(winner, i)));
        let theirs = count(pos.pieces(loser), Ghost(|i: int| m.friend_on(loser, i)));
        // A minor piece alone cannot win.
        if rooks == 0 && queens == 0 && minors <= 1 {
            return true;
        }
        // Two knights cannot mate a bare king.
        if theirs == 1 && bishop_count == 0 && rooks == 0 && queens == 0 && knight_count == 2 {
            return true;
        }
        // Bare king against bare king.
        if ours == 1 && theirs == 1 {
            return true;
        }
        false
    }

    /// All terms of the color together.
    fn total_of(&mut self, side: Color) -> (r: i32)
        requires
            old(self).wf(),
            legal_count(old(self).model().turn_of(side)) <= 65536,
        ensures
            final(self).wf(),
            final(self).model() == old(self).model(),
            r == side_total(old(self).model(), side),
            -100_000 <= r <= 500_000,
    {
        let moves = self.analysis.mobility(side);
        let mobility = (moves as i32 - 4) * MOBILITY_WEIGHT;
        let material = self.material_of(side);
        let pawn_modifiers = self.pawn_structure_of(side);
        let space = self.space_of(side);
        let threats = self.threats_of(side);
        let tempo = if self.analysis.position().side_to_move() == side {
            TEMPO_WEIGHT
        } else {
            0
        };
        let c = side.index();
        self.mobility[c] = mobility;
        self.material[c] = material;
        self.pawn_modifiers[c] = pawn_modifiers;
        self.space[c] = space;
        self.threats[c] = threats;
        self.tempo[c] = tempo;
        material + mobility + pawn_modifiers + space + tempo + threats
    }

    /// The score of the position, seen from White's side.
    pub fn evaluate(&mut self) -> (v: Value)
        requires
            old(self).wf(),
        ensures
            final(self).wf(),
            final(self).model() == old(self).model(),
            v.raw() == evaluation(old(self).model()),
    {
        // A side without a legal move is mated or stalemated.
        let white_mobility = self.analysis.mobility(Color::White);
        if white_mobility == 0 {
            if self.analysis.position().is_check(Color::White) {
                return Value::mated_in(0);
            } else {
                return Value::new(0);
            }
        }
        let black_mobility = self.analysis.mobility(Color::Black);
        if black_mobility == 0 {
            if self.analysis.position().is_check(Color::Black) {
                return Value::mate_in(0);
            } else {
                return Value::new(0);
            }
        }
        let white = self.total_of(Color::White);
        let black = self.total_of(Color::Black);
        let total = white - black;
        if self.final_adjustment(total) {
            return Value::new(0);
        }
        // A score of centipawns stays clear of the scores of the mates.
        let bounded: i16 = if total >= VALUE_MATE as i32 {
            VALUE_MATE - 1
        } else if total <= VALUE_MATED as i32 {
            VALUE_MATED + 1
        } else {
            total as i16
        };
        Value::new(bounded)
    }
}

/// The score of the position, seen from White's side: positive where White is ahead.
pub fn evaluate(pos: &Position) -> (v: Value)
    requires
        pos.wf(),
    ensures
        v.raw() == evaluation(pos@),
{
    let mut evaluator = Evaluator::new(pos);
    evaluator.evaluate()
}

} // verus!
