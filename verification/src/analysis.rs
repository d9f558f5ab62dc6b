//! Analyses of one position that an evaluation asks for again and again:
//! the doubled, isolated and backward pawns, the legal moves and the
//! attacked squares of either side. Each is worked out once and kept.

use crate::attacks::{attack_reach, attacks};
use crate::model::PositionModel;
use crate::movegen::{legal_count, legal_list, legal_moves, lemma_list_counts};
use crate::moves::Move;
use crate::position::Position;
use crate::squareset::SquareSet;
use crate::types::{Color, File, Piece, PieceKind, Rank};
use vstd::prelude::*;

verus! {

impl PositionModel {
    /// Whether a pawn of the color stands on the given rank and file.
    pub open spec fn pawn_at(self, color: Color, rank: int, file: int) -> bool {
        &&& 0 <= rank < 8
        &&& 0 <= file < 8
        &&& self.piece_on(rank * 8 + file) == Some(Piece { color, kind: PieceKind::Pawn })
    }

    /// Whether a pawn of the color stands on square `i`.
    pub open spec fn pawn_on(self, color: Color, i: int) -> bool {
        self.piece_on(i) == Some(Piece { color, kind: PieceKind::Pawn })
    }

    /// Whether a pawn of the color stands on the given file.
    pub open spec fn pawn_on_file(self, color: Color, file: int) -> bool {
        exists|rank: int| #[trigger] self.pawn_at(color, rank, file)
    }

    /// Whether the pawn of the color on square `i` is doubled: another pawn
    /// of the color stands on the same file.
    pub open spec fn doubled(self, color: Color, i: int) -> bool {
        &&& self.pawn_on(color, i)
        &&& exists|rank: int| rank != i / 8 && #[trigger] self.pawn_at(color, rank, i % 8)
    }

    /// Whether the pawn of the color on square `i` is isolated: no pawn of
    /// the color stands on a file next to its own.
    pub open spec fn isolated(self, color: Color, i: int) -> bool {
        &&& self.pawn_on(color, i)
        &&& !self.pawn_on_file(color, i % 8 - 1)
        &&& !self.pawn_on_file(color, i % 8 + 1)
    }

    /// Whether a pawn of the color stands on the given rank, on a file next to the given one.
    pub open spec fn pawn_beside(self, color: Color, rank: int, file: int) -> bool {
        self.pawn_at(color, rank, file - 1) || self.pawn_at(color, rank, file + 1)
    }

    /// Whether the pawn of the color on square `i` is backward: going from
    /// the color's first rank up the board, it is met before any pawn of
    /// the color on a neighbouring file, other than pawns that stand side by
    /// side with a pawn on its own file.
    pub open spec fn backward_pawn(self, color: Color, i: int) -> bool {
        &&& self.pawn_on(color, i)
        &&& !self.pawn_beside(color, i / 8, i % 8)
        &&& forall|rank: int|
            0 <= rank < 8 && is_behind(color, rank, i / 8) ==> (#[trigger] self.pawn_at(
                color,
                rank,
                i % 8,
            ) <==> self.pawn_beside(color, rank, i % 8))
    }

    /// The position in which it is the color's turn: this one, or the one
    /// after the null move.
    pub open spec fn turn_of(self, color: Color) -> PositionModel {
        if self.side == color {
            self
        } else {
            self.after_make(Move::pack(0, 0, 0))
        }
    }

    /// Whether a piece of the given color and kind attacks square `t`: a
    /// slider up to the first occupied square on its way.
    pub open spec fn attacked_by_kind(self, color: Color, kind: PieceKind, t: int) -> bool {
        exists|s: int|
            self.piece_on(s) == Some(Piece { color, kind }) && #[trigger] attack_reach(
                kind,
                color,
                s,
                self.occupancy(),
                t,
            )
    }

    /// Whether a piece of the given color, of one of the six kinds, attacks square `t`.
    pub open spec fn attacked_by_kinds(self, color: Color, t: int) -> bool {
        exists|k: int|
            0 <= k < 6 && #[trigger] self.attacked_by_kind(color, PieceKind::from_ordinal(k), t)
    }

    /// A piece of one of the six kinds attacks a square exactly if a piece
    /// of the color attacks it.
    pub proof fn lemma_attacked_by_kinds(self, color: Color, t: int)
        ensures
            self.attacked_by_kinds(color, t) == self.attacked_by(color, t),
    {
        if self.attacked_by_kinds(color, t) {
            let k = choose|k: int|
                0 <= k < 6 && #[trigger] self.attacked_by_kind(
                    color,
                    PieceKind::from_ordinal(k),
                    t,
                );
            let kind = PieceKind::from_ordinal(k);
            let s = choose|s: int|
                self.piece_on(s) == Some(Piece { color, kind }) && #[trigger] attack_reach(
                    kind,
                    color,
                    s,
                    self.occupancy(),
                    t,
                );
            assert(self.attacks_square(color, s, t));
        }
        if self.attacked_by(color, t) {
            let s = choose|s: int| #[trigger] self.attacks_square(color, s, t);
            let p = self.piece_on(s).unwrap();
            let k = p.kind.ordinal();
            assert(PieceKind::from_ordinal(k) == p.kind);
            assert(self.piece_on(s) == Some(Piece { color, kind: p.kind }) && attack_reach(
                p.kind,
                color,
                s,
                self.occupancy(),
                t,
            ));
            assert(self.attacked_by_kind(color, PieceKind::from_ordinal(k), t));
        }
    }
}

/// Whether rank `a` lies behind rank `b`, seen from the color's side.
pub open spec fn is_behind(color: Color, a: int, b: int) -> bool {
    match color {
        Color::White => a < b,
        Color::Black => a > b,
    }
}

/// Analyses of one position, each worked out when first asked for.
pub struct Analysis<'a> {
    pos: &'a Position,
    doubled_pawns: [Option<SquareSet>; 2],
    isolated_pawns: [Option<SquareSet>; 2],
    backward_pawns: [Option<SquareSet>; 2],
    white_moves: Option<Vec<Move>>,
    black_moves: Option<Vec<Move>>,
    attacked_by: [Option<SquareSet>; 12],
}

/// Whether the list holds the legal moves of the position, each once, in
/// the order in which they are generated.
pub open spec fn lists_legal(list: Seq<Move>, m: PositionModel) -> bool {
    &&& list == legal_list(m)
    &&& list.no_duplicates()
    &&& forall|x: Move| #[trigger] list.contains(x) <==> m.legal(x)
}

impl<'a> Analysis<'a> {
    /// The model of the position that is analysed.
    pub closed spec fn model(&self) -> PositionModel {
        self.pos@
    }

    /// Whether what is kept is what the analyses give.
    pub closed spec fn wf(&self) -> bool {
        &&& self.pos.wf()
        &&& forall|c: int|
            0 <= c < 2 ==> match #[trigger] self.doubled_pawns@[c] {
                Some(set) => forall|i: int|
                    #![trigger set.has(i)]
                    set.has(i) <==> self.pos@.doubled(color_of(c), i),
                None => true,
            }
        &&& forall|c: int|
            0 <= c < 2 ==> match #[trigger] self.isolated_pawns@[c] {
                Some(set) => forall|i: int|
                    #![trigger set.has(i)]
                    set.has(i) <==> self.pos@.isolated(color_of(c), i),
                None => true,
            }
        &&& forall|c: int|
            0 <= c < 2 ==> match #[trigger] self.backward_pawns@[c] {
                Some(set) => forall|i: int|
                    #![trigger set.has(i)]
                    set.has(i) <==> self.pos@.backward_pawn(color_of(c), i),
                None => true,
            }
        &&& match self.white_moves {
            Some(list) => lists_legal(list@, self.pos@.turn_of(Color::White)),
            None => true,
        }
        &&& match self.black_moves {
            Some(list) => lists_legal(list@, self.pos@.turn_of(Color::Black)),
            None => true,
        }
        &&& forall|p: int|
            0 <= p < 12 ==> match #[trigger] self.attacked_by@[p] {
                Some(set) => forall|t: int|
                    #![trigger set.has(t)]
                    set.has(t) <==> (0 <= t < 64 && self.pos@.attacked_by_kind(
                        Piece::from_ordinal(p).color,
                        Piece::from_ordinal(p).kind,
                        t,
                    )),
                None => true,
            }
    }

    /// The analyses of a position, none of them worked out yet.
    pub fn new(pos: &'a Position) -> (a: Analysis<'a>)
        requires
            pos.wf(),
        ensures
            a.wf(),
            a.model() == pos@,
    {
        Analysis {
            pos,
            doubled_pawns: [None;2],
            isolated_pawns: [None;2],
            backward_pawns: [None;2],
            white_moves: None,
            black_moves: None,
            attacked_by: [None;12],
        }
    }

    /// The position that is analysed.
    pub fn position(&self) -> (p: &Position)
        requires
            self.wf(),
        ensures
            p.wf(),
            p@ == self.model(),
    {
        self.pos
    }

    /// The doubled pawns of the color.
    pub fn doubled_pawns(&mut self, color: Color) -> (r: SquareSet)
        requires
            old(self).wf(),
        ensures
            final(self).wf(),
            final(self).model() == old(self).model(),
            forall|i: int| #![trigger r.has(i)] r.has(i) <==> old(self).model().doubled(color, i),
    {
        let c = color.index();
        match self.doubled_pawns[c] {
            Some(set) => set,
            None => {
                let set = doubled_pawns(self.pos, color);
                self.doubled_pawns[c] = Some(set);
                set
            },
        }
    }

    /// The isolated pawns of the color.
    pub fn isolated_pawns(&mut self, color: Color) -> (r: SquareSet)
        requires
            old(self).wf(),
        ensures
            final(self).wf(),
            final(self).model() == old(self).model(),
            forall|i: int| #![trigger r.has(i)] r.has(i) <==> old(self).model().isolated(color, i),
    {
        let c = color.index();
        match self.isolated_pawns[c] {
            Some(set) => set,
            None => {
                let set = isolated_pawns(self.pos, color);
                self.isolated_pawns[c] = Some(set);
                set
            },
        }
    }

    /// The backward pawns of the color.
    pub fn backward_pawns(&mut self, color: Color) -> (r: SquareSet)
        requires
            old(self).wf(),
        ensures
            final(self).wf(),
            final(self).model() == old(self).model(),
            forall|i: int| #![trigger r.has(i)] r.has(i) <==> old(self).model().backward_pawn(color, i),
    {
        let c = color.index();
        match self.backward_pawns[c] {
            Some(set) => set,
            None => {
                let set = backward_pawns(self.pos, color);
                self.backward_pawns[c] = Some(set);
                set
            },
        }
    }

    /// Works out the legal moves of the color, if that is not done yet.
    fn fill_moves(&mut self, color: Color)
        requires
            old(self).wf(),
        ensures
            final(self).wf(),
            final(self).model() == old(self).model(),
            match color {
                Color::White => final(self).white_moves.is_some(),
                Color::Black => final(self).black_moves.is_some(),
            },
    {
        let known = match color {
            Color::White => self.white_moves.is_some(),
            Color::Black => self.black_moves.is_some(),
        };
        if known {
            return ;
        }
        // The moves of the side that is not to move are those it would have
        // after a null move of the other.
        let list = if self.pos.side_to_move() != color {
            proof {
                Move::lemma_pack(0, 0, 0);
            }
            let passed = self.pos.clone_and_make_move(Move::null());
            legal_moves(&passed)
        } else {
            legal_moves(self.pos)
        };
        match color {
            Color::White => {
                self.white_moves = Some(list);
            },
            Color::Black => {
                self.black_moves = Some(list);
            },
        }
    }

    /// The legal moves of the color, each once, in the order in which they
    /// are generated; where the color is not to move, the moves it would have
    /// if it were.
    pub fn moves(&mut self, color: Color) -> (r: Vec<Move>)
        requires
            old(self).wf(),
        ensures
            final(self).wf(),
            final(self).model() == old(self).model(),
            r@ == legal_list(old(self).model().turn_of(color)),
            lists_legal(r@, old(self).model().turn_of(color)),
    {
        self.fill_moves(color);
        let kept: &Vec<Move> = match color {
            Color::White => self.white_moves.as_ref().unwrap(),
            Color::Black => self.black_moves.as_ref().unwrap(),
        };
        let mut r: Vec<Move> = Vec::new();
        let mut k: usize = 0;
        while k < kept.len()
            invariant
                k <= kept.len(),
                r@ == kept@.subrange(0, k as int),
            decreases kept.len() - k,
        {
            r.push(kept[k]);
            k += 1;
            assert(r@ =~= kept@.subrange(0, k as int));
        }
        assert(r@ =~= kept@);
        r
    }

    /// The number of legal moves of the color.
    pub fn mobility(&mut self, color: Color) -> (n: usize)
        requires
            old(self).wf(),
        ensures
            final(self).wf(),
            final(self).model() == old(self).model(),
            n == legal_count(old(self).model().turn_of(color)),
            n <= 65536,
    {
        self.fill_moves(color);
        let ghost turn = self.model().turn_of(color);
        match color {
            Color::White => {
                let list = self.white_moves.as_ref().unwrap();
                proof {
                    lemma_list_counts(list@, |x: Move| turn.legal(x));
                }
                list.len()
            },
            Color::Black => {
                let list = self.black_moves.as_ref().unwrap();
                proof {
                    lemma_list_counts(list@, |x: Move| turn.legal(x));
                }
                list.len()
            },
        }
    }

    /// The squares that the color's pieces of the given kind attack: the
    /// sliders up to the first occupied square on their way.
    pub fn attacked_by_kind(&mut self, color: Color, kind: PieceKind) -> (r: SquareSet)
        requires
            old(self).wf(),
        ensures
            final(self).wf(),
            final(self).model() == old(self).model(),
            forall|t: int|
                #![trigger r.has(t)]
                r.has(t) <==> (0 <= t < 64 && old(self).model().attacked_by_kind(color, kind, t)),
    {
        let piece = Piece { color, kind };
        let p = piece.index();
        proof {
            piece.lemma_ordinal();
        }
        match self.attacked_by[p] {
            Some(set) => set,
            None => {
                let set = attacked_by_kind(self.pos, color, kind);
                self.attacked_by[p] = Some(set);
                set
            },
        }
    }

    /// The squares that the color's pieces attack.
    pub fn attacked_by(&mut self, color: Color) -> (r: SquareSet)
        requires
            old(self).wf(),
        ensures
            final(self).wf(),
            final(self).model() == old(self).model(),
            forall|t: int|
                #![trigger r.has(t)]
                r.has(t) <==> (0 <= t < 64 && old(self).model().attacked_by(color, t)),
    {
        let ghost m = self.model();
        let pawns = self.attacked_by_kind(color, PieceKind::Pawn);
        let knights = self.attacked_by_kind(color, PieceKind::Knight);
        let bishops = self.attacked_by_kind(color, PieceKind::Bishop);
        let rooks = self.attacked_by_kind(color, PieceKind::Rook);
        let queens = self.attacked_by_kind(color, PieceKind::Queen);
        let kings = self.attacked_by_kind(color, PieceKind::King);
        let r = pawns.or(bishops).or(knights).or(rooks).or(queens).or(kings);
        proof {
            assert forall|t: int| m.attacked_by_kinds(color, t) == m.attacked_by(color, t) by {
                m.lemma_attacked_by_kinds(color, t);
            }
            assert forall|t: int| #![trigger r.has(t)] r.has(t) <==> (0 <= t < 64 && m.attacked_by_kinds(
                color,
                t,
            )) by {
                if r.has(t) {
                    if pawns.has(t) {
                        assert(m.attacked_by_kind(color, PieceKind::from_ordinal(0), t));
                    } else if knights.has(t) {
                        assert(m.attacked_by_kind(color, PieceKind::from_ordinal(1), t));
                    } else if bishops.has(t) {
                        assert(m.attacked_by_kind(color, PieceKind::from_ordinal(2), t));
                    } else if rooks.has(t) {
                        assert(m.attacked_by_kind(color, PieceKind::from_ordinal(3), t));
                    } else if queens.has(t) {
                        assert(m.attacked_by_kind(color, PieceKind::from_ordinal(4), t));
                    } else {
                        assert(kings.has(t));
                        assert(m.attacked_by_kind(color, PieceKind::from_ordinal(5), t));
                    }
                }
                if 0 <= t < 64 && m.attacked_by_kinds(color, t) {
                    let k = choose|k: int|
                        0 <= k < 6 && #[trigger] m.attacked_by_kind(
                            color,
                            PieceKind::from_ordinal(k),
                            t,
                        );
                    assert(pawns.has(t) || knights.has(t) || bishops.has(t) || rooks.has(t)
                        || queens.has(t) || kings.has(t));
                }
            }
        }
        r
    }
}

/// The color with the given number: White for 0, Black for any other.
pub open spec fn color_of(c: int) -> Color {
    if c == 0 {
        Color::White
    } else {
        Color::Black
    }
}

/// The squares of the files next to the given one.
fn adjacent_files(file: File) -> (r: SquareSet)
    ensures
        forall|i: int|
            #![trigger r.has(i)]
            r.has(i) <==> (0 <= i < 64 && (i % 8 == file.idx() - 1 || i % 8 == file.idx() + 1)),
{
    let f = file.as_u8();
    let left = if f > 0 {
        SquareSet::all().file(File::new(f - 1))
    } else {
        SquareSet::empty()
    };
    let right = if f < 7 {
        SquareSet::all().file(File::new(f + 1))
    } else {
        SquareSet::empty()
    };
    left.or(right)
}

/// The doubled pawns of the color.
fn doubled_pawns(pos: &Position, color: Color) -> (r: SquareSet)
    requires
        pos.wf(),
    ensures
        forall|i: int| #![trigger r.has(i)] r.has(i) <==> pos@.doubled(color, i),
{
    let pawns = pos.pawns(color);
    let mut answer = SquareSet::empty();
    let mut f: u8 = 0;
    while f < 8
        invariant
            f <= 8,
            pos.wf(),
            forall|i: int| #![trigger pawns.has(i)] pawns.has(i) <==> pos@.pawn_on(color, i),
            forall|i: int|
                #![trigger answer.has(i)]
                answer.has(i) <==> (pos@.doubled(color, i) && i % 8 < f),
        decreases 8 - f,
    {
        let pawns_on_file = pawns.file(File::new(f));
        // More than one pawn on the file: a lowest one, and another.
        let mut it = pawns_on_file.into_iter();
        let first = it.next();
        let second = it.next();
        let ghost before = answer;
        if first.is_some() && second.is_some() {
            answer = answer.or(pawns_on_file);
        }
        proof {
            pawns_on_file.lemma_view();
            assert forall|i: int| #![trigger answer.has(i)] answer.has(i) <==> (pos@.doubled(
                color,
                i,
            ) && i % 8 < f + 1) by {
                if 0 <= i < 64 && i % 8 == f {
                    assert(pawns_on_file.has(i) <==> pos@.pawn_on(color, i));
                    if first.is_some() && second.is_some() {
                        let a = first.unwrap().idx();
                        let b = second.unwrap().idx();
                        assert(pawns_on_file.has(a) && pawns_on_file.has(b) && a != b);
                        if pawns_on_file.has(i) {
                            let other = if i == a {
                                b
                            } else {
                                a
                            };
                            assert(pos@.pawn_at(color, other / 8, i % 8));
                        }
                    } else if pos@.doubled(color, i) {
                        let rank = choose|rank: int|
                            rank != i / 8 && #[trigger] pos@.pawn_at(color, rank, i % 8);
                        let j = rank * 8 + f;
                        assert(pawns_on_file.has(j) && pawns_on_file.has(i) && i != j);
                    }
                } else {
                    assert(before.has(i) == answer.has(i)) by {
                        assert(!pawns_on_file.has(i));
                    }
                }
            }
        }
        f += 1;
    }
    answer
}

/// The isolated pawns of the color.
fn isolated_pawns(pos: &Position, color: Color) -> (r: SquareSet)
    requires
        pos.wf(),
    ensures
        forall|i: int| #![trigger r.has(i)] r.has(i) <==> pos@.isolated(color, i),
{
    let pawns = pos.pawns(color);
    let mut answer = SquareSet::empty();
    let mut f: u8 = 0;
    while f < 8
        invariant
            f <= 8,
            pos.wf(),
            forall|i: int| #![trigger pawns.has(i)] pawns.has(i) <==> pos@.pawn_on(color, i),
            forall|i: int|
                #![trigger answer.has(i)]
                answer.has(i) <==> (pos@.isolated(color, i) && i % 8 < f),
        decreases 8 - f,
    {
        let file = File::new(f);
        let adj_files = adjacent_files(file);
        let pawns_on_current_file = pawns.file(file);
        let pawns_on_adjacent_file = pawns.and(adj_files);
        let ghost before = answer;
        if !pawns_on_current_file.is_empty() && pawns_on_adjacent_file.is_empty() {
            answer = answer.or(pawns_on_current_file);
        }
        proof {
            pawns_on_current_file.lemma_view();
            pawns_on_adjacent_file.lemma_view();
            assert forall|i: int| #![trigger answer.has(i)] answer.has(i) <==> (pos@.isolated(
                color,
                i,
            ) && i % 8 < f + 1) by {
                if 0 <= i < 64 && i % 8 == f {
                    assert(pawns_on_current_file.has(i) <==> pos@.pawn_on(color, i));
                    if pawns_on_adjacent_file.none() {
                        assert forall|rank: int| !#[trigger] pos@.pawn_at(color, rank, f - 1) by {
                            assert(!pawns_on_adjacent_file.has(rank * 8 + f - 1));
                        }
                        assert forall|rank: int| !#[trigger] pos@.pawn_at(color, rank, f + 1) by {
                            assert(!pawns_on_adjacent_file.has(rank * 8 + f + 1));
                        }
                    } else {
                        let j = choose|j: int| pawns_on_adjacent_file.has(j);
                        assert(pawns.has(j) && adj_files.has(j));
                        assert(pos@.pawn_at(color, j / 8, j % 8));
                    }
                } else {
                    assert(before.has(i) == answer.has(i)) by {
                        assert(!pawns_on_current_file.has(i));
                    }
                }
            }
        }
        f += 1;
    }
    answer
}

/// The backward pawn of the color on the given file, if it has one.
fn backward_on_file(pos: &Position, color: Color, file: File) -> (r: SquareSet)
    requires
        pos.wf(),
    ensures
        forall|i: int|
            #![trigger r.has(i)]
            r.has(i) <==> (pos@.backward_pawn(color, i) && i % 8 == file.idx()),
{
    let f = file.as_u8();
    let pawns = pos.pawns(color);
    let current_file_pawns = pawns.file(file);
    let adjacent_file_pawns = pawns.and(adjacent_files(file));
    let mut answer = SquareSet::empty();
    let mut step: u8 = 0;
    let mut done = false;
    let ghost mut found: int = -1;
    while step < 8 && !done
        invariant
            step <= 8,
            f == file.idx(),
            pos.wf(),
            forall|i: int|
                #![trigger current_file_pawns.has(i)]
                current_file_pawns.has(i) <==> (pos@.pawn_on(color, i) && i % 8 == f),
            forall|i: int|
                #![trigger adjacent_file_pawns.has(i)]
                adjacent_file_pawns.has(i) <==> (pos@.pawn_on(color, i) && 0 <= i < 64 && (i % 8
                    == f - 1 || i % 8 == f + 1)),
            !done ==> answer.none(),
            !done ==> forall|rank: int|
                0 <= rank < 8 && walk_index(color, rank) < step ==> (#[trigger] pos@.pawn_at(
                    color,
                    rank,
                    f as int,
                ) <==> pos@.pawn_beside(color, rank, f as int)),
            done ==> forall|i: int|
                #![trigger answer.has(i)]
                answer.has(i) <==> (pos@.backward_pawn(color, i) && i % 8 == f),
        decreases 8 - step + if done { 0int } else { 1int },
    {
        let r: u8 = match color {
            Color::White => step,
            Color::Black => 7 - step,
        };
        let rank = Rank::new(r);
        let current_file_rank = current_file_pawns.rank(rank);
        let adjacent_file_rank = adjacent_file_pawns.rank(rank);
        let cur = !current_file_rank.is_empty();
        let adj = !adjacent_file_rank.is_empty();
        proof {
            current_file_rank.lemma_view();
            adjacent_file_rank.lemma_view();
            assert(cur == pos@.pawn_at(color, r as int, f as int)) by {
                if cur {
                    let j = choose|j: int| current_file_rank.has(j);
                    assert(current_file_pawns.has(j));
                    assert(j == r * 8 + f);
                } else {
                    assert(!current_file_rank.has(r * 8 + f));
                }
            }
            assert(adj == pos@.pawn_beside(color, r as int, f as int)) by {
                if adj {
                    let j = choose|j: int| adjacent_file_rank.has(j);
                    assert(adjacent_file_pawns.has(j));
                    assert(j == r * 8 + f - 1 || j == r * 8 + f + 1);
                } else {
                    assert(!adjacent_file_rank.has(r * 8 + f - 1));
                    assert(!adjacent_file_rank.has(r * 8 + f + 1));
                }
            }
        }
        if cur && !adj {
            answer = answer.or(current_file_rank);
            done = true;
            proof {
                assert forall|i: int| #![trigger answer.has(i)] answer.has(i) <==> (
                pos@.backward_pawn(color, i) && i % 8 == f) by {
                    if answer.has(i) {
                        assert(current_file_rank.has(i));
                        assert(i == r * 8 + f);
                        assert forall|rank2: int|
                            0 <= rank2 < 8 && is_behind(color, rank2, i / 8) implies (
                        #[trigger] pos@.pawn_at(color, rank2, i % 8) <==> pos@.pawn_beside(
                            color,
                            rank2,
                            i % 8,
                        )) by {
                            assert(walk_index(color, rank2) < step);
                        }
                    }
                    if pos@.backward_pawn(color, i) && i % 8 == f {
                        let ri = i / 8;
                        if ri != r {
                            if is_behind(color, r as int, ri) {
                                assert(pos@.pawn_at(color, r as int, i % 8) <==> pos@.pawn_beside(
                                    color,
                                    r as int,
                                    i % 8,
                                ));
                            } else {
                                assert(walk_index(color, ri) < step);
                                assert(pos@.pawn_at(color, ri, f as int));
                            }
                        }
                        assert(current_file_rank.has(i));
                    }
                }
            }
        } else if adj && !cur {
            done = true;
            proof {
                assert forall|i: int| #![trigger answer.has(i)] answer.has(i) <==> (
                pos@.backward_pawn(color, i) && i % 8 == f) by {
                    if pos@.backward_pawn(color, i) && i % 8 == f {
                        let ri = i / 8;
                        if ri == r {
                        } else if is_behind(color, r as int, ri) {
                            assert(pos@.pawn_at(color, r as int, i % 8) <==> pos@.pawn_beside(
                                color,
                                r as int,
                                i % 8,
                            ));
                        } else {
                            assert(walk_index(color, ri) < step);
                            assert(pos@.pawn_at(color, ri, f as int));
                        }
                    }
                }
            }
        } else {
            step += 1;
        }
    }
    proof {
        if !done {
            assert forall|i: int| #![trigger answer.has(i)] answer.has(i) <==> (
            pos@.backward_pawn(color, i) && i % 8 == f) by {
                if pos@.backward_pawn(color, i) && i % 8 == f {
                    let ri = i / 8;
                    assert(walk_index(color, ri) < step);
                    assert(pos@.pawn_at(color, ri, f as int));
                }
            }
        }
    }
    answer
}

/// The place of a rank in the walk from the color's first rank up the board.
pub open spec fn walk_index(color: Color, rank: int) -> int {
    match color {
        Color::White => rank,
        Color::Black => 7 - rank,
    }
}

/// The backward pawns of the color.
fn backward_pawns(pos: &Position, color: Color) -> (r: SquareSet)
    requires
        pos.wf(),
    ensures
        forall|i: int| #![trigger r.has(i)] r.has(i) <==> pos@.backward_pawn(color, i),
{
    let mut answer = SquareSet::empty();
    let mut f: u8 = 0;
    while f < 8
        invariant
            f <= 8,
            pos.wf(),
            forall|i: int|
                #![trigger answer.has(i)]
                answer.has(i) <==> (pos@.backward_pawn(color, i) && i % 8 < f),
        decreases 8 - f,
    {
        let file_answer = backward_on_file(pos, color, File::new(f));
        answer = answer.or(file_answer);
        f += 1;
    }
    proof {
        assert forall|i: int| #![trigger answer.has(i)] answer.has(i) <==> pos@.backward_pawn(
            color,
            i,
        ) by {
            if pos@.backward_pawn(color, i) {
                assert(0 <= i < 64);
            }
        }
    }
    answer
}

/// The squares that the color's pieces of the given kind attack: the
/// sliders up to the first occupied square on their way.
fn attacked_by_kind(pos: &Position, color: Color, kind: PieceKind) -> (r: SquareSet)
    requires
        pos.wf(),
    ensures
        forall|t: int|
            #![trigger r.has(t)]
            r.has(t) <==> (0 <= t < 64 && pos@.attacked_by_kind(color, kind, t)),
{
    let ghost piece = Piece { color, kind };
    let mut result = SquareSet::empty();
    let occ = pos.pieces(Color::White).or(pos.pieces(Color::Black));
    proof {
        assert(occ@ =~= pos@.occupancy());
    }
    let set = pos.pieces_of_kind(color, kind);
    let list = set.to_vec();
    let mut k: usize = 0;
    while k < list.len()
        invariant
            k <= list.len(),
            pos.wf(),
            piece == (Piece { color, kind }),
            occ@ == pos@.occupancy(),
            forall|j: int|
                0 <= j < list.len() ==> pos@.piece_on(#[trigger] list[j].idx()) == Some(piece),
            forall|i: int|
                #![trigger set.has(i)]
                set.has(i) ==> exists|j: int| 0 <= j < list.len() && list[j].idx() == i,
            forall|i: int| #![trigger set.has(i)] set.has(i) <==> pos@.piece_on(i) == Some(piece),
            forall|t: int|
                #![trigger result.has(t)]
                result.has(t) <==> exists|j: int|
                    0 <= j < k && #[trigger] attack_reach(
                        kind,
                        color,
                        list[j].idx(),
                        pos@.occupancy(),
                        t,
                    ),
        decreases list.len() - k,
    {
        let source = list[k];
        let ghost before = result;
        let reach = attacks(kind, color, source, occ);
        result = result.or(reach);
        proof {
            assert forall|t: int| #![trigger result.has(t)] result.has(t) <==> exists|j: int|
                0 <= j < k + 1 && #[trigger] attack_reach(
                    kind,
                    color,
                    list[j].idx(),
                    pos@.occupancy(),
                    t,
                ) by {
                if before.has(t) {
                    let j = choose|j: int|
                        0 <= j < k && #[trigger] attack_reach(
                            kind,
                            color,
                            list[j].idx(),
                            pos@.occupancy(),
                            t,
                        );
                    assert(0 <= j < k + 1 && attack_reach(
                        kind,
                        color,
                        list[j].idx(),
                        pos@.occupancy(),
                        t,
                    ));
                }
                if reach.has(t) {
                    assert(attack_reach(kind, color, list[k as int].idx(), pos@.occupancy(), t));
                }
            }
        }
        k += 1;
    }
    proof {
        result.lemma_view();
        assert forall|t: int| #![trigger result.has(t)] result.has(t) <==> (0 <= t < 64
            && pos@.attacked_by_kind(color, kind, t)) by {
            if result.has(t) {
                let j = choose|j: int|
                    0 <= j < k && #[trigger] attack_reach(
                        kind,
                        color,
                        list[j].idx(),
                        pos@.occupancy(),
                        t,
                    );
                assert(pos@.piece_on(list[j].idx()) == Some(piece));
            }
            if 0 <= t < 64 && pos@.attacked_by_kind(color, kind, t) {
                let s = choose|s: int|
                    pos@.piece_on(s) == Some(Piece { color, kind }) && #[trigger] attack_reach(
                        kind,
                        color,
                        s,
                        pos@.occupancy(),
                        t,
                    );
                assert(set.has(s));
                let j = choose|j: int| 0 <= j < list.len() && list[j].idx() == s;
                assert(attack_reach(kind, color, list[j].idx(), pos@.occupancy(), t));
            }
        }
    }
    result
}

} // verus!
