//! Positions: twelve boards of bits, one for each piece, and two for the
//! colors; the side to move, the castling rights, the en-passant square, the
//! clocks, a Zobrist hash kept up to date with every change, and the history
//! that lets a move be unmade.

use crate::model::{
    castle_hash, lemma_placement_update, placement_hash, IrreversibleInformation, PositionModel,
};
use crate::attacks::{
    attacks, king_attacks, knight_attacks, lemma_slider_symmetric, pawn_attacks, queen_attacks,
    queen_reach,
};
use crate::moves::Move;
use crate::squareset::SquareSet;
use crate::types::{CastleStatus, Color, Piece, PieceKind, Square};
use crate::zobrist::{
    en_passant_key, kingside_key, modify_en_passant, modify_kingside_castle, modify_piece,
    modify_queenside_castle, modify_side_to_move, piece_key, queenside_key, side_key,
    ZobristHasher, ZOBRIST_SEED,
};
use std::sync::Arc;
use vstd::prelude::*;

verus! {

/// A position of a game of chess.
#[derive(Debug)]
pub struct Position {
    /// The squares of each piece: six kinds for White, then six for Black.
    sets_by_piece: [SquareSet; 12],
    /// The squares of all pieces of each color.
    sets_by_color: [SquareSet; 2],
    /// The square passed over, if the last move was a double pawn push.
    en_passant_square: Option<Square>,
    /// Plies since the last pawn move or capture.
    halfmove_clock: u16,
    /// The number of the move, which goes up after Black has moved.
    fullmove_clock: u16,
    /// The castling rights of both sides.
    castle_status: CastleStatus,
    /// The side to move.
    side_to_move: Color,
    /// The Zobrist hash of the position.
    zobrist_hash: u64,
    /// One record for each move made and not yet unmade.
    history: Vec<IrreversibleInformation>,
    /// The table of keys that the hash is made of.
    hasher: Arc<ZobristHasher>,
}

/// `Arc::clone` of the standard library: another handle to the same table of keys.
#[verifier::external_body]
fn share(hasher: &Arc<ZobristHasher>) -> (r: Arc<ZobristHasher>)
    ensures
        r == *hasher,
{
    Arc::clone(hasher)
}

/// The piece whose board holds square `i`: the first of the twelve that does.
pub open spec fn holder(sets: Seq<SquareSet>, i: int) -> Option<Piece> {
    if sets[0].has(i) {
        Some(Piece::from_ordinal(0))
    } else if sets[1].has(i) {
        Some(Piece::from_ordinal(1))
    } else if sets[2].has(i) {
        Some(Piece::from_ordinal(2))
    } else if sets[3].has(i) {
        Some(Piece::from_ordinal(3))
    } else if sets[4].has(i) {
        Some(Piece::from_ordinal(4))
    } else if sets[5].has(i) {
        Some(Piece::from_ordinal(5))
    } else if sets[6].has(i) {
        Some(Piece::from_ordinal(6))
    } else if sets[7].has(i) {
        Some(Piece::from_ordinal(7))
    } else if sets[8].has(i) {
        Some(Piece::from_ordinal(8))
    } else if sets[9].has(i) {
        Some(Piece::from_ordinal(9))
    } else if sets[10].has(i) {
        Some(Piece::from_ordinal(10))
    } else if sets[11].has(i) {
        Some(Piece::from_ordinal(11))
    } else {
        None
    }
}

/// How the exclusive-or of keys behaves when one of the parts of a hash changes.
pub proof fn lemma_hash_algebra(p: u64, s: u64, c: u64, e: u64, k: u64)
    by (bit_vector)
    ensures
        ((((p ^ 0) ^ k) ^ s) ^ c) ^ e == (((p ^ s) ^ c) ^ e) ^ k,
        ((((p ^ k) ^ 0) ^ s) ^ c) ^ e == (((p ^ s) ^ c) ^ e) ^ k,
        ((p ^ (s ^ k)) ^ c) ^ e == (((p ^ s) ^ c) ^ e) ^ k,
        ((p ^ s) ^ (c ^ k)) ^ e == (((p ^ s) ^ c) ^ e) ^ k,
        0 ^ k == k,
        k ^ 0 == k,
        k ^ k == 0,
{
}

/// Toggling one of the four castling keys toggles it in their exclusive-or.
pub proof fn lemma_castle_algebra(wk: u64, wq: u64, bk: u64, bq: u64, k: u64)
    by (bit_vector)
    ensures
        (((wk ^ k) ^ wq) ^ bk) ^ bq == (((wk ^ wq) ^ bk) ^ bq) ^ k,
        ((wk ^ (wq ^ k)) ^ bk) ^ bq == (((wk ^ wq) ^ bk) ^ bq) ^ k,
        ((wk ^ wq) ^ (bk ^ k)) ^ bq == (((wk ^ wq) ^ bk) ^ bq) ^ k,
        ((wk ^ wq) ^ bk) ^ (bq ^ k) == (((wk ^ wq) ^ bk) ^ bq) ^ k,
{
}

/// The placement hash of an empty board is zero.
pub proof fn lemma_empty_placement(board: Seq<Option<Piece>>, n: int)
    requires
        board.len() == 64,
        0 <= n <= 64,
        forall|i: int| 0 <= i < 64 ==> board[i].is_none(),
    ensures
        placement_hash(board, n) == 0,
    decreases n,
{
    if n > 0 {
        lemma_empty_placement(board, n - 1);
        lemma_hash_algebra(0, 0, 0, 0, 0);
    }
}

impl View for Position {
    type V = PositionModel;

    /// The model of the position.
    closed spec fn view(&self) -> PositionModel {
        PositionModel {
            board: Seq::new(64, |i: int| holder(self.sets_by_piece@, i)),
            side: self.side_to_move,
            castle: self.castle_status,
            ep: self.en_passant_square,
            halfmove: self.halfmove_clock,
            fullmove: self.fullmove_clock,
            history: self.history@,
        }
    }
}

impl Position {
    /// Whether the position is well formed: every square is on the board of
    /// at most one piece, the board of each color is the union of the boards
    /// of its pieces, and the hash is the Zobrist hash of the position.
    #[verifier::opaque]
    pub closed spec fn wf(&self) -> bool {
        &&& forall|p: int, i: int|
            #![trigger self.sets_by_piece@[p].has(i)]
            0 <= p < 12 && 0 <= i < 64 ==> (self.sets_by_piece@[p].has(i) <==> self@.board[i]
                == Some(Piece::from_ordinal(p)))
        &&& forall|c: int, i: int|
            #![trigger self.sets_by_color@[c].has(i)]
            0 <= c < 2 && 0 <= i < 64 ==> (self.sets_by_color@[c].has(i) <==> (self@.board[i].is_some()
                && self@.board[i].unwrap().color.ordinal() == c))
        &&& self.zobrist_hash == self@.zobrist()
        &&& self.hasher.standard()
        &&& match self.en_passant_square {
            Some(sq) => 0 <= sq.idx() < 64,
            None => true,
        }
    }

    /// The hash that the position keeps and brings up to date with every change.
    pub closed spec fn kept_hash(&self) -> u64 {
        self.zobrist_hash
    }

    /// The hash that a well-formed position keeps is the Zobrist hash of
    /// its placement, side to move, castling rights and en-passant square:
    /// two positions that agree in these keep the same hash, by whatever
    /// moves they were reached.
    pub proof fn lemma_kept_hash(&self, other: &Position)
        requires
            self.wf(),
            other.wf(),
            self@.board == other@.board,
            self@.side == other@.side,
            self@.castle == other@.castle,
            self@.ep == other@.ep,
        ensures
            self.kept_hash() == self@.zobrist(),
            self.kept_hash() == other.kept_hash(),
    {
        reveal(Position::wf);
        self@.lemma_zobrist_by_state(other@);
    }

    /// Whether two positions are the same in all that they hold: every
    /// board of bits, the side to move, the castling rights, the en-passant
    /// square, both clocks, the hash and the history.
    pub closed spec fn same_state(&self, other: &Position) -> bool {
        &&& self.sets_by_piece@ == other.sets_by_piece@
        &&& self.sets_by_color@ == other.sets_by_color@
        &&& self.en_passant_square == other.en_passant_square
        &&& self.halfmove_clock == other.halfmove_clock
        &&& self.fullmove_clock == other.fullmove_clock
        &&& self.castle_status == other.castle_status
        &&& self.side_to_move == other.side_to_move
        &&& self.zobrist_hash == other.zobrist_hash
        &&& self.history@ == other.history@
    }

    /// Well-formed positions with the same model are the same in all that
    /// they hold, bit for bit. So a position in which a move was made and
    /// unmade is, bit for bit, the position before the move, its hash included.
    pub proof fn lemma_same_model(&self, other: &Position)
        requires
            self.wf(),
            other.wf(),
            self@ == other@,
        ensures
            self.same_state(other),
    {
        reveal(Position::wf);
        assert forall|p: int| 0 <= p < 12 implies self.sets_by_piece@[p] == other.sets_by_piece@[p] by {
            assert forall|i: int| 0 <= i < 64 implies self.sets_by_piece@[p].has(i)
                == other.sets_by_piece@[p].has(i) by {
                assert(self.sets_by_piece@[p].has(i) <==> self@.board[i] == Some(
                    Piece::from_ordinal(p),
                ));
                assert(other.sets_by_piece@[p].has(i) <==> other@.board[i] == Some(
                    Piece::from_ordinal(p),
                ));
            }
            self.sets_by_piece@[p].lemma_same_squares(other.sets_by_piece@[p]);
        }
        assert(self.sets_by_piece@ =~= other.sets_by_piece@);
        assert forall|c: int| 0 <= c < 2 implies self.sets_by_color@[c] == other.sets_by_color@[c] by {
            assert forall|i: int| 0 <= i < 64 implies self.sets_by_color@[c].has(i)
                == other.sets_by_color@[c].has(i) by {
                assert(self.sets_by_color@[c].has(i) <==> (self@.board[i].is_some()
                    && self@.board[i].unwrap().color.ordinal() == c));
                assert(other.sets_by_color@[c].has(i) <==> (other@.board[i].is_some()
                    && other@.board[i].unwrap().color.ordinal() == c));
            }
            self.sets_by_color@[c].lemma_same_squares(other.sets_by_color@[c]);
        }
        assert(self.sets_by_color@ =~= other.sets_by_color@);
    }

    /// A well-formed position has a well-formed model.
    pub broadcast proof fn lemma_wf_model(&self)
        requires
            #[trigger] self.wf(),
        ensures
            self@.wf(),
    {
        reveal(Position::wf);
    }

    /// The square on which en passant is possible, if the last move was a double pawn push.
    pub fn en_passant_square(&self) -> (r: Option<Square>)
        ensures
            r == self@.ep,
    {
        self.en_passant_square
    }

    /// Plies since the last pawn move or capture.
    pub fn halfmove_clock(&self) -> (r: u16)
        ensures
            r == self@.halfmove,
    {
        self.halfmove_clock
    }

    /// The number of the move.
    pub fn fullmove_clock(&self) -> (r: u16)
        ensures
            r == self@.fullmove,
    {
        self.fullmove_clock
    }

    /// The side to move.
    pub fn side_to_move(&self) -> (r: Color)
        ensures
            r == self@.side,
    {
        self.side_to_move
    }

    /// The Zobrist hash of the position.
    pub fn zobrist_hash(&self) -> (r: u64)
        requires
            self.wf(),
        ensures
            r == self@.zobrist(),
            r == self.kept_hash(),
    {
        reveal(Position::wf);
        self.zobrist_hash
    }

    /// The number of moves made and not yet unmade.
    pub fn history_len(&self) -> (r: usize)
        ensures
            r == self@.history.len(),
    {
        self.history.len()
    }

    /// Whether the color still has the right to castle kingside.
    pub fn can_castle_kingside(&self, color: Color) -> (r: bool)
        ensures
            r == self@.castle.has_kingside(color),
    {
        self.castle_status.kingside(color)
    }

    /// Whether the color still has the right to castle queenside.
    pub fn can_castle_queenside(&self, color: Color) -> (r: bool)
        ensures
            r == self@.castle.has_queenside(color),
    {
        self.castle_status.queenside(color)
    }

    /// The squares of all pieces of the color.
    pub fn pieces(&self, color: Color) -> (r: SquareSet)
        requires
            self.wf(),
        ensures
            forall|i: int|
                #![trigger r.has(i)]
                r.has(i) <==> (self@.piece_on(i).is_some() && self@.piece_on(i).unwrap().color
                    == color),
    {
        reveal(Position::wf);
        let r = self.sets_by_color[color.index()];
        proof {
            r.lemma_view();
            assert forall|i: int| #![trigger r.has(i)] r.has(i) <==> (self@.piece_on(i).is_some()
                && self@.piece_on(i).unwrap().color == color) by {
                if 0 <= i < 64 {
                    assert(self.sets_by_color@[color.ordinal()].has(i) <==> (self@.board[i].is_some()
                        && self@.board[i].unwrap().color.ordinal() == color.ordinal()));
                }
            }
        }
        r
    }

    /// The squares of the color's pieces of the given kind.
    pub fn pieces_of_kind(&self, color: Color, kind: PieceKind) -> (r: SquareSet)
        requires
            self.wf(),
        ensures
            forall|i: int|
                #![trigger r.has(i)]
                r.has(i) <==> self@.piece_on(i) == Some(Piece { color, kind }),
    {
        reveal(Position::wf);
        let offset: usize = match color {
            Color::White => 0,
            Color::Black => 6,
        };
        let r = self.sets_by_piece[offset + kind.index()];
        proof {
            let piece = Piece { color, kind };
            piece.lemma_ordinal();
            r.lemma_view();
            assert forall|i: int| #![trigger r.has(i)] r.has(i) <==> self@.piece_on(i) == Some(
                piece,
            ) by {
                if 0 <= i < 64 {
                    assert(self.sets_by_piece@[piece.ordinal()].has(i) <==> self@.board[i] == Some(
                        Piece::from_ordinal(piece.ordinal()),
                    ));
                }
            }
        }
        r
    }

    /// The squares of the color's pawns.
    pub fn pawns(&self, color: Color) -> (r: SquareSet)
        requires
            self.wf(),
        ensures
            forall|i: int|
                #![trigger r.has(i)]
                r.has(i) <==> self@.piece_on(i) == Some(Piece { color, kind: PieceKind::Pawn }),
    {
        self.pieces_of_kind(color, PieceKind::Pawn)
    }

    /// The squares of the color's bishops.
    pub fn bishops(&self, color: Color) -> (r: SquareSet)
        requires
            self.wf(),
        ensures
            forall|i: int|
                #![trigger r.has(i)]
                r.has(i) <==> self@.piece_on(i) == Some(Piece { color, kind: PieceKind::Bishop }),
    {
        self.pieces_of_kind(color, PieceKind::Bishop)
    }

    /// The squares of the color's knights.
    pub fn knights(&self, color: Color) -> (r: SquareSet)
        requires
            self.wf(),
        ensures
            forall|i: int|
                #![trigger r.has(i)]
                r.has(i) <==> self@.piece_on(i) == Some(Piece { color, kind: PieceKind::Knight }),
    {
        self.pieces_of_kind(color, PieceKind::Knight)
    }

    /// The squares of the color's rooks.
    pub fn rooks(&self, color: Color) -> (r: SquareSet)
        requires
            self.wf(),
        ensures
            forall|i: int|
                #![trigger r.has(i)]
                r.has(i) <==> self@.piece_on(i) == Some(Piece { color, kind: PieceKind::Rook }),
    {
        self.pieces_of_kind(color, PieceKind::Rook)
    }

    /// The squares of the color's queens.
    pub fn queens(&self, color: Color) -> (r: SquareSet)
        requires
            self.wf(),
        ensures
            forall|i: int|
                #![trigger r.has(i)]
                r.has(i) <==> self@.piece_on(i) == Some(Piece { color, kind: PieceKind::Queen }),
    {
        self.pieces_of_kind(color, PieceKind::Queen)
    }

    /// The squares of the color's kings.
    pub fn kings(&self, color: Color) -> (r: SquareSet)
        requires
            self.wf(),
        ensures
            forall|i: int|
                #![trigger r.has(i)]
                r.has(i) <==> self@.piece_on(i) == Some(Piece { color, kind: PieceKind::King }),
    {
        self.pieces_of_kind(color, PieceKind::King)
    }

    /// The square of the color's king: of the one on the lowest square, should there be several.
    pub fn king(&self, color: Color) -> (r: Option<Square>)
        requires
            self.wf(),
        ensures
            match r {
                Some(sq) => {
                    &&& self@.piece_on(sq.idx()) == Some(Piece { color, kind: PieceKind::King })
                    &&& forall|i: int|
                        i < sq.idx() ==> #[trigger] self@.piece_on(i) != Some(
                            Piece { color, kind: PieceKind::King },
                        )
                },
                None => forall|i: int|
                    #[trigger] self@.piece_on(i) != Some(Piece { color, kind: PieceKind::King }),
            },
    {
        let kings = self.pieces_of_kind(color, PieceKind::King);
        let mut it = kings.into_iter();
        let r = it.next();
        proof {
            match r {
                Some(sq) => {
                    assert forall|i: int| i < sq.idx() implies #[trigger] self@.piece_on(i)
                        != Some(Piece { color, kind: PieceKind::King }) by {
                        assert(!kings.has(i));
                    }
                },
                None => {
                    assert forall|i: int| #[trigger]
                        self@.piece_on(i) != Some(Piece { color, kind: PieceKind::King }) by {
                        assert(!kings.has(i));
                    }
                },
            }
        }
        r
    }

    /// The model of the empty position: no piece on the board, White to
    /// move, all four castling rights, both clocks at zero.
    pub open spec fn fresh() -> PositionModel {
        PositionModel {
            board: Seq::new(64, |i: int| None::<Piece>),
            side: Color::White,
            castle: CastleStatus {
                white_kingside: true,
                white_queenside: true,
                black_kingside: true,
                black_queenside: true,
            },
            ep: None,
            halfmove: 0,
            fullmove: 0,
            history: Seq::empty(),
        }
    }

    /// The empty position: no piece on the board, White to move, all four
    /// castling rights, both clocks at zero.
    pub fn new() -> (pos: Position)
        ensures
            pos.wf(),
            pos@ == Position::fresh(),
            pos@.board == Seq::new(64, |i: int| None::<Piece>),
            forall|i: int| 0 <= i < 64 ==> #[trigger] pos@.piece_on(i).is_none(),
            pos@.side == Color::White,
            pos@.castle == (CastleStatus {
                white_kingside: true,
                white_queenside: true,
                black_kingside: true,
                black_queenside: true,
            }),
            pos@.ep.is_none(),
            pos@.halfmove == 0,
            pos@.fullmove == 0,
            pos@.history.len() == 0,
    {
        reveal(Position::wf);
        let mut pos = Position {
            sets_by_piece: [SquareSet::empty();12],
            sets_by_color: [SquareSet::empty();2],
            en_passant_square: None,
            halfmove_clock: 0,
            fullmove_clock: 0,
            castle_status: CastleStatus::none(),
            side_to_move: Color::White,
            zobrist_hash: 0,
            history: Vec::new(),
            hasher: Arc::new(ZobristHasher::new(ZOBRIST_SEED)),
        };
        proof {
            lemma_empty_placement(pos@.board, 64);
            lemma_hash_algebra(0, 0, 0, 0, 0);
        }
        pos.set_castle_status(CastleStatus::all());
        assert(pos@.board =~= Seq::new(64, |i: int| None::<Piece>));
        assert(pos@.history =~= Seq::empty());
        assert(pos@ =~= Position::fresh());
        pos
    }

    /// Toggles the color's right to castle kingside.
    fn toggle_kingside(&mut self, color: Color)
        requires
            old(self).wf(),
        ensures
            final(self).wf(),
            final(self)@ == (PositionModel {
                castle: old(self)@.castle.set_kingside(
                    color,
                    !old(self)@.castle.has_kingside(color),
                ),
                ..old(self)@
            }),
    {
        reveal(Position::wf);
        let ghost before = self@;
        let on = self.castle_status.kingside(color);
        self.castle_status = self.castle_status.with_kingside(color, !on);
        modify_kingside_castle(&self.hasher, &mut self.zobrist_hash, color);
        proof {
            let c = before.castle;
            let wk: u64 = if c.white_kingside { kingside_key(Color::White) } else { 0 };
            let wq: u64 = if c.white_queenside { queenside_key(Color::White) } else { 0 };
            let bk: u64 = if c.black_kingside { kingside_key(Color::Black) } else { 0 };
            let bq: u64 = if c.black_queenside { queenside_key(Color::Black) } else { 0 };
            let k = kingside_key(color);
            lemma_castle_algebra(wk, wq, bk, bq, k);
            lemma_hash_algebra(
                placement_hash(before.board, 64),
                side_key(before.side),
                castle_hash(c),
                en_passant_key(before.ep),
                k,
            );
            assert(self@.board =~= before.board);
        }
    }

    /// Toggles the color's right to castle queenside.
    fn toggle_queenside(&mut self, color: Color)
        requires
            old(self).wf(),
        ensures
            final(self).wf(),
            final(self)@ == (PositionModel {
                castle: old(self)@.castle.set_queenside(
                    color,
                    !old(self)@.castle.has_queenside(color),
                ),
                ..old(self)@
            }),
    {
        reveal(Position::wf);
        let ghost before = self@;
        let on = self.castle_status.queenside(color);
        self.castle_status = self.castle_status.with_queenside(color, !on);
        modify_queenside_castle(&self.hasher, &mut self.zobrist_hash, color);
        proof {
            let c = before.castle;
            let wk: u64 = if c.white_kingside { kingside_key(Color::White) } else { 0 };
            let wq: u64 = if c.white_queenside { queenside_key(Color::White) } else { 0 };
            let bk: u64 = if c.black_kingside { kingside_key(Color::Black) } else { 0 };
            let bq: u64 = if c.black_queenside { queenside_key(Color::Black) } else { 0 };
            let k = queenside_key(color);
            lemma_castle_algebra(wk, wq, bk, bq, k);
            lemma_hash_algebra(
                placement_hash(before.board, 64),
                side_key(before.side),
                castle_hash(c),
                en_passant_key(before.ep),
                k,
            );
            assert(self@.board =~= before.board);
        }
    }

    /// Sets the castling rights, and updates the hash for every right that changes.
    pub(crate) fn set_castle_status(&mut self, status: CastleStatus)
        requires
            old(self).wf(),
        ensures
            final(self).wf(),
            final(self)@ == (PositionModel { castle: status, ..old(self)@ }),
    {
        if self.castle_status.kingside(Color::White) != status.kingside(Color::White) {
            self.toggle_kingside(Color::White);
        }
        if self.castle_status.queenside(Color::White) != status.queenside(Color::White) {
            self.toggle_queenside(Color::White);
        }
        if self.castle_status.kingside(Color::Black) != status.kingside(Color::Black) {
            self.toggle_kingside(Color::Black);
        }
        if self.castle_status.queenside(Color::Black) != status.queenside(Color::Black) {
            self.toggle_queenside(Color::Black);
        }
    }

    /// Sets the en-passant square, and updates the hash.
    pub(crate) fn set_en_passant(&mut self, square: Option<Square>)
        requires
            old(self).wf(),
        ensures
            final(self).wf(),
            final(self)@ == (PositionModel { ep: square, ..old(self)@ }),
    {
        reveal(Position::wf);
        let ghost before = self@;
        match square {
            Some(sq) => {
                let i = sq.as_u8();
            },
            None => {},
        }
        modify_en_passant(&self.hasher, &mut self.zobrist_hash, self.en_passant_square, square);
        self.en_passant_square = square;
        proof {
            let x = (placement_hash(before.board, 64) ^ side_key(before.side)) ^ castle_hash(
                before.castle,
            );
            crate::bits::lemma_undo(x, en_passant_key(before.ep));
            assert(self@.board =~= before.board);
        }
    }

    /// Passes the move to the other side, and updates the hash.
    pub(crate) fn flip_side(&mut self)
        requires
            old(self).wf(),
        ensures
            final(self).wf(),
            final(self)@ == (PositionModel { side: old(self)@.side.other(), ..old(self)@ }),
    {
        reveal(Position::wf);
        let ghost before = self@;
        self.side_to_move = self.side_to_move.toggle();
        modify_side_to_move(&self.hasher, &mut self.zobrist_hash);
        proof {
            let k = side_key(Color::Black);
            lemma_hash_algebra(
                placement_hash(before.board, 64),
                side_key(before.side),
                castle_hash(before.castle),
                en_passant_key(before.ep),
                k,
            );
            lemma_hash_algebra(0, 0, 0, 0, k);
            assert(self@.board =~= before.board);
        }
    }

    /// Puts the piece on the square; fails, and changes nothing, where a
    /// piece stands there already.
    pub fn add_piece(&mut self, square: Square, piece: Piece) -> (r: Result<(), ()>)
        requires
            old(self).wf(),
        ensures
            final(self).wf(),
            r.is_ok() == old(self)@.piece_on(square.idx()).is_none(),
            r.is_ok() ==> final(self)@ == old(self)@.with_piece(square.idx(), piece),
            r.is_err() ==> final(self)@ == old(self)@,
    {
        reveal(Position::wf);
        if self.piece_at(square).is_some() {
            return Err(());
        }
        let ghost before = *self;
        let ghost i = square.idx();
        let s = square.as_u8();
        let c = piece.color.index();
        let p = piece.index();
        let mut color_set = self.sets_by_color[c];
        color_set.insert(square);
        self.sets_by_color[c] = color_set;
        let mut piece_set = self.sets_by_piece[p];
        piece_set.insert(square);
        self.sets_by_piece[p] = piece_set;
        modify_piece(&self.hasher, &mut self.zobrist_hash, square, piece);
        proof {
            piece.lemma_ordinal();
            let board = before@.board;
            assert forall|q: int, j: int|
                0 <= q < 12 && 0 <= j < 64 implies (#[trigger] self.sets_by_piece@[q].has(j)
                <==> board.update(i, Some(piece))[j] == Some(Piece::from_ordinal(q))) by {
                assert(before.sets_by_piece@[q].has(j) <==> board[j] == Some(
                    Piece::from_ordinal(q),
                ));
                Piece::lemma_from_ordinal(q);
            }
            assert(self@.board =~= board.update(i, Some(piece))) by {
                assert forall|j: int| 0 <= j < 64 implies self@.board[j] == board.update(
                    i,
                    Some(piece),
                )[j] by {
                    lemma_holder(self.sets_by_piece@, j, board.update(i, Some(piece))[j]);
                }
            }
            assert forall|k: int, j: int|
                0 <= k < 2 && 0 <= j < 64 implies (#[trigger] self.sets_by_color@[k].has(j) <==> (
                self@.board[j].is_some() && self@.board[j].unwrap().color.ordinal() == k)) by {
                assert(before.sets_by_color@[k].has(j) <==> (board[j].is_some()
                    && board[j].unwrap().color.ordinal() == k));
            }
            lemma_placement_update(board, i, Some(piece), 64);
            lemma_hash_algebra(
                placement_hash(board, 64),
                side_key(before@.side),
                castle_hash(before@.castle),
                en_passant_key(before@.ep),
                piece_key(piece, i),
            );
        }
        Ok(())
    }

    /// Takes the piece off the square; fails, and changes nothing, where the
    /// square is empty.
    pub fn remove_piece(&mut self, square: Square) -> (r: Result<(), ()>)
        requires
            old(self).wf(),
        ensures
            final(self).wf(),
            r.is_ok() == old(self)@.piece_on(square.idx()).is_some(),
            r.is_ok() ==> final(self)@ == old(self)@.without_piece(square.idx()),
            r.is_err() ==> final(self)@ == old(self)@,
    {
        reveal(Position::wf);
        let piece = match self.piece_at(square) {
            Some(piece) => piece,
            None => {
                return Err(());
            },
        };
        let ghost before = *self;
        let ghost i = square.idx();
        let s = square.as_u8();
        let c = piece.color.index();
        let p = piece.index();
        let mut color_set = self.sets_by_color[c];
        color_set.remove(square);
        self.sets_by_color[c] = color_set;
        let mut piece_set = self.sets_by_piece[p];
        piece_set.remove(square);
        self.sets_by_piece[p] = piece_set;
        modify_piece(&self.hasher, &mut self.zobrist_hash, square, piece);
        proof {
            piece.lemma_ordinal();
            let board = before@.board;
            assert forall|q: int, j: int|
                0 <= q < 12 && 0 <= j < 64 implies (#[trigger] self.sets_by_piece@[q].has(j)
                <==> board.update(i, None)[j] == Some(Piece::from_ordinal(q))) by {
                assert(before.sets_by_piece@[q].has(j) <==> board[j] == Some(
                    Piece::from_ordinal(q),
                ));
                Piece::lemma_from_ordinal(q);
            }
            assert(self@.board =~= board.update(i, None)) by {
                assert forall|j: int| 0 <= j < 64 implies self@.board[j] == board.update(
                    i,
                    None,
                )[j] by {
                    lemma_holder(self.sets_by_piece@, j, board.update(i, None)[j]);
                }
            }
            assert forall|k: int, j: int|
                0 <= k < 2 && 0 <= j < 64 implies (#[trigger] self.sets_by_color@[k].has(j) <==> (
                self@.board[j].is_some() && self@.board[j].unwrap().color.ordinal() == k)) by {
                assert(before.sets_by_color@[k].has(j) <==> (board[j].is_some()
                    && board[j].unwrap().color.ordinal() == k));
            }
            lemma_placement_update(board, i, None, 64);
            lemma_hash_algebra(
                placement_hash(board, 64),
                side_key(before@.side),
                castle_hash(before@.castle),
                en_passant_key(before@.ep),
                piece_key(piece, i),
            );
        }
        Ok(())
    }

    /// The piece on the square, if there is one.
    pub fn piece_at(&self, square: Square) -> (r: Option<Piece>)
        requires
            self.wf(),
        ensures
            r == self@.piece_on(square.idx()),
    {
        reveal(Position::wf);
        let s = square.as_u8();
        let (board_offset, color): (usize, Color) = if self.sets_by_color[0].contains(square) {
            (0, Color::White)
        } else if self.sets_by_color[1].contains(square) {
            (6, Color::Black)
        } else {
            assert(!self.sets_by_color@[0].has(s as int));
            assert(!self.sets_by_color@[1].has(s as int));
            return None;
        };
        proof {
            assert(self.sets_by_color@[color.ordinal()].has(s as int));
            let found = self@.board[s as int].unwrap();
            found.lemma_ordinal();
            assert(self.sets_by_piece@[found.ordinal()].has(s as int));
        }
        let kinds = crate::types::piece_kinds();
        let mut k: usize = 0;
        while k < 6
            invariant
                k <= 6,
                self.wf(),
                s == square.idx(),
                0 <= s < 64,
                board_offset == color.ordinal() * 6,
                self@.board[s as int].is_some(),
                self@.board[s as int].unwrap().color == color,
                kinds@ == seq![
                    PieceKind::Pawn,
                    PieceKind::Bishop,
                    PieceKind::Knight,
                    PieceKind::Rook,
                    PieceKind::Queen,
                    PieceKind::King,
                ],
                forall|j: int| 0 <= j < k ==> self@.board[s as int].unwrap().kind != #[trigger] kinds[j],
            decreases 6 - k,
        {
            let kind = kinds[k];
            let board = self.sets_by_piece[kind.index() + board_offset];
            proof {
                reveal(Position::wf);
                let piece = Piece { kind, color };
                piece.lemma_ordinal();
                assert(self.sets_by_piece@[piece.ordinal()].has(s as int) <==> self@.board[s as int]
                    == Some(Piece::from_ordinal(piece.ordinal())));
            }
            if board.contains(square) {
                return Some(Piece { kind, color });
            }
            k += 1;
        }
        proof {
            let found = self@.board[s as int].unwrap();
            assert(found.kind == kinds[0] || found.kind == kinds[1] || found.kind == kinds[2]
                || found.kind == kinds[3] || found.kind == kinds[4] || found.kind == kinds[5]);
        }
        vstd::pervasive::unreached()
    }
}

impl Clone for Position {
    /// A copy of the position, history included.
    fn clone(&self) -> (r: Position)
        ensures
            r@ == self@,
            r.wf() == self.wf(),
    {
        reveal(Position::wf);
        let mut history: Vec<IrreversibleInformation> = Vec::new();
        let mut i: usize = 0;
        while i < self.history.len()
            invariant
                i <= self.history.len(),
                history@ == self.history@.subrange(0, i as int),
            decreases self.history.len() - i,
        {
            history.push(self.history[i]);
            i += 1;
            assert(history@ =~= self.history@.subrange(0, i as int));
        }
        assert(history@ =~= self.history@);
        let r = Position {
            sets_by_piece: self.sets_by_piece,
            sets_by_color: self.sets_by_color,
            en_passant_square: self.en_passant_square,
            halfmove_clock: self.halfmove_clock,
            fullmove_clock: self.fullmove_clock,
            castle_status: self.castle_status,
            side_to_move: self.side_to_move,
            zobrist_hash: self.zobrist_hash,
            history,
            hasher: share(&self.hasher),
        };
        proof {
            assert(r@.board =~= self@.board);
            assert(r.sets_by_piece@ == self.sets_by_piece@);
            assert(r.sets_by_color@ == self.sets_by_color@);
            if self.wf() {
                assert forall|p: int, i: int| 0 <= p < 12 && 0 <= i < 64 implies (
                #[trigger] r.sets_by_piece@[p].has(i) <==> r@.board[i] == Some(
                    Piece::from_ordinal(p),
                )) by {
                    assert(self.sets_by_piece@[p].has(i) <==> self@.board[i] == Some(
                        Piece::from_ordinal(p),
                    ));
                }
                assert forall|c: int, i: int| 0 <= c < 2 && 0 <= i < 64 implies (
                #[trigger] r.sets_by_color@[c].has(i) <==> (r@.board[i].is_some()
                    && r@.board[i].unwrap().color.ordinal() == c)) by {
                    assert(self.sets_by_color@[c].has(i) <==> (self@.board[i].is_some()
                        && self@.board[i].unwrap().color.ordinal() == c));
                }
                assert(r.wf());
            }
            if r.wf() {
                assert forall|p: int, i: int| 0 <= p < 12 && 0 <= i < 64 implies (
                #[trigger] self.sets_by_piece@[p].has(i) <==> self@.board[i] == Some(
                    Piece::from_ordinal(p),
                )) by {
                    assert(r.sets_by_piece@[p].has(i) <==> r@.board[i] == Some(
                        Piece::from_ordinal(p),
                    ));
                }
                assert forall|c: int, i: int| 0 <= c < 2 && 0 <= i < 64 implies (
                #[trigger] self.sets_by_color@[c].has(i) <==> (self@.board[i].is_some()
                    && self@.board[i].unwrap().color.ordinal() == c)) by {
                    assert(r.sets_by_color@[c].has(i) <==> (r@.board[i].is_some()
                        && r@.board[i].unwrap().color.ordinal() == c));
                }
                assert(self.wf());
            }
        }
        r
    }
}

/// `x + 1`, or `x` where that does not fit.
fn saturating_increment(x: u16) -> (r: u16)
    ensures
        r == crate::model::saturating_inc(x),
{
    if x == 0xFFFF {
        x
    } else {
        x + 1
    }
}

impl Position {
    /// Sets both clocks.
    pub(crate) fn set_clocks(&mut self, halfmove: u16, fullmove: u16)
        requires
            old(self).wf(),
        ensures
            final(self).wf(),
            final(self)@ == (PositionModel { halfmove, fullmove, ..old(self)@ }),
    {
        reveal(Position::wf);
        let ghost before = self@;
        self.halfmove_clock = halfmove;
        self.fullmove_clock = fullmove;
        assert(self@.board =~= before.board);
    }

    /// Pushes a record onto the history.
    fn push_record(&mut self, record: IrreversibleInformation)
        requires
            old(self).wf(),
        ensures
            final(self).wf(),
            final(self)@ == (PositionModel {
                history: old(self)@.history.push(record),
                ..old(self)@
            }),
    {
        reveal(Position::wf);
        let ghost before = self@;
        self.history.push(record);
        assert(self@.board =~= before.board);
    }

    /// Pops the last record off the history.
    fn pop_record(&mut self) -> (record: IrreversibleInformation)
        requires
            old(self).wf(),
            old(self)@.history.len() > 0,
        ensures
            final(self).wf(),
            record == old(self)@.history.last(),
            final(self)@ == (PositionModel {
                history: old(self)@.history.drop_last(),
                ..old(self)@
            }),
    {
        reveal(Position::wf);
        let ghost before = self@;
        let record = self.history.pop().unwrap();
        assert(self@.board =~= before.board);
        assert(self@.history =~= before.history.drop_last());
        record
    }

    /// The square behind `square`, seen from the side of the given color.
    fn behind(square: Square, color: Color) -> (r: Option<Square>)
        ensures
            r.is_some() == (0 <= square.idx() + crate::model::backward(color) < 64),
            r.is_some() ==> r.unwrap().idx() == square.idx() + crate::model::backward(color),
    {
        let s = square.as_u8();
        match color {
            Color::White => square.offset(-1, 0),
            Color::Black => square.offset(1, 0),
        }
    }

    /// Takes the captured piece off its square; a rook taken on its home
    /// square takes its owner's right to castle on that side with it.
    fn take_captured(&mut self, square: Square)
        requires
            old(self).wf(),
            old(self)@.occupied(square.idx()),
        ensures
            final(self).wf(),
            final(self)@ == (PositionModel {
                board: old(self)@.board.update(square.idx(), None),
                castle: old(self)@.rights_after_capture(square.idx()),
                ..old(self)@
            }),
    {
        let ghost before = self@;
        let i = square.as_u8();
        let them = self.side_to_move.toggle();
        let captured = self.piece_at(square).unwrap();
        let removed = self.remove_piece(square);
        assert(removed.is_ok());
        if captured.kind == PieceKind::Rook && captured.color == them {
            if i == kingside_rook(them).as_u8() {
                let status = self.castle_status.with_kingside(them, false);
                self.set_castle_status(status);
            } else if i == queenside_rook(them).as_u8() {
                let status = self.castle_status.with_queenside(them, false);
                self.set_castle_status(status);
            }
        }
    }

    /// Takes the piece off one square and puts `placed` on another, free one.
    fn relocate(&mut self, from: Square, to: Square, placed: Piece)
        requires
            old(self).wf(),
            old(self)@.occupied(from.idx()),
            !old(self)@.occupied(to.idx()),
        ensures
            final(self).wf(),
            final(self)@ == (PositionModel {
                board: old(self)@.board.update(from.idx(), None).update(to.idx(), Some(placed)),
                ..old(self)@
            }),
    {
        let f = from.as_u8();
        let t = to.as_u8();
        let removed = self.remove_piece(from);
        assert(removed.is_ok());
        let added = self.add_piece(to, placed);
        assert(added.is_ok());
    }

    /// Withdraws the castling rights that the move of `mover` from `source` ends.
    fn revoke_rights(&mut self, mover: Piece, source: Square, us: Color)
        requires
            old(self).wf(),
        ensures
            final(self).wf(),
            final(self)@ == (PositionModel {
                castle: PositionModel::rights_after_move(
                    old(self)@.castle,
                    us,
                    mover,
                    source.idx(),
                ),
                ..old(self)@
            }),
    {
        if mover.kind == PieceKind::Rook {
            if source.as_u8() == queenside_rook(us).as_u8() {
                let status = self.castle_status.with_queenside(us, false);
                self.set_castle_status(status);
            } else if source.as_u8() == kingside_rook(us).as_u8() {
                let status = self.castle_status.with_kingside(us, false);
                self.set_castle_status(status);
            }
        } else if mover.kind == PieceKind::King {
            let status = self.castle_status.with_kingside(us, false).with_queenside(us, false);
            self.set_castle_status(status);
        }
    }

    /// The squares of the rook before and after the castling move.
    fn rook_squares(mov: Move) -> (r: (Square, Square))
        requires
            mov.flags() == 2 || mov.flags() == 3,
            PositionModel::rook_squares_on_board(mov),
        ensures
            r.0.idx() == PositionModel::rook_from(mov),
            r.1.idx() == PositionModel::rook_to(mov),
    {
        proof {
            mov.lemma_parts();
        }
        let dest = mov.destination();
        let d = dest.as_u8();
        if mov.is_kingside_castle() {
            (dest.offset(0, 1).unwrap(), dest.offset(0, -1).unwrap())
        } else {
            (dest.offset(0, -2).unwrap(), dest.offset(0, 1).unwrap())
        }
    }

    /// Makes the move: records what it destroys, takes the captured piece
    /// off, moves the rook of a castling move, moves the piece or puts the
    /// promoted piece on the destination, sets or clears the en-passant
    /// square, withdraws the castling rights that the move ends, passes the
    /// turn and advances the clocks. The hash follows every change.
    pub fn make_move(&mut self, mov: Move)
        requires
            old(self).wf(),
            old(self)@.can_make(mov),
        ensures
            final(self).wf(),
            final(self)@ == old(self)@.after_make(mov),
            final(self)@.can_unmake(mov),
            final(self)@.after_unmake(mov) == old(self)@,
    {
        proof {
            self@.lemma_make_unmake(mov);
        }
        if mov.is_null() {
            self.pass_turn(mov);
        } else {
            self.apply_move(mov);
        }
    }

    /// Makes the null move.
    fn pass_turn(&mut self, mov: Move)
        requires
            old(self).wf(),
            mov.raw() == 0,
        ensures
            final(self).wf(),
            final(self)@ == old(self)@.after_make(mov),
    {
        let ghost before = self@;
        let halfmove = self.halfmove_clock;
        let fullmove = self.fullmove_clock;
        self.push_record(
            IrreversibleInformation {
                mov,
                halfmove_clock: halfmove,
                fullmove_clock: fullmove,
                castle_status: self.castle_status,
                en_passant_square: self.en_passant_square,
                captured: None,
            },
        );
        let next_fullmove = if self.side_to_move == Color::Black {
            saturating_increment(fullmove)
        } else {
            fullmove
        };
        self.set_en_passant(None);
        self.flip_side();
        self.set_clocks(saturating_increment(halfmove), next_fullmove);
    }

    /// Makes a move that is not the null move.
    fn apply_move(&mut self, mov: Move)
        requires
            old(self).wf(),
            old(self)@.can_make(mov),
            mov.raw() != 0,
        ensures
            final(self).wf(),
            final(self)@ == old(self)@.after_make(mov),
    {
        broadcast use Square::lemma_idx_at;

        let ghost before = self@;
        proof {
            before.lemma_stages(mov);
        }
        let us = self.side_to_move;
        let halfmove = self.halfmove_clock;
        let source = mov.source();
        let dest = mov.destination();
        let moving_piece = self.piece_at(source).unwrap();
        self.record_and_capture(mov);
        if mov.is_castle() {
            // The move names the king's squares; the rook jumps over the king.
            let (rook_square, new_rook_square) = Position::rook_squares(mov);
            let rook = self.piece_at(rook_square).unwrap();
            self.relocate(rook_square, new_rook_square, rook);
        }
        assert(self@ =~= before.castled_stage(mov));
        let piece_to_add = if mov.is_promotion() {
            Piece { kind: mov.promotion_piece(), color: us }
        } else {
            moving_piece
        };
        self.relocate(source, dest, piece_to_add);
        assert(self@ =~= before.moved_stage(mov));
        if mov.is_double_pawn_push() {
            let passed = Position::behind(dest, us);
            self.set_en_passant(passed);
        } else {
            self.set_en_passant(None);
        }
        self.revoke_rights(moving_piece, source, us);
        self.flip_side();
        let next_halfmove = if mov.is_capture() || moving_piece.kind == PieceKind::Pawn {
            0
        } else {
            saturating_increment(halfmove)
        };
        let next_fullmove = if us == Color::Black {
            saturating_increment(self.fullmove_clock)
        } else {
            self.fullmove_clock
        };
        self.set_clocks(next_halfmove, next_fullmove);
    }

    /// Records the move and takes the piece it captures, if any, off the board.
    fn record_and_capture(&mut self, mov: Move)
        requires
            old(self).wf(),
            old(self)@.can_make(mov),
            mov.raw() != 0,
        ensures
            final(self).wf(),
            final(self)@ == old(self)@.captured_stage(mov),
    {
        let ghost before = self@;
        proof {
            before.lemma_stages(mov);
        }
        let us = self.side_to_move;
        let target: Option<Square> = if !mov.is_capture() {
            None
        } else if mov.is_en_passant() {
            Position::behind(self.en_passant_square.unwrap(), us)
        } else {
            Some(mov.destination())
        };
        let captured: Option<Piece> = match target {
            Some(square) => self.piece_at(square),
            None => None,
        };
        self.push_record(
            IrreversibleInformation {
                mov,
                halfmove_clock: self.halfmove_clock,
                fullmove_clock: self.fullmove_clock,
                castle_status: self.castle_status,
                en_passant_square: self.en_passant_square,
                captured,
            },
        );
        match target {
            Some(square) => {
                self.take_captured(square);
            },
            None => {},
        }
        assert(self@ =~= before.captured_stage(mov));
    }

    /// Unmakes the last move made: puts the piece back where it came from
    /// (a pawn where the move promoted one), the rook of a castling move
    /// too, sets the captured piece back on its square, and restores from
    /// the record the castling rights, the en-passant square and the clocks.
    pub fn unmake_move(&mut self, mov: Move)
        requires
            old(self).wf(),
            old(self)@.can_unmake(mov),
        ensures
            final(self).wf(),
            final(self)@ == old(self)@.after_unmake(mov),
    {
        let ghost before = self@;
        let record = self.pop_record();
        let us = self.side_to_move.toggle();
        if !mov.is_null() {
            self.put_back(mov, record, Ghost(before));
        }
        self.set_castle_status(record.castle_status);
        self.set_en_passant(record.en_passant_square);
        self.flip_side();
        self.set_clocks(record.halfmove_clock, record.fullmove_clock);
        assert(self@ =~= before.after_unmake(mov));
    }

    /// Puts the pieces back where they stood before the move.
    fn put_back(&mut self, mov: Move, record: IrreversibleInformation, before: Ghost<PositionModel>)
        requires
            old(self).wf(),
            before@.wf(),
            before@.can_unmake(mov),
            mov.raw() != 0,
            record == before@.history.last(),
            old(self)@ == (PositionModel { history: before@.history.drop_last(), ..before@ }),
        ensures
            final(self).wf(),
            final(self)@ == (PositionModel { board: before@.board_before(mov), ..old(self)@ }),
    {
        proof {
            before@.lemma_unmake_stages(mov);
        }
        let us = self.side_to_move.toggle();
        let source = mov.source();
        let dest = mov.destination();
        let moved = self.piece_at(dest).unwrap();
        let restored = if mov.is_promotion() {
            Piece { kind: PieceKind::Pawn, color: us }
        } else {
            moved
        };
        self.relocate(dest, source, restored);
        assert(self@.board =~= before@.board_moved_back(mov));
        if mov.is_castle() {
            let (rook_square, new_rook_square) = Position::rook_squares(mov);
            let rook = self.piece_at(new_rook_square).unwrap();
            self.relocate(new_rook_square, rook_square, rook);
        }
        assert(self@.board =~= before@.board_uncastled(mov));
        if mov.is_capture() {
            let target = if mov.is_en_passant() {
                Position::behind(record.en_passant_square.unwrap(), us).unwrap()
            } else {
                dest
            };
            let added = self.add_piece(target, record.captured.unwrap());
            assert(added.is_ok());
        }
        assert(self@.board =~= before@.board_before(mov));
    }

    /// A copy of the position in which the move has been made.
    pub fn clone_and_make_move(&self, mov: Move) -> (r: Position)
        requires
            self.wf(),
            self@.can_make(mov),
        ensures
            r.wf(),
            r@ == self@.after_make(mov),
    {
        let mut r = self.clone();
        r.make_move(mov);
        r
    }

    /// The squares of the pieces of the given color that attack the target
    /// square. A piece is put on the target that moves like every kind at
    /// once; where it reaches a piece of the color that moves that way, that
    /// piece attacks the target.
    pub fn squares_attacking(&self, to_move: Color, target: Square) -> (r: SquareSet)
        requires
            self.wf(),
        ensures
            forall|s: int|
                #![trigger r.has(s)]
                r.has(s) <==> self@.attacks_square(to_move, s, target.idx()),
    {
        let ghost t = target.idx();
        let ghost occ = self@.occupancy();
        let tt = target.as_u8();
        let mut attackers = SquareSet::empty();
        let occupancy = self.pieces(Color::White).or(self.pieces(Color::Black));
        proof {
            assert(occupancy@ =~= occ);
        }
        // Queens, rooks and bishops: what a queen on the target reaches.
        let queens = self.pieces_of_kind(to_move, PieceKind::Queen);
        let rooks = self.pieces_of_kind(to_move, PieceKind::Rook);
        let bishops = self.pieces_of_kind(to_move, PieceKind::Bishop);
        let sliding_pieces = queens.or(rooks).or(bishops);
        let sliding_attacks = queen_attacks(target, occupancy).and(sliding_pieces);
        if !sliding_attacks.is_empty() {
            let candidates = sliding_attacks.to_vec();
            let mut k: usize = 0;
            while k < candidates.len()
                invariant
                    k <= candidates.len(),
                    self.wf(),
                    t == target.idx(),
                    occupancy@ == occ,
                    occ == self@.occupancy(),
                    forall|j: int|
                        0 <= j < candidates.len() ==> sliding_attacks.has(
                            #[trigger] candidates[j].idx(),
                        ),
                    forall|i: int| #[trigger]
                        sliding_attacks.has(i) ==> exists|j: int|
                            0 <= j < candidates.len() && candidates[j].idx() == i,
                    forall|i: int|
                        #![trigger sliding_attacks.has(i)]
                        sliding_attacks.has(i) ==> sliding_pieces.has(i),
                    forall|i: int|
                        #![trigger sliding_pieces.has(i)]
                        sliding_pieces.has(i) <==> (self@.piece_on(i).is_some() && self@.piece_on(
                            i,
                        ).unwrap().color == to_move && (self@.piece_on(i).unwrap().kind
                            == PieceKind::Queen || self@.piece_on(i).unwrap().kind
                            == PieceKind::Rook || self@.piece_on(i).unwrap().kind
                            == PieceKind::Bishop)),
                    forall|s: int|
                        #![trigger attackers.has(s)]
                        attackers.has(s) <==> (self@.attacks_square(to_move, s, t) && exists|
                            j: int,
                        |
                            0 <= j < k && candidates[j].idx() == s),
                decreases candidates.len() - k,
            {
                let attacker = candidates[k];
                let ghost a = attacker.idx();
                let ghost prev = attackers;
                assert(sliding_attacks.has(a));
                assert(sliding_pieces.has(a));
                let piece = self.piece_at(attacker).unwrap();
                let hit = attacks(piece.kind, piece.color, attacker, occupancy).contains(target);
                if hit {
                    attackers.insert(attacker);
                }
                proof {
                    assert(hit == self@.attacks_square(to_move, a, t));
                    assert forall|s: int| #![trigger attackers.has(s)] attackers.has(s) <==> (
                    self@.attacks_square(to_move, s, t) && exists|j: int|
                        0 <= j < k + 1 && candidates[j].idx() == s) by {
                        if attackers.has(s) {
                            if s == a {
                                assert(candidates[k as int].idx() == s);
                            } else {
                                assert(prev.has(s));
                                let j = choose|j: int| 0 <= j < k && candidates[j].idx() == s;
                                assert(0 <= j < k + 1 && candidates[j].idx() == s);
                            }
                        }
                        if self@.attacks_square(to_move, s, t) && exists|j: int|
                            0 <= j < k + 1 && candidates[j].idx() == s {
                            let j = choose|j: int| 0 <= j < k + 1 && candidates[j].idx() == s;
                            if j < k {
                                assert(prev.has(s));
                            }
                        }
                    }
                }
                k += 1;
            }
        }
        let ghost sliders = attackers;
        proof {
            sliding_attacks.lemma_view();
            assert forall|s: int| #![trigger sliders.has(s)] sliders.has(s) <==> (
            self@.attacks_square(to_move, s, t) && sliding_pieces.has(s)) by {
                if self@.attacks_square(to_move, s, t) && sliding_pieces.has(s) {
                    let p = self@.piece_on(s).unwrap();
                    assert(queen_reach(s, occ, t));
                    lemma_slider_symmetric(s, occ, t);
                    assert(sliding_attacks.has(s));
                }
            }
        }
        // Knights and kings move the same way in both directions.
        let knights = knight_attacks(target).and(self.pieces_of_kind(to_move, PieceKind::Knight));
        attackers = attackers.or(knights);
        let kings = king_attacks(target).and(self.pieces_of_kind(to_move, PieceKind::King));
        attackers = attackers.or(kings);
        // Pawns attack forwards only: what a pawn of the other color on the
        // target would attack is where a pawn of this color attacks it from.
        let pawns = pawn_attacks(target, to_move.toggle()).and(
            self.pieces_of_kind(to_move, PieceKind::Pawn),
        );
        attackers = attackers.or(pawns);
        proof {
            assert forall|s: int| #![trigger attackers.has(s)] attackers.has(s)
                <==> self@.attacks_square(to_move, s, t) by {
                if 0 <= s < 64 {
                    match self@.piece_on(s) {
                        Some(p) => {
                            if p.color == to_move {
                                assert(sliding_pieces.has(s) <==> (p.kind == PieceKind::Queen
                                    || p.kind == PieceKind::Rook || p.kind == PieceKind::Bishop));
                            }
                        },
                        None => {},
                    }
                } else {
                    attackers.lemma_view();
                }
            }
        }
        attackers
    }

    /// Whether the color's king is attacked by a piece of the other color.
    /// A color without a king is never in check.
    pub fn is_check(&self, us: Color) -> (r: bool)
        requires
            self.wf(),
        ensures
            r == self@.in_check(us),
    {
        match self.king(us) {
            Some(king) => {
                let attackers = self.squares_attacking(us.toggle(), king);
                let r = !attackers.is_empty();
                proof {
                    let k = king.idx();
                    assert(self@.is_king_square(us, k));
                    if r {
                        attackers.lemma_view();
                        let s = choose|s: int| attackers.has(s);
                        assert(self@.attacks_square(us.other(), s, k));
                        assert(self@.is_king_square(us, k) && self@.attacked_by(us.other(), k));
                    } else {
                        assert forall|k2: int| #[trigger]
                            self@.is_king_square(us, k2) implies !self@.attacked_by(
                            us.other(),
                            k2,
                        ) by {
                            assert(k2 == k);
                            assert forall|s: int| !#[trigger] self@.attacks_square(
                                us.other(),
                                s,
                                k,
                            ) by {
                                assert(!attackers.has(s));
                            }
                        }
                    }
                }
                r
            },
            None => {
                proof {
                    assert forall|k: int| !#[trigger] self@.is_king_square(us, k) by {}
                }
                false
            },
        }
    }

    /// Whether a move that obeys the rules of movement leaves the mover's
    /// own king out of check: the move is made on a copy of the position.
    pub fn is_legal_given_pseudolegal(&self, mov: Move) -> (r: bool)
        requires
            self.wf(),
            self@.can_make(mov),
        ensures
            r == self@.leaves_king_safe(mov),
            r == !self@.after_make(mov).in_check(self@.side),
    {
        let side = self.side_to_move();
        let new_pos = self.clone_and_make_move(mov);
        !new_pos.is_check(side)
    }
}

/// The square where the color's king starts.
pub fn king_start(color: Color) -> (s: Square)
    ensures
        s.idx() == crate::model::king_home(color),
{
    match color {
        Color::White => Square::new(crate::types::E1),
        Color::Black => Square::new(crate::types::E8),
    }
}

/// The square where the color's kingside rook starts.
pub fn kingside_rook(color: Color) -> (s: Square)
    ensures
        s.idx() == crate::model::kingside_rook_home(color),
{
    match color {
        Color::White => Square::new(crate::types::H1),
        Color::Black => Square::new(crate::types::H8),
    }
}

/// The square where the color's queenside rook starts.
pub fn queenside_rook(color: Color) -> (s: Square)
    ensures
        s.idx() == crate::model::queenside_rook_home(color),
{
    match color {
        Color::White => Square::new(crate::types::A1),
        Color::Black => Square::new(crate::types::A8),
    }
}

/// Where the twelve boards agree with a board of squares, the holder of a
/// square is what stands on it.
pub proof fn lemma_holder(sets: Seq<SquareSet>, j: int, content: Option<Piece>)
    requires
        sets.len() == 12,
        forall|q: int| 0 <= q < 12 ==> (#[trigger] sets[q].has(j) <==> content == Some(Piece::from_ordinal(q))),
    ensures
        holder(sets, j) == content,
{
    match content {
        Some(piece) => {
            piece.lemma_ordinal();
            assert(sets[piece.ordinal()].has(j));
            assert forall|q: int| 0 <= q < 12 && q != piece.ordinal() implies !sets[q].has(j) by {
                Piece::lemma_from_ordinal(q);
            }
        },
        None => {},
    }
}

} // verus!
