//! The mathematical model of a position: what stands on each of the 64
//! squares, whose move it is, the castling rights, the en-passant square, the
//! two clocks and the history of moves made. Making and unmaking a move are
//! defined here as functions on the model, and unmaking is shown to undo
//! making.

use crate::attacks::attack_reach;
use crate::bits::lemma_undo;
use crate::moves::Move;
use crate::types::{CastleStatus, Color, Piece, PieceKind, Square};
use crate::zobrist::{en_passant_key, kingside_key, piece_key, queenside_key, side_key};
use vstd::prelude::*;

verus! {

/// What a move destroys and cannot be found again from the position after
/// it: it is recorded when the move is made and used when it is unmade.
#[derive(Copy, Clone, Debug)]
pub struct IrreversibleInformation {
    /// The move that was made.
    pub mov: Move,
    /// The halfmove clock before the move.
    pub halfmove_clock: u16,
    /// The fullmove clock before the move.
    pub fullmove_clock: u16,
    /// The castling rights before the move.
    pub castle_status: CastleStatus,
    /// The en-passant square before the move.
    pub en_passant_square: Option<Square>,
    /// The piece that the move captured, if it captured one.
    pub captured: Option<Piece>,
}

/// The model of a position.
#[verifier::ext_equal]
pub struct PositionModel {
    /// What stands on each of the 64 squares.
    pub board: Seq<Option<Piece>>,
    /// The side to move.
    pub side: Color,
    /// The castling rights.
    pub castle: CastleStatus,
    /// The square that a pawn passed over in a double push on the last move.
    pub ep: Option<Square>,
    /// Plies since the last pawn move or capture.
    pub halfmove: u16,
    /// The number of the move, which goes up after Black has moved.
    pub fullmove: u16,
    /// One record for each move made and not yet unmade, oldest first.
    pub history: Seq<IrreversibleInformation>,
}

/// `x + 1`, or `x` where that does not fit.
pub open spec fn saturating_inc(x: u16) -> u16 {
    if x == 0xFFFF {
        x
    } else {
        (x + 1) as u16
    }
}

/// The change of index from a square to the one behind it, seen from the
/// side of the given color.
pub open spec fn backward(color: Color) -> int {
    match color {
        Color::White => -8,
        Color::Black => 8,
    }
}

/// The index of the square where the color's kingside rook starts.
pub open spec fn kingside_rook_home(color: Color) -> int {
    match color {
        Color::White => 7,
        Color::Black => 63,
    }
}

/// The index of the square where the color's queenside rook starts.
pub open spec fn queenside_rook_home(color: Color) -> int {
    match color {
        Color::White => 0,
        Color::Black => 56,
    }
}

/// The index of the square where the color's king starts.
pub open spec fn king_home(color: Color) -> int {
    match color {
        Color::White => 4,
        Color::Black => 60,
    }
}

/// The exclusive-or of the keys of the castling rights that are set.
pub open spec fn castle_hash(castle: CastleStatus) -> u64 {
    let wk: u64 = if castle.white_kingside {
        kingside_key(Color::White)
    } else {
        0
    };
    let wq: u64 = if castle.white_queenside {
        queenside_key(Color::White)
    } else {
        0
    };
    let bk: u64 = if castle.black_kingside {
        kingside_key(Color::Black)
    } else {
        0
    };
    let bq: u64 = if castle.black_queenside {
        queenside_key(Color::Black)
    } else {
        0
    };
    ((wk ^ wq) ^ bk) ^ bq
}

/// The key of what stands on square `i`: zero for an empty square.
pub open spec fn square_term(content: Option<Piece>, i: int) -> u64 {
    match content {
        Some(p) => piece_key(p, i),
        None => 0,
    }
}

/// The exclusive-or of the keys of the pieces on the squares below `n`.
pub open spec fn placement_hash(board: Seq<Option<Piece>>, n: int) -> u64
    decreases n,
{
    if n <= 0 {
        0
    } else {
        placement_hash(board, n - 1) ^ square_term(board[n - 1], n - 1)
    }
}

/// The order of exclusive ors does not matter.
pub proof fn lemma_xor_swap(a: u64, o: u64, w: u64, t: u64)
    by (bit_vector)
    ensures
        ((a ^ o) ^ w) ^ t == (((a ^ t) ^ o) ^ w),
{
}

/// Changing what stands on one square changes the placement hash by the
/// keys of what stood there and of what stands there now.
pub proof fn lemma_placement_update(board: Seq<Option<Piece>>, i: int, content: Option<Piece>, n: int)
    requires
        board.len() == 64,
        0 <= i < 64,
        0 <= n <= 64,
    ensures
        placement_hash(board.update(i, content), n) == if n > i {
            (placement_hash(board, n) ^ square_term(board[i], i)) ^ square_term(content, i)
        } else {
            placement_hash(board, n)
        },
    decreases n,
{
    let changed = board.update(i, content);
    if n > 0 {
        lemma_placement_update(board, i, content, n - 1);
        if n == i + 1 {
            lemma_undo(placement_hash(board, i), square_term(board[i], i));
        } else if n > i + 1 {
            lemma_xor_swap(
                placement_hash(board, n - 1),
                square_term(board[i], i),
                square_term(content, i),
                square_term(board[n - 1], n - 1),
            );
        }
    }
}

impl PositionModel {
    /// Whether the model has its 64 squares.
    pub open spec fn wf(self) -> bool {
        self.board.len() == 64
    }

    /// What stands on the square with index `i`; nothing outside the board.
    pub open spec fn piece_on(self, i: int) -> Option<Piece> {
        if 0 <= i < 64 {
            self.board[i]
        } else {
            None
        }
    }

    /// Whether a piece stands on the square with index `i`.
    pub open spec fn occupied(self, i: int) -> bool {
        self.piece_on(i).is_some()
    }

    /// The position with the piece put on square `i`.
    pub open spec fn with_piece(self, i: int, piece: Piece) -> PositionModel {
        PositionModel { board: self.board.update(i, Some(piece)), ..self }
    }

    /// The position with square `i` emptied.
    pub open spec fn without_piece(self, i: int) -> PositionModel {
        PositionModel { board: self.board.update(i, None), ..self }
    }

    /// The indices of the occupied squares.
    pub open spec fn occupancy(self) -> Set<int> {
        Set::new(|i: int| self.occupied(i))
    }

    /// Whether a piece of the given color stands on square `s` and attacks
    /// square `t`: it could capture a piece that stood there.
    pub open spec fn attacks_square(self, color: Color, s: int, t: int) -> bool {
        match self.piece_on(s) {
            Some(p) => p.color == color && attack_reach(p.kind, p.color, s, self.occupancy(), t),
            None => false,
        }
    }

    /// Whether a piece of the given color attacks square `t`.
    pub open spec fn attacked_by(self, color: Color, t: int) -> bool {
        exists|s: int| #[trigger] self.attacks_square(color, s, t)
    }

    /// Whether square `k` is where the color's king stands: the lowest such
    /// square, should the color have several kings.
    pub open spec fn is_king_square(self, color: Color, k: int) -> bool {
        &&& self.piece_on(k) == Some(Piece { color, kind: PieceKind::King })
        &&& forall|i: int|
            i < k ==> #[trigger] self.piece_on(i) != Some(Piece { color, kind: PieceKind::King })
    }

    /// Whether the color has a king and a piece of the other color attacks it.
    pub open spec fn in_check(self, color: Color) -> bool {
        exists|k: int| #[trigger]
            self.is_king_square(color, k) && self.attacked_by(color.other(), k)
    }

    /// Whether a move that can be made leaves the mover's king out of check.
    pub open spec fn leaves_king_safe(self, m: Move) -> bool {
        !self.after_make(m).in_check(self.side)
    }

    /// The Zobrist hash of the position: a function of the placement, the
    /// side to move, the castling rights and the en-passant square alone.
    pub open spec fn zobrist(self) -> u64 {
        ((placement_hash(self.board, 64) ^ side_key(self.side)) ^ castle_hash(self.castle))
            ^ en_passant_key(self.ep)
    }

    /// The index of the square where the piece stands that the move
    /// captures: the destination, but for a capture en passant the square
    /// behind the en-passant square. Negative where there is no such square.
    pub open spec fn capture_square(self, m: Move) -> int {
        if m.flags() == 5 {
            match self.ep {
                Some(e) => if 0 <= e.idx() + backward(self.side) < 64 {
                    e.idx() + backward(self.side)
                } else {
                    -1
                },
                None => -1,
            }
        } else {
            m.dst()
        }
    }

    /// Where the rook stands before a castling move: one square beyond the
    /// king's destination on the kingside, two on the queenside.
    pub open spec fn rook_from(m: Move) -> int {
        if m.flags() == 2 {
            m.dst() + 1
        } else {
            m.dst() - 2
        }
    }

    /// Where the rook stands after a castling move: on the other side of
    /// the king's destination.
    pub open spec fn rook_to(m: Move) -> int {
        if m.flags() == 2 {
            m.dst() - 1
        } else {
            m.dst() + 1
        }
    }

    /// Whether the castling move's rook squares lie on the rank of the
    /// king's destination.
    pub open spec fn rook_squares_on_board(m: Move) -> bool {
        if m.flags() == 2 {
            1 <= m.dst() % 8 <= 6
        } else {
            2 <= m.dst() % 8 <= 6
        }
    }

    /// Whether the move can be made in this position: every piece it takes
    /// up stands where the move says, and every square it puts a piece on
    /// is free.
    pub open spec fn can_make(self, m: Move) -> bool {
        let cap = self.capture_square(m);
        m.raw() == 0 || {
            &&& self.occupied(m.src())
            &&& m.src() != m.dst()
            &&& m.captures() ==> {
                &&& 0 <= cap < 64
                &&& self.occupied(cap)
                &&& cap != m.src()
            }
            &&& (!m.captures() || m.flags() == 5) ==> !self.occupied(m.dst())
            &&& (m.flags() == 2 || m.flags() == 3) ==> {
                &&& PositionModel::rook_squares_on_board(m)
                &&& self.occupied(PositionModel::rook_from(m))
                &&& PositionModel::rook_from(m) != m.src()
                &&& !self.occupied(PositionModel::rook_to(m))
            }
            &&& m.flags() == 1 ==> 0 <= m.dst() + backward(self.side) < 64
            &&& m.promotes() ==> self.piece_on(m.src()) == Some(
                Piece { color: self.side, kind: PieceKind::Pawn },
            )
        }
    }

    /// The record that making the move pushes onto the history.
    pub open spec fn record(self, m: Move) -> IrreversibleInformation {
        IrreversibleInformation {
            mov: m,
            halfmove_clock: self.halfmove,
            fullmove_clock: self.fullmove,
            castle_status: self.castle,
            en_passant_square: self.ep,
            captured: if m.raw() != 0 && m.captures() {
                self.piece_on(self.capture_square(m))
            } else {
                None
            },
        }
    }

    /// The castling rights after a piece was captured on square `cap`: a
    /// rook taken on its home square takes its owner's right on that side
    /// with it.
    pub open spec fn rights_after_capture(self, cap: int) -> CastleStatus {
        let them = self.side.other();
        if self.piece_on(cap) == Some(Piece { color: them, kind: PieceKind::Rook }) {
            if cap == kingside_rook_home(them) {
                self.castle.set_kingside(them, false)
            } else if cap == queenside_rook_home(them) {
                self.castle.set_queenside(them, false)
            } else {
                self.castle
            }
        } else {
            self.castle
        }
    }

    /// The castling rights after the piece `mover` has left square `src`: a
    /// king gives up both rights of the side to move, a rook that leaves its
    /// home square the right on that side.
    pub open spec fn rights_after_move(castle: CastleStatus, side: Color, mover: Piece, src: int)
        -> CastleStatus {
        if mover.kind == PieceKind::Rook {
            if src == queenside_rook_home(side) {
                castle.set_queenside(side, false)
            } else if src == kingside_rook_home(side) {
                castle.set_kingside(side, false)
            } else {
                castle
            }
        } else if mover.kind == PieceKind::King {
            castle.clear_color(side)
        } else {
            castle
        }
    }

    /// The board once the captured piece, if any, is taken off.
    pub open spec fn board_captured(self, m: Move) -> Seq<Option<Piece>> {
        if m.captures() {
            self.board.update(self.capture_square(m), None)
        } else {
            self.board
        }
    }

    /// The board once, after that, the rook of a castling move has moved.
    pub open spec fn board_castled(self, m: Move) -> Seq<Option<Piece>> {
        let b1 = self.board_captured(m);
        if m.flags() == 2 || m.flags() == 3 {
            b1.update(PositionModel::rook_from(m), None).update(
                PositionModel::rook_to(m),
                Some(b1[PositionModel::rook_from(m)].unwrap()),
            )
        } else {
            b1
        }
    }

    /// The board after the move: once, after that, the moving piece has
    /// left its square and it, or the piece it is promoted to, stands on the
    /// destination.
    pub open spec fn board_after(self, m: Move) -> Seq<Option<Piece>> {
        let placed = if m.promotes() {
            Piece { color: self.side, kind: m.promoted() }
        } else {
            self.board[m.src()].unwrap()
        };
        self.board_castled(m).update(m.src(), None).update(m.dst(), Some(placed))
    }

    /// The position once the move is recorded and the captured piece, if
    /// any, is taken off.
    pub open spec fn captured_stage(self, m: Move) -> PositionModel {
        PositionModel {
            board: self.board_captured(m),
            castle: if m.captures() {
                self.rights_after_capture(self.capture_square(m))
            } else {
                self.castle
            },
            history: self.history.push(self.record(m)),
            ..self
        }
    }

    /// The position once, after that, the rook of a castling move has moved.
    pub open spec fn castled_stage(self, m: Move) -> PositionModel {
        PositionModel { board: self.board_castled(m), ..self.captured_stage(m) }
    }

    /// The position once, after that, the moving piece has moved.
    pub open spec fn moved_stage(self, m: Move) -> PositionModel {
        PositionModel { board: self.board_after(m), ..self.captured_stage(m) }
    }

    /// What making a move needs at each stage, it finds.
    pub proof fn lemma_stages(self, m: Move)
        requires
            self.wf(),
            self.can_make(m),
            m.raw() != 0,
        ensures
            0 <= m.src() < 64,
            0 <= m.dst() < 64,
            self.occupied(m.src()),
            m.captures() ==> 0 <= self.capture_square(m) < 64 && self.occupied(
                self.capture_square(m),
            ),
            m.flags() == 5 ==> self.ep.is_some() && self.capture_square(m) == self.ep.unwrap().idx()
                + backward(self.side),
            (m.flags() == 2 || m.flags() == 3) ==> {
                &&& self.captured_stage(m).occupied(PositionModel::rook_from(m))
                &&& !self.captured_stage(m).occupied(PositionModel::rook_to(m))
                &&& self.board_castled(m) == self.board_captured(m).update(
                    PositionModel::rook_from(m),
                    None,
                ).update(
                    PositionModel::rook_to(m),
                    Some(self.captured_stage(m).piece_on(PositionModel::rook_from(m)).unwrap()),
                )
            },
            !(m.flags() == 2 || m.flags() == 3) ==> self.castled_stage(m) == self.captured_stage(m),
            self.castled_stage(m).occupied(m.src()),
            !self.castled_stage(m).occupied(m.dst()),
            self.castled_stage(m).piece_on(m.src()) == self.piece_on(m.src()),
            m.flags() == 1 ==> 0 <= m.dst() + backward(self.side) < 64,
            m.promotes() ==> self.piece_on(m.src()) == Some(
                Piece { color: self.side, kind: PieceKind::Pawn },
            ),
            self.after_make(m) == (PositionModel {
                castle: PositionModel::rights_after_move(
                    self.moved_stage(m).castle,
                    self.side,
                    self.piece_on(m.src()).unwrap(),
                    m.src(),
                ),
                ep: if m.flags() == 1 {
                    Some(Square::at(m.dst() + backward(self.side)))
                } else {
                    None
                },
                side: self.side.other(),
                halfmove: if m.captures() || self.piece_on(m.src()).unwrap().kind
                    == PieceKind::Pawn {
                    0
                } else {
                    saturating_inc(self.halfmove)
                },
                fullmove: if self.side == Color::Black {
                    saturating_inc(self.fullmove)
                } else {
                    self.fullmove
                },
                ..self.moved_stage(m)
            }),
    {
        m.lemma_parts();
    }

    /// What unmaking a move needs at each stage, it finds.
    pub proof fn lemma_unmake_stages(self, m: Move)
        requires
            self.wf(),
            self.can_unmake(m),
            m.raw() != 0,
        ensures
            0 <= m.src() < 64,
            0 <= m.dst() < 64,
            self.occupied(m.dst()),
            !self.occupied(m.src()),
            (m.flags() == 2 || m.flags() == 3) ==> {
                let b1 = PositionModel { board: self.board_moved_back(m), ..self };
                &&& b1.occupied(PositionModel::rook_to(m))
                &&& !b1.occupied(PositionModel::rook_from(m))
                &&& self.board_uncastled(m) == self.board_moved_back(m).update(
                    PositionModel::rook_to(m),
                    None,
                ).update(
                    PositionModel::rook_from(m),
                    Some(b1.piece_on(PositionModel::rook_to(m)).unwrap()),
                )
            },
            !(m.flags() == 2 || m.flags() == 3) ==> self.board_uncastled(m)
                == self.board_moved_back(m),
            m.captures() ==> {
                let b2 = PositionModel { board: self.board_uncastled(m), ..self };
                &&& self.history.last().captured.is_some()
                &&& 0 <= self.restored_capture_square(m) < 64
                &&& !b2.occupied(self.restored_capture_square(m))
                &&& m.flags() == 5 ==> self.history.last().en_passant_square.is_some()
            },
    {
        m.lemma_parts();
    }

    /// The position after the move is made.
    pub open spec fn after_make(self, m: Move) -> PositionModel {
        let history = self.history.push(self.record(m));
        let side = self.side.other();
        let fullmove = if side == Color::White {
            saturating_inc(self.fullmove)
        } else {
            self.fullmove
        };
        if m.raw() == 0 {
            PositionModel {
                ep: None,
                side,
                halfmove: saturating_inc(self.halfmove),
                fullmove,
                history,
                ..self
            }
        } else {
            let mover = self.board[m.src()].unwrap();
            let castle1 = if m.captures() {
                self.rights_after_capture(self.capture_square(m))
            } else {
                self.castle
            };
            PositionModel {
                board: self.board_after(m),
                side,
                castle: PositionModel::rights_after_move(castle1, self.side, mover, m.src()),
                ep: if m.flags() == 1 {
                    Some(Square::at(m.dst() + backward(self.side)))
                } else {
                    None
                },
                halfmove: if m.captures() || mover.kind == PieceKind::Pawn {
                    0
                } else {
                    saturating_inc(self.halfmove)
                },
                fullmove,
                history,
            }
        }
    }

    /// The square of the piece that the move to unmake captured, found from
    /// the record of the move.
    pub open spec fn restored_capture_square(self, m: Move) -> int {
        let rec = self.history.last();
        if m.flags() == 5 {
            match rec.en_passant_square {
                Some(e) => e.idx() + backward(self.side.other()),
                None => -1,
            }
        } else {
            m.dst()
        }
    }

    /// Whether the move can be unmade in this position: it is the last move
    /// recorded, and the pieces stand where making it would have left them.
    pub open spec fn can_unmake(self, m: Move) -> bool {
        let cap = self.restored_capture_square(m);
        &&& self.history.len() > 0
        &&& self.history.last().mov == m
        &&& m.raw() != 0 ==> {
            &&& self.occupied(m.dst())
            &&& m.src() != m.dst()
            &&& !self.occupied(m.src())
            &&& (m.flags() == 2 || m.flags() == 3) ==> {
                &&& PositionModel::rook_squares_on_board(m)
                &&& self.occupied(PositionModel::rook_to(m))
                &&& !self.occupied(PositionModel::rook_from(m))
                &&& PositionModel::rook_from(m) != m.src()
            }
            &&& m.captures() ==> {
                &&& self.history.last().captured.is_some()
                &&& 0 <= cap < 64
                &&& cap != m.src()
                &&& m.flags() == 5 ==> !self.occupied(cap)
            }
        }
    }

    /// The board once the moved piece stands on its source square again.
    pub open spec fn board_moved_back(self, m: Move) -> Seq<Option<Piece>> {
        let restored = if m.promotes() {
            Piece { color: self.side.other(), kind: PieceKind::Pawn }
        } else {
            self.board[m.dst()].unwrap()
        };
        self.board.update(m.dst(), None).update(m.src(), Some(restored))
    }

    /// The board once, after that, the rook of a castling move is back.
    pub open spec fn board_uncastled(self, m: Move) -> Seq<Option<Piece>> {
        let b1 = self.board_moved_back(m);
        if m.flags() == 2 || m.flags() == 3 {
            b1.update(PositionModel::rook_to(m), None).update(
                PositionModel::rook_from(m),
                Some(b1[PositionModel::rook_to(m)].unwrap()),
            )
        } else {
            b1
        }
    }

    /// The board after the move is unmade: once, after that, the captured
    /// piece stands on its square again.
    pub open spec fn board_before(self, m: Move) -> Seq<Option<Piece>> {
        let b2 = self.board_uncastled(m);
        if m.captures() {
            b2.update(self.restored_capture_square(m), Some(self.history.last().captured.unwrap()))
        } else {
            b2
        }
    }

    /// The position after the last move, `m`, is unmade.
    pub open spec fn after_unmake(self, m: Move) -> PositionModel {
        let rec = self.history.last();
        PositionModel {
            board: if m.raw() == 0 {
                self.board
            } else {
                self.board_before(m)
            },
            side: self.side.other(),
            castle: rec.castle_status,
            ep: rec.en_passant_square,
            halfmove: rec.halfmove_clock,
            fullmove: rec.fullmove_clock,
            history: self.history.drop_last(),
        }
    }

    /// The Zobrist hash does not depend on the moves that led to a
    /// position: positions with the same placement, side to move, castling
    /// rights and en-passant square have the same hash, whatever their
    /// clocks and their histories.
    pub proof fn lemma_zobrist_by_state(self, other: PositionModel)
        requires
            self.board == other.board,
            self.side == other.side,
            self.castle == other.castle,
            self.ep == other.ep,
        ensures
            self.zobrist() == other.zobrist(),
    {
    }

    /// Unmaking after making gives the position back: for every position
    /// and every move that can be made in it, the move can be unmade in the
    /// position it leads to, and unmaking it there restores the board, the
    /// side to move, the castling rights, the en-passant square, both clocks
    /// and the history, and with them the Zobrist hash.
    pub proof fn lemma_make_unmake(self, m: Move)
        requires
            self.wf(),
            self.can_make(m),
        ensures
            self.after_make(m).can_unmake(m),
            self.after_make(m).after_unmake(m) == self,
            self.after_make(m).after_unmake(m).zobrist() == self.zobrist(),
    {
        m.lemma_parts();
        let made = self.after_make(m);
        let back = made.after_unmake(m);
        assert(made.history.last() == self.record(m));
        assert(made.history.drop_last() =~= self.history);
        if m.raw() != 0 {
            let cap = self.capture_square(m);
            assert(made.restored_capture_square(m) == cap) by {
                if m.flags() == 5 {
                    assert(self.ep.is_some());
                }
            }
            assert(back.board =~= self.board);
        } else {
            assert(back.board =~= self.board);
        }
    }
}

} // verus!
