//! The rules of movement, stated on the model of a position: which moves
//! obey them without regard to check (the pseudo-legal moves), and which of
//! those are legal.

use crate::attacks::{attack_reach, forward, pawn_reach};
use crate::model::{backward, king_home, kingside_rook_home, queenside_rook_home, PositionModel};
use crate::moves::Move;
use crate::types::{Color, Piece, PieceKind};
use vstd::prelude::*;

verus! {

/// The index of the rank from which the color's pawns promote with their next step.
pub open spec fn last_step_rank(us: Color) -> int {
    match us {
        Color::White => 6,
        Color::Black => 1,
    }
}

/// The index of the rank on which the color's pawns start.
pub open spec fn start_rank(us: Color) -> int {
    match us {
        Color::White => 1,
        Color::Black => 6,
    }
}

impl PositionModel {
    /// Whether a piece of the other color stands on square `i`.
    pub open spec fn enemy_on(self, us: Color, i: int) -> bool {
        self.piece_on(i).is_some() && self.piece_on(i).unwrap().color != us
    }

    /// Whether a piece of the color stands on square `i`.
    pub open spec fn friend_on(self, us: Color, i: int) -> bool {
        self.piece_on(i).is_some() && self.piece_on(i).unwrap().color == us
    }

    /// Whether the en-passant square is `d`, is free, and the pawn that
    /// passed over it stands behind it.
    pub open spec fn en_passant_open(self, us: Color, d: int) -> bool {
        &&& self.ep.is_some()
        &&& self.ep.unwrap().idx() == d
        &&& 0 <= d < 64
        &&& !self.occupied(d)
        &&& self.piece_on(d + backward(us)) == Some(
            Piece { color: us.other(), kind: PieceKind::Pawn },
        )
    }

    /// Whether `m` is a move that a pawn of the color on the move's source may make.
    pub open spec fn pawn_move(self, us: Color, m: Move) -> bool {
        let s = m.src();
        let d = m.dst();
        let f = m.flags();
        let step = 8 * forward(us);
        let last = s / 8 == last_step_rank(us);
        if f == 0 {
            !last && d == s + step && 0 <= d < 64 && !self.occupied(d)
        } else if f == 1 {
            s / 8 == start_rank(us) && d == s + 2 * step && !self.occupied(s + step)
                && !self.occupied(d)
        } else if f == 4 {
            !last && pawn_reach(s, us, d) && self.enemy_on(us, d)
        } else if f == 5 {
            pawn_reach(s, us, d) && self.en_passant_open(us, d)
        } else if 8 <= f < 12 {
            last && d == s + step && !self.occupied(d)
        } else if f >= 12 {
            last && pawn_reach(s, us, d) && self.enemy_on(us, d)
        } else {
            false
        }
    }

    /// Whether `m` moves a piece of the given kind as it attacks, to a free
    /// square or onto a piece of the other color, which it captures.
    pub open spec fn piece_move(self, us: Color, kind: PieceKind, m: Move) -> bool {
        &&& attack_reach(kind, us, m.src(), self.occupancy(), m.dst())
        &&& if self.enemy_on(us, m.dst()) {
            m.flags() == 4
        } else {
            m.flags() == 0 && !self.occupied(m.dst())
        }
    }

    /// Whether the color may castle kingside: it has the right, king and
    /// rook stand on their home squares, the two squares between them are
    /// free, the king is not in check and neither square it crosses is attacked.
    pub open spec fn may_castle_kingside(self, us: Color) -> bool {
        let k = king_home(us);
        &&& self.castle.has_kingside(us)
        &&& self.is_king_square(us, k)
        &&& self.piece_on(kingside_rook_home(us)) == Some(Piece { color: us, kind: PieceKind::Rook })
        &&& !self.occupied(k + 1)
        &&& !self.occupied(k + 2)
        &&& !self.in_check(us)
        &&& !self.attacked_by(us.other(), k + 1)
        &&& !self.attacked_by(us.other(), k + 2)
    }

    /// Whether the color may castle queenside: as on the kingside, but three
    /// squares lie between king and rook, of which the king crosses two.
    pub open spec fn may_castle_queenside(self, us: Color) -> bool {
        let k = king_home(us);
        &&& self.castle.has_queenside(us)
        &&& self.is_king_square(us, k)
        &&& self.piece_on(queenside_rook_home(us)) == Some(
            Piece { color: us, kind: PieceKind::Rook },
        )
        &&& !self.occupied(k - 1)
        &&& !self.occupied(k - 2)
        &&& !self.occupied(k - 3)
        &&& !self.in_check(us)
        &&& !self.attacked_by(us.other(), k - 1)
        &&& !self.attacked_by(us.other(), k - 2)
    }

    /// Whether `m` is a move that the color's king may make.
    pub open spec fn king_move(self, us: Color, m: Move) -> bool {
        &&& self.is_king_square(us, m.src())
        &&& if m.flags() == 2 {
            m.src() == king_home(us) && m.dst() == m.src() + 2 && self.may_castle_kingside(us)
        } else if m.flags() == 3 {
            m.src() == king_home(us) && m.dst() == m.src() - 2 && self.may_castle_queenside(us)
        } else {
            self.piece_move(us, PieceKind::King, m)
        }
    }

    /// Whether `m` is pseudo-legal for the color: it moves one of the
    /// color's pieces as the rules of movement allow and does not land on a
    /// piece of the same color. Whether it leaves the king in check is not asked.
    pub open spec fn pseudo_legal(self, us: Color, m: Move) -> bool {
        match self.piece_on(m.src()) {
            Some(p) => p.color == us && match p.kind {
                PieceKind::Pawn => self.pawn_move(us, m),
                PieceKind::King => self.king_move(us, m),
                kind => self.piece_move(us, kind, m),
            },
            None => false,
        }
    }

    /// Whether `m` is legal: pseudo-legal for the side to move, and the
    /// mover's king is not in check after it.
    pub open spec fn legal(self, m: Move) -> bool {
        self.pseudo_legal(self.side, m) && self.leaves_king_safe(m)
    }

    /// A pseudo-legal move of the side to move can be made.
    pub proof fn lemma_pseudo_legal_can_make(self, m: Move)
        requires
            self.wf(),
            self.pseudo_legal(self.side, m),
        ensures
            self.can_make(m),
            m.raw() != 0,
    {
        m.lemma_parts();
        let p = self.piece_on(m.src()).unwrap();
        if p.kind == PieceKind::Pawn {
        } else if p.kind == PieceKind::King {
        } else {
        }
    }
}

} // verus!
