//! Reading a move from its text in the Universal Chess Interface. The text
//! names the squares only: what kind of move it is, the position tells.

use crate::attacks::{forward, pawn_attacks, pawn_reach};
use crate::model::{king_home, PositionModel};
use crate::moves::Move;
use crate::position::{king_start, Position};
use crate::rules::start_rank;
use crate::text::chars_of;
use crate::types::{Color, File, PieceKind, Rank, Square};
use vstd::prelude::*;

verus! {

/// The kind that the letter of a promotion names.
pub open spec fn promotion_of(c: char) -> Option<PieceKind> {
    if c == 'n' {
        Some(PieceKind::Knight)
    } else if c == 'b' {
        Some(PieceKind::Bishop)
    } else if c == 'r' {
        Some(PieceKind::Rook)
    } else if c == 'q' {
        Some(PieceKind::Queen)
    } else {
        None
    }
}

/// The index of the rank on which the color's pawns promote.
pub open spec fn promotion_rank(side: Color) -> int {
    match side {
        Color::White => 7,
        Color::Black => 0,
    }
}

/// The move of a pawn from `s` to `d`, told from the position: a double
/// push from the start rank, a capture (with promotion on the last rank, en
/// passant onto the en-passant square), a promotion, or a quiet move.
pub open spec fn pawn_move_of(m: PositionModel, s: int, d: int, promo: Option<char>) -> Option<Move> {
    let kind = match promo {
        Some(c) => promotion_of(c),
        None => None,
    };
    if s / 8 == start_rank(m.side) && d == s + 16 * forward(m.side) {
        Some(Move::pack(s, d, 1))
    } else if pawn_reach(s, m.side, d) {
        if d / 8 == promotion_rank(m.side) {
            match kind {
                Some(k) => Some(Move::pack(s, d, 12 + Move::promotion_code(k))),
                None => None,
            }
        } else if m.ep.is_some() && m.ep.unwrap().idx() == d {
            Some(Move::pack(s, d, 5))
        } else {
            Some(Move::pack(s, d, 4))
        }
    } else if d / 8 == promotion_rank(m.side) {
        match kind {
            Some(k) => Some(Move::pack(s, d, 8 + Move::promotion_code(k))),
            None => None,
        }
    } else {
        Some(Move::pack(s, d, 0))
    }
}

/// The move of a king from `s` to `d`, told from the position: castling
/// where it goes two squares from its home square, and else a capture or a
/// quiet move.
pub open spec fn king_move_of(m: PositionModel, s: int, d: int) -> Move {
    if s == king_home(m.side) && d == s + 2 {
        Move::pack(s, d, 2)
    } else if s == king_home(m.side) && d == s - 2 {
        Move::pack(s, d, 3)
    } else if m.occupied(d) {
        Move::pack(s, d, 4)
    } else {
        Move::pack(s, d, 0)
    }
}

/// The move that a text of the Universal Chess Interface names in the
/// position: none where the text is shorter than four characters, names no
/// squares, leaves out the piece of a promotion, or where no piece stands on
/// the source square. `0000` names the null move.
pub open spec fn uci_move(m: PositionModel, s: Seq<char>) -> Option<Move> {
    if s.len() < 4 {
        None
    } else if s =~= seq!['0', '0', '0', '0'] {
        Some(Move::pack(0, 0, 0))
    } else {
        match (File::of_char(s[0]), Rank::of_char(s[1]), File::of_char(s[2]), Rank::of_char(s[3])) {
            (Some(sf), Some(sr), Some(df), Some(dr)) => {
                let source = sr * 8 + sf;
                let dest = dr * 8 + df;
                let promo = if s.len() == 5 {
                    Some(s[4])
                } else {
                    None
                };
                match m.piece_on(source) {
                    None => None,
                    Some(piece) => if piece.kind == PieceKind::Pawn {
                        pawn_move_of(m, source, dest, promo)
                    } else if piece.kind == PieceKind::King {
                        Some(king_move_of(m, source, dest))
                    } else if m.occupied(dest) {
                        Some(Move::pack(source, dest, 4))
                    } else {
                        Some(Move::pack(source, dest, 0))
                    },
                }
            },
            _ => None,
        }
    }
}

/// The kind that the letter of a promotion names.
fn promotion_kind(promo: Option<char>) -> (r: Option<PieceKind>)
    ensures
        r == match promo {
            Some(c) => promotion_of(c),
            None => None,
        },
        r.is_some() ==> Move::can_promote_to(r.unwrap()),
{
    match promo {
        Some(c) => {
            if c == 'n' {
                Some(PieceKind::Knight)
            } else if c == 'b' {
                Some(PieceKind::Bishop)
            } else if c == 'r' {
                Some(PieceKind::Rook)
            } else if c == 'q' {
                Some(PieceKind::Queen)
            } else {
                None
            }
        },
        None => None,
    }
}

impl Move {
    /// Reads a move from its text in the Universal Chess Interface.
    pub fn from_uci(pos: &Position, move_str: &str) -> (r: Option<Move>)
        requires
            pos.wf(),
        ensures
            r == uci_move(pos@, move_str@),
    {
        let ghost m = pos@;
        let chars = chars_of(move_str);
        if chars.len() < 4 {
            return None;
        }
        // The null move is written with four zeros.
        if chars.len() == 4 && chars[0] == '0' && chars[1] == '0' && chars[2] == '0' && chars[3]
            == '0' {
            assert(chars@ =~= seq!['0', '0', '0', '0']);
            return Some(Move::null());
        }
        let source_file = match File::try_from_char(chars[0]) {
            Ok(file) => file,
            Err(_) => {
                return None;
            },
        };
        let source_rank = match Rank::try_from_char(chars[1]) {
            Ok(rank) => rank,
            Err(_) => {
                return None;
            },
        };
        let dest_file = match File::try_from_char(chars[2]) {
            Ok(file) => file,
            Err(_) => {
                return None;
            },
        };
        let dest_rank = match Rank::try_from_char(chars[3]) {
            Ok(rank) => rank,
            Err(_) => {
                return None;
            },
        };
        let maybe_promotion_piece = if chars.len() == 5 {
            Some(chars[4])
        } else {
            None
        };
        let source = Square::of(source_rank, source_file);
        let dest = Square::of(dest_rank, dest_file);
        let s = source.as_u8();
        let d = dest.as_u8();
        let dest_piece = pos.piece_at(dest);
        let moving_piece = match pos.piece_at(source) {
            Some(piece) => piece,
            None => {
                return None;
            },
        };
        let side = pos.side_to_move();
        if moving_piece.kind == PieceKind::Pawn {
            let (two_ahead, start, last): (Option<Square>, u8, u8) = match side {
                Color::White => (source.offset(2, 0), 1, 7),
                Color::Black => (source.offset(-2, 0), 6, 0),
            };
            // Two squares straight ahead from the start rank.
            if source_rank.as_u8() == start {
                match two_ahead {
                    Some(square) => {
                        if square.as_u8() == d {
                            return Some(Move::double_pawn_push(source, dest));
                        }
                    },
                    None => {},
                }
            }
            if pawn_attacks(source, side).contains(dest) {
                if dest_rank.as_u8() == last {
                    return match promotion_kind(maybe_promotion_piece) {
                        Some(kind) => Some(Move::promotion_capture(source, dest, kind)),
                        None => None,
                    };
                }
                let onto_en_passant = match pos.en_passant_square() {
                    Some(square) => square.as_u8() == d,
                    None => false,
                };
                if onto_en_passant {
                    return Some(Move::en_passant(source, dest));
                }
                return Some(Move::capture(source, dest));
            }
            if dest_rank.as_u8() == last {
                return match promotion_kind(maybe_promotion_piece) {
                    Some(kind) => Some(Move::promotion(source, dest, kind)),
                    None => None,
                };
            }
            return Some(Move::quiet(source, dest));
        }
        if moving_piece.kind == PieceKind::King {
            if s == king_start(side).as_u8() {
                // Two squares towards the rook of either side.
                if d == s + 2 {
                    return Some(Move::kingside_castle(source, dest));
                }
                if d + 2 == s {
                    return Some(Move::queenside_castle(source, dest));
                }
            }
            if dest_piece.is_some() {
                return Some(Move::capture(source, dest));
            }
            return Some(Move::quiet(source, dest));
        }
        if dest_piece.is_some() {
            return Some(Move::capture(source, dest));
        }
        Some(Move::quiet(source, dest))
    }
}

} // verus!
