//! Moves, packed into sixteen bits: six for the source square, six for the
//! destination and four flags (promotion, capture, special-0, special-1).
//!
//! | promotion | capture | special-0 | special-1 | move                   |
//! |-----------|---------|-----------|-----------|------------------------|
//! | 0         | 0       | 0         | 0         | quiet                  |
//! | 0         | 0       | 0         | 1         | double pawn push       |
//! | 0         | 0       | 1         | 0         | kingside castle        |
//! | 0         | 0       | 1         | 1         | queenside castle       |
//! | 0         | 1       | 0         | 0         | capture                |
//! | 0         | 1       | 0         | 1         | en-passant capture     |
//! | 1         | 0       | x         | y         | promotion to N, B, R, Q |
//! | 1         | 1       | x         | y         | promotion with capture |

use crate::text::string_of;
use crate::types::{File, PieceKind, Rank, Square};
use vstd::prelude::*;

verus! {

/// The flag bit of a promotion.
pub const PROMO_BIT: u16 = 0x0008;

/// The flag bit of a capture.
pub const CAPTURE_BIT: u16 = 0x0004;

/// The first of the two flag bits that tell the special moves apart.
pub const SPECIAL_0_BIT: u16 = 0x0002;

/// The second of the two flag bits that tell the special moves apart.
pub const SPECIAL_1_BIT: u16 = 0x0001;

/// A move. The move whose sixteen bits are all zero is the null move.
#[derive(Copy, Clone, Debug, PartialEq, Eq, Hash, Structural)]
pub struct Move {
    bits: u16,
}

impl Move {
    /// The sixteen bits of the move, as a number.
    pub closed spec fn raw(self) -> int {
        self.bits as int
    }

    /// The move made of a source, a destination and four flag bits, in specifications.
    pub closed spec fn pack(source: int, dest: int, flags: int) -> Move {
        Move { bits: (source * 1024 + dest * 16 + flags) as u16 }
    }

    /// The move with the given sixteen bits, in specifications.
    pub closed spec fn of_raw(raw: int) -> Move {
        Move { bits: raw as u16 }
    }

    /// Every move is the move of its sixteen bits.
    pub broadcast proof fn lemma_of_raw(self)
        ensures
            Move::of_raw(#[trigger] self.raw()) == self,
            0 <= self.raw() < 65536,
    {
    }

    /// The move of sixteen bits has these bits.
    pub broadcast proof fn lemma_raw_of(raw: int)
        requires
            0 <= raw < 65536,
        ensures
            #[trigger] Move::of_raw(raw).raw() == raw,
    {
    }

    /// The index of the source square.
    pub open spec fn src(self) -> int {
        self.raw() / 1024
    }

    /// The index of the destination square.
    pub open spec fn dst(self) -> int {
        (self.raw() / 16) % 64
    }

    /// The four flag bits, as a number below 16.
    pub open spec fn flags(self) -> int {
        self.raw() % 16
    }

    /// Whether the capture flag is set.
    pub open spec fn captures(self) -> bool {
        (self.flags() / 4) % 2 == 1
    }

    /// Whether the promotion flag is set.
    pub open spec fn promotes(self) -> bool {
        self.flags() >= 8
    }

    /// The kind that a promotion promotes to, named by the two special bits.
    pub open spec fn promoted(self) -> PieceKind {
        let which = self.flags() % 4;
        if which == 0 {
            PieceKind::Knight
        } else if which == 1 {
            PieceKind::Bishop
        } else if which == 2 {
            PieceKind::Rook
        } else {
            PieceKind::Queen
        }
    }

    /// The value of the two special bits that names a promotion piece.
    pub open spec fn promotion_code(kind: PieceKind) -> int {
        match kind {
            PieceKind::Knight => 0,
            PieceKind::Bishop => 1,
            PieceKind::Rook => 2,
            PieceKind::Queen => 3,
            _ => 0,
        }
    }

    /// Whether a pawn may promote to the kind.
    pub open spec fn can_promote_to(kind: PieceKind) -> bool {
        kind != PieceKind::Pawn && kind != PieceKind::King
    }

    /// A packed move has the parts it was packed from.
    pub broadcast proof fn lemma_pack(source: int, dest: int, flags: int)
        requires
            0 <= source < 64,
            0 <= dest < 64,
            0 <= flags < 16,
        ensures
            (#[trigger] Move::pack(source, dest, flags)).src() == source,
            Move::pack(source, dest, flags).dst() == dest,
            Move::pack(source, dest, flags).flags() == flags,
            Move::pack(source, dest, flags).raw() == source * 1024 + dest * 16 + flags,
    {
    }

    /// Every move is the packing of its own parts, which are in range.
    pub broadcast proof fn lemma_parts(self)
        ensures
            0 <= #[trigger] self.src() < 64,
            0 <= self.dst() < 64,
            0 <= self.flags() < 16,
            0 <= self.raw() < 65536,
            self == Move::pack(self.src(), self.dst(), self.flags()),
    {
    }

    /// Two moves with the same parts are the same move.
    pub proof fn lemma_equal(a: Move, b: Move)
        requires
            a.src() == b.src(),
            a.dst() == b.dst(),
            a.flags() == b.flags(),
        ensures
            a == b,
    {
        a.lemma_parts();
        b.lemma_parts();
    }

    /// The move with the given source, destination and flag bits.
    pub(crate) fn make(source: Square, dest: Square, flags: u16) -> (m: Move)
        requires
            flags < 16,
        ensures
            m == Move::pack(source.idx(), dest.idx(), flags as int),
            m.src() == source.idx(),
            m.dst() == dest.idx(),
            m.flags() == flags,
    {
        let s: u16 = source.as_u8() as u16;
        let d: u16 = dest.as_u8() as u16;
        Move { bits: s * 1024 + d * 16 + flags }
    }

    /// A move that neither captures nor is special in any way.
    pub fn quiet(source: Square, dest: Square) -> (m: Move)
        ensures
            m == Move::pack(source.idx(), dest.idx(), 0),
            m.src() == source.idx(),
            m.dst() == dest.idx(),
            m.flags() == 0,
    {
        Move::make(source, dest, 0)
    }

    /// A capture of the piece on the destination square.
    pub fn capture(source: Square, dest: Square) -> (m: Move)
        ensures
            m == Move::pack(source.idx(), dest.idx(), 4),
            m.src() == source.idx(),
            m.dst() == dest.idx(),
            m.flags() == 4,
    {
        Move::make(source, dest, CAPTURE_BIT)
    }

    /// A capture en passant: the destination is the square the captured pawn passed over.
    pub fn en_passant(source: Square, dest: Square) -> (m: Move)
        ensures
            m == Move::pack(source.idx(), dest.idx(), 5),
            m.src() == source.idx(),
            m.dst() == dest.idx(),
            m.flags() == 5,
    {
        Move::make(source, dest, CAPTURE_BIT + SPECIAL_1_BIT)
    }

    /// A pawn's first move of two squares.
    pub fn double_pawn_push(source: Square, dest: Square) -> (m: Move)
        ensures
            m == Move::pack(source.idx(), dest.idx(), 1),
            m.src() == source.idx(),
            m.dst() == dest.idx(),
            m.flags() == 1,
    {
        Move::make(source, dest, SPECIAL_1_BIT)
    }

    fn code_of(promoted: PieceKind) -> (c: u16)
        requires
            Move::can_promote_to(promoted),
        ensures
            c == Move::promotion_code(promoted),
            c < 4,
    {
        match promoted {
            PieceKind::Knight => 0,
            PieceKind::Bishop => 1,
            PieceKind::Rook => 2,
            _ => 3,
        }
    }

    /// A pawn's move to the last rank, where it becomes a piece of the given kind.
    pub fn promotion(source: Square, dest: Square, promoted: PieceKind) -> (m: Move)
        requires
            Move::can_promote_to(promoted),
        ensures
            m == Move::pack(source.idx(), dest.idx(), 8 + Move::promotion_code(promoted)),
            m.src() == source.idx(),
            m.dst() == dest.idx(),
            m.flags() == 8 + Move::promotion_code(promoted),
            m.promoted() == promoted,
    {
        Move::make(source, dest, PROMO_BIT + Move::code_of(promoted))
    }

    /// A pawn's capture onto the last rank, where it becomes a piece of the given kind.
    pub fn promotion_capture(source: Square, dest: Square, promotion: PieceKind) -> (m: Move)
        requires
            Move::can_promote_to(promotion),
        ensures
            m == Move::pack(source.idx(), dest.idx(), 12 + Move::promotion_code(promotion)),
            m.src() == source.idx(),
            m.dst() == dest.idx(),
            m.flags() == 12 + Move::promotion_code(promotion),
            m.promoted() == promotion,
    {
        Move::make(source, dest, PROMO_BIT + CAPTURE_BIT + Move::code_of(promotion))
    }

    /// Castling on the king's side, given as the king's move.
    pub fn kingside_castle(source: Square, dest: Square) -> (m: Move)
        ensures
            m == Move::pack(source.idx(), dest.idx(), 2),
            m.src() == source.idx(),
            m.dst() == dest.idx(),
            m.flags() == 2,
    {
        Move::make(source, dest, SPECIAL_0_BIT)
    }

    /// Castling on the queen's side, given as the king's move.
    pub fn queenside_castle(source: Square, dest: Square) -> (m: Move)
        ensures
            m == Move::pack(source.idx(), dest.idx(), 3),
            m.src() == source.idx(),
            m.dst() == dest.idx(),
            m.flags() == 3,
    {
        Move::make(source, dest, SPECIAL_0_BIT + SPECIAL_1_BIT)
    }

    /// The null move, which passes the turn.
    pub fn null() -> (m: Move)
        ensures
            m.raw() == 0,
            m == Move::pack(0, 0, 0),
    {
        Move { bits: 0 }
    }

    /// The kind that this promotion promotes to.
    pub fn promotion_piece(self) -> (k: PieceKind)
        requires
            self.promotes(),
        ensures
            k == self.promoted(),
            Move::can_promote_to(k),
    {
        let piece = self.bits % 4;
        if piece == 0 {
            PieceKind::Knight
        } else if piece == 1 {
            PieceKind::Bishop
        } else if piece == 2 {
            PieceKind::Rook
        } else {
            PieceKind::Queen
        }
    }

    /// The square the move starts from.
    pub fn source(self) -> (s: Square)
        ensures
            s.idx() == self.src(),
    {
        Square::new((self.bits / 1024) as u8)
    }

    /// The square the move ends on.
    pub fn destination(self) -> (s: Square)
        ensures
            s.idx() == self.dst(),
    {
        Square::new(((self.bits / 16) % 64) as u8)
    }

    /// Whether no flag is set.
    pub fn is_quiet(self) -> (r: bool)
        ensures
            r == (self.flags() == 0),
    {
        self.bits % 16 == 0
    }

    /// Whether the move captures.
    pub fn is_capture(self) -> (r: bool)
        ensures
            r == self.captures(),
    {
        (self.bits % 16) / 4 % 2 == 1
    }

    /// Whether the move is a capture en passant.
    pub fn is_en_passant(self) -> (r: bool)
        ensures
            r == (self.flags() == 5),
    {
        self.bits % 16 == 5
    }

    /// Whether the move is a pawn's first move of two squares.
    pub fn is_double_pawn_push(self) -> (r: bool)
        ensures
            r == (self.flags() == 1),
    {
        self.bits % 16 == 1
    }

    /// Whether the move promotes a pawn.
    pub fn is_promotion(self) -> (r: bool)
        ensures
            r == self.promotes(),
    {
        self.bits % 16 >= 8
    }

    /// Whether the move castles on the king's side.
    pub fn is_kingside_castle(self) -> (r: bool)
        ensures
            r == (self.flags() == 2),
    {
        self.bits % 16 == 2
    }

    /// Whether the move castles on the queen's side.
    pub fn is_queenside_castle(self) -> (r: bool)
        ensures
            r == (self.flags() == 3),
    {
        self.bits % 16 == 3
    }

    /// Whether the move castles.
    pub fn is_castle(self) -> (r: bool)
        ensures
            r == (self.flags() == 2 || self.flags() == 3),
    {
        self.is_kingside_castle() || self.is_queenside_castle()
    }

    /// Whether the move is the null move.
    pub fn is_null(self) -> (r: bool)
        ensures
            r == (self.raw() == 0),
    {
        self.bits == 0
    }

    /// The text of a square: the letter of its file, then the digit of its rank.
    pub open spec fn square_text(i: int) -> Seq<char> {
        seq![File::char_of(i % 8), Rank::char_of(i / 8)]
    }

    /// The text of the move in the Universal Chess Interface: source,
    /// destination and, for a promotion, the letter of the new piece; the null
    /// move is `0000`.
    pub open spec fn uci_text(self) -> Seq<char> {
        if self.raw() == 0 {
            seq!['0', '0', '0', '0']
        } else if self.promotes() {
            Move::square_text(self.src()) + Move::square_text(self.dst()) + seq![
                self.promoted().letter(),
            ]
        } else {
            Move::square_text(self.src()) + Move::square_text(self.dst())
        }
    }

    /// The text of the move in the Universal Chess Interface.
    pub fn as_uci(self) -> (s: String)
        ensures
            s@ == self.uci_text(),
    {
        let mut chars: Vec<char> = Vec::new();
        if self.is_null() {
            chars.push('0');
            chars.push('0');
            chars.push('0');
            chars.push('0');
            assert(chars@ =~= self.uci_text());
            return string_of(&chars);
        }
        let source = self.source();
        let dest = self.destination();
        chars.push(source.file().to_char());
        chars.push(source.rank().to_char());
        chars.push(dest.file().to_char());
        chars.push(dest.rank().to_char());
        if self.is_promotion() {
            chars.push(self.promotion_piece().to_char());
        }
        assert(chars@ =~= self.uci_text());
        string_of(&chars)
    }
}

} // verus!
