//! Zobrist hashing: a table of 781 fixed pseudo-random keys, one for every
//! piece on every square (12 x 64), one for Black to move, four for the
//! castling rights and eight for the file of the en-passant square. The hash
//! of a position is the exclusive-or of the keys of what holds in it.

use crate::types::{Color, Piece, PieceKind, Square};
use vstd::prelude::*;

verus! {

/// The number of keys in the table.
pub const KEY_COUNT: usize = 781;

/// The index of the key for Black to move.
pub const SIDE_TO_MOVE_INDEX: usize = 768;

/// The index of the first of the four castling keys: White kingside, White
/// queenside, Black kingside, Black queenside.
pub const CASTLING_RIGHTS_INDEX: usize = 769;

/// The index of the first of the eight en-passant keys, one for each file.
pub const EN_PASSANT_INDEX: usize = 773;

/// The seed from which the engine's table of keys is drawn.
pub const ZOBRIST_SEED: u64 = 0xf68e_34a4_e8cc_f09a;

/// One step of the xorshift generator.
pub open spec fn xorshift(x: u64) -> u64 {
    let a = x ^ (x << 13);
    let b = a ^ (a >> 7);
    b ^ (b << 17)
}

/// The state of the generator after `n` steps from `seed`.
pub open spec fn xorshift_nth(seed: u64, n: nat) -> u64
    decreases n,
{
    if n == 0 {
        seed
    } else {
        xorshift(xorshift_nth(seed, (n - 1) as nat))
    }
}

/// Key number `i` of the engine's table: the generator's output number `i`,
/// counted from zero, when started from the engine's seed.
pub open spec fn key(i: int) -> u64 {
    xorshift_nth(ZOBRIST_SEED, (i + 1) as nat)
}

/// The key of a piece on a square.
pub open spec fn piece_key(piece: Piece, square: int) -> u64 {
    key(12 * square + piece.ordinal())
}

/// The key of the side to move: zero for White.
pub open spec fn side_key(side: Color) -> u64 {
    match side {
        Color::White => 0,
        Color::Black => key(SIDE_TO_MOVE_INDEX as int),
    }
}

/// The key of the right to castle kingside.
pub open spec fn kingside_key(color: Color) -> u64 {
    match color {
        Color::White => key(CASTLING_RIGHTS_INDEX as int),
        Color::Black => key(CASTLING_RIGHTS_INDEX as int + 2),
    }
}

/// The key of the right to castle queenside.
pub open spec fn queenside_key(color: Color) -> u64 {
    match color {
        Color::White => key(CASTLING_RIGHTS_INDEX as int + 1),
        Color::Black => key(CASTLING_RIGHTS_INDEX as int + 3),
    }
}

/// The key of an en-passant square, which depends on its file only; zero
/// where there is none.
pub open spec fn en_passant_key(square: Option<Square>) -> u64 {
    match square {
        Some(sq) => key(EN_PASSANT_INDEX as int + sq.file_idx()),
        None => 0,
    }
}

/// A xorshift pseudo-random number generator with 64 bits of state.
#[derive(Debug)]
pub struct Xorshift64 {
    state: u64,
}

impl Xorshift64 {
    /// The state of the generator.
    pub closed spec fn state(self) -> u64 {
        self.state
    }

    /// A generator that starts from the given seed.
    pub fn new(seed: u64) -> (g: Xorshift64)
        ensures
            g.state() == seed,
    {
        Xorshift64 { state: seed }
    }

    /// Steps the generator and gives out its new state.
    pub fn next(&mut self) -> (r: u64)
        ensures
            r == xorshift(old(self).state()),
            final(self).state() == r,
    {
        let mut x = self.state;
        x ^= x << 13;
        x ^= x >> 7;
        x ^= x << 17;
        self.state = x;
        self.state
    }
}

/// A table of Zobrist keys drawn from a seed.
#[derive(Debug)]
pub struct ZobristHasher {
    magic_hashes: Vec<u64>,
}

impl ZobristHasher {
    /// The table holds all its keys.
    #[verifier::type_invariant]
    pub closed spec fn full(self) -> bool {
        self.magic_hashes.len() == KEY_COUNT
    }

    /// Key number `i` of this table.
    pub closed spec fn entry(self, i: int) -> u64 {
        self.magic_hashes@[i]
    }

    /// Whether the table holds the first 781 outputs of the generator started from `seed`.
    pub open spec fn seeded(self, seed: u64) -> bool {
        forall|i: int| 0 <= i < KEY_COUNT ==> #[trigger] self.entry(i) == xorshift_nth(seed, (i + 1) as nat)
    }

    /// Whether the table holds the engine's keys.
    pub open spec fn standard(self) -> bool {
        forall|i: int| 0 <= i < KEY_COUNT ==> #[trigger] self.entry(i) == key(i)
    }

    /// The table of keys drawn from the given seed.
    pub fn new(seed: u64) -> (h: ZobristHasher)
        ensures
            h.seeded(seed),
            seed == ZOBRIST_SEED ==> h.standard(),
    {
        let mut rng = Xorshift64::new(seed);
        let mut magic_hashes: Vec<u64> = Vec::new();
        while magic_hashes.len() < KEY_COUNT
            invariant
                magic_hashes.len() <= KEY_COUNT,
                rng.state() == xorshift_nth(seed, magic_hashes.len() as nat),
                forall|i: int|
                    0 <= i < magic_hashes.len() ==> #[trigger] magic_hashes[i] == xorshift_nth(
                        seed,
                        (i + 1) as nat,
                    ),
            decreases KEY_COUNT - magic_hashes.len(),
        {
            let next = rng.next();
            magic_hashes.push(next);
        }
        ZobristHasher { magic_hashes }
    }

    /// The key of a piece of the given kind and color on the given square.
    pub fn square_hash(&self, kind: PieceKind, color: Color, square: Square) -> (r: u64)
        ensures
            r == self.entry(12 * square.idx() + Piece { color, kind }.ordinal()),
            self.standard() ==> r == piece_key(Piece { color, kind }, square.idx()),
    {
        proof {
            use_type_invariant(self);
        }
        let offset: usize = 12 * (square.as_u8() as usize);
        let color_offset: usize = if color == Color::White {
            0
        } else {
            6
        };
        let piece_offset = kind.index();
        let index = offset + color_offset + piece_offset;
        assert(self.standard() ==> self.entry(index as int) == key(index as int));
        self.magic_hashes[index]
    }

    /// The key of the side to move: zero for White.
    pub fn side_to_move_hash(&self, side: Color) -> (r: u64)
        ensures
            r == match side {
                Color::White => 0,
                Color::Black => self.entry(SIDE_TO_MOVE_INDEX as int),
            },
            self.standard() ==> r == side_key(side),
    {
        proof {
            use_type_invariant(self);
        }
        assert(self.standard() ==> self.entry(SIDE_TO_MOVE_INDEX as int) == key(
            SIDE_TO_MOVE_INDEX as int,
        ));
        match side {
            Color::White => 0,
            Color::Black => self.magic_hashes[SIDE_TO_MOVE_INDEX],
        }
    }

    /// The key of an en-passant square.
    pub fn en_passant_hash(&self, square: Square) -> (r: u64)
        ensures
            r == self.entry(EN_PASSANT_INDEX as int + square.file_idx()),
            self.standard() ==> r == en_passant_key(Some(square)),
    {
        proof {
            use_type_invariant(self);
        }
        let index = square.file().as_u8() as usize + EN_PASSANT_INDEX;
        assert(self.standard() ==> self.entry(index as int) == key(index as int));
        self.magic_hashes[index]
    }

    /// The castling key with the given number: 0 and 1 for White's kingside
    /// and queenside, 2 and 3 for Black's.
    pub fn castle_hash(&self, offset: usize) -> (r: u64)
        requires
            offset < 4,
        ensures
            r == self.entry(CASTLING_RIGHTS_INDEX as int + offset),
            self.standard() ==> r == key(CASTLING_RIGHTS_INDEX as int + offset),
    {
        proof {
            use_type_invariant(self);
        }
        let index = offset + CASTLING_RIGHTS_INDEX;
        assert(self.standard() ==> self.entry(index as int) == key(index as int));
        self.magic_hashes[index]
    }
}

/// Toggles in `hash` the key of the piece on the square.
pub fn modify_piece(hasher: &ZobristHasher, hash: &mut u64, square: Square, piece: Piece)
    requires
        hasher.standard(),
    ensures
        *final(hash) == *old(hash) ^ piece_key(piece, square.idx()),
{
    *hash ^= hasher.square_hash(piece.kind, piece.color, square);
}

/// Toggles in `hash` the key that tells whose move it is.
pub fn modify_side_to_move(hasher: &ZobristHasher, hash: &mut u64)
    requires
        hasher.standard(),
    ensures
        *final(hash) == *old(hash) ^ side_key(Color::Black),
{
    *hash ^= hasher.side_to_move_hash(Color::Black);
}

/// Toggles in `hash` the key of the color's right to castle kingside.
pub fn modify_kingside_castle(hasher: &ZobristHasher, hash: &mut u64, color: Color)
    requires
        hasher.standard(),
    ensures
        *final(hash) == *old(hash) ^ kingside_key(color),
{
    let offset: usize = if color == Color::White {
        0
    } else {
        2
    };
    *hash ^= hasher.castle_hash(offset);
}

/// Toggles in `hash` the key of the color's right to castle queenside.
pub fn modify_queenside_castle(hasher: &ZobristHasher, hash: &mut u64, color: Color)
    requires
        hasher.standard(),
    ensures
        *final(hash) == *old(hash) ^ queenside_key(color),
{
    let offset: usize = if color == Color::White {
        1
    } else {
        3
    };
    *hash ^= hasher.castle_hash(offset);
}

/// Replaces in `hash` the key of the old en-passant square by that of the new one.
pub fn modify_en_passant(
    hasher: &ZobristHasher,
    hash: &mut u64,
    old_square: Option<Square>,
    new_square: Option<Square>,
)
    requires
        hasher.standard(),
    ensures
        *final(hash) == (*old(hash) ^ en_passant_key(old_square)) ^ en_passant_key(new_square),
{
    proof {
        crate::bits::lemma_undo(*hash, 0);
    }
    match old_square {
        Some(sq) => {
            *hash ^= hasher.en_passant_hash(sq);
        },
        None => {},
    }
    match new_square {
        Some(sq) => {
            *hash ^= hasher.en_passant_hash(sq);
        },
        None => {
            proof {
                crate::bits::lemma_undo(*hash, 0);
            }
        },
    }
}

} // verus!
