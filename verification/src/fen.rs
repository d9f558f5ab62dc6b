//! Forsyth-Edwards notation: the six fields piece placement, side to move,
//! castling rights, en-passant square, halfmove clock and fullmove number,
//! parted by single spaces.

use crate::model::PositionModel;
use crate::position::Position;
use crate::text::{
    char_of_digit, chars_of, decimal, decimal_value, digit_char, digit_of, digit_value, is_digit,
    push_decimal, string_of,
};
use crate::types::{CastleStatus, Color, File, Piece, PieceKind, Rank, Square};
use vstd::prelude::*;

verus! {

/// Why a text could not be read as a position.
#[derive(Copy, Clone, Debug, PartialEq, Eq, Structural)]
pub enum FenParseError {
    /// Another character stood where a separator was due.
    UnexpectedChar(char),
    /// The text ended too early.
    UnexpectedEnd,
    /// A digit of the placement was not between 1 and 8.
    InvalidDigit,
    /// A rank of the placement held more than eight squares.
    FileDoesNotSumToEight,
    /// A letter of the placement names no piece.
    UnknownPiece(char),
    /// The side to move was neither `w` nor `b`.
    InvalidSideToMove,
    /// A castling flag was none of `K`, `Q`, `k`, `q`.
    InvalidCastle,
    /// The en-passant field was neither `-` nor a square.
    InvalidEnPassant,
    /// The halfmove clock had no digit.
    EmptyHalfmove,
    /// The halfmove clock did not fit in sixteen bits.
    InvalidHalfmove,
    /// The fullmove number had no digit.
    EmptyFullmove,
    /// The fullmove number did not fit in sixteen bits.
    InvalidFullmove,
}

impl FenParseError {
    /// The reason in words.
    pub open spec fn text(self) -> Seq<char> {
        match self {
            FenParseError::UnexpectedChar(c) => "unexpected char: "@.push(c),
            FenParseError::UnexpectedEnd => "unexpected EOF while reading"@,
            FenParseError::InvalidDigit => "invalid digit"@,
            FenParseError::FileDoesNotSumToEight => "file does not sum to 8"@,
            FenParseError::UnknownPiece(c) => "unknown piece: "@.push(c),
            FenParseError::InvalidSideToMove => "invalid side to move"@,
            FenParseError::InvalidCastle => "invalid castle"@,
            FenParseError::InvalidEnPassant => "invalid en-passant"@,
            FenParseError::EmptyHalfmove => "empty halfmove"@,
            FenParseError::InvalidHalfmove => "invalid halfmove"@,
            FenParseError::EmptyFullmove => "empty fullmove"@,
            FenParseError::InvalidFullmove => "invalid fullmove"@,
        }
    }

    /// The reason in words.
    pub fn message(&self) -> (s: String)
        ensures
            s@ == self.text(),
    {
        let mut out: Vec<char> = Vec::new();
        match self {
            FenParseError::UnexpectedChar(c) => {
                crate::text::push_text(&mut out, "unexpected char: ");
                out.push(*c);
            },
            FenParseError::UnexpectedEnd => {
                crate::text::push_text(&mut out, "unexpected EOF while reading");
            },
            FenParseError::InvalidDigit => {
                crate::text::push_text(&mut out, "invalid digit");
            },
            FenParseError::FileDoesNotSumToEight => {
                crate::text::push_text(&mut out, "file does not sum to 8");
            },
            FenParseError::UnknownPiece(c) => {
                crate::text::push_text(&mut out, "unknown piece: ");
                out.push(*c);
            },
            FenParseError::InvalidSideToMove => {
                crate::text::push_text(&mut out, "invalid side to move");
            },
            FenParseError::InvalidCastle => {
                crate::text::push_text(&mut out, "invalid castle");
            },
            FenParseError::InvalidEnPassant => {
                crate::text::push_text(&mut out, "invalid en-passant");
            },
            FenParseError::EmptyHalfmove => {
                crate::text::push_text(&mut out, "empty halfmove");
            },
            FenParseError::InvalidHalfmove => {
                crate::text::push_text(&mut out, "invalid halfmove");
            },
            FenParseError::EmptyFullmove => {
                crate::text::push_text(&mut out, "empty fullmove");
            },
            FenParseError::InvalidFullmove => {
                crate::text::push_text(&mut out, "invalid fullmove");
            },
        }
        string_of(&out)
    }
}

/// The character at index `i`, if the text has one there.
pub open spec fn char_at(s: Seq<char>, i: int) -> Option<char> {
    if 0 <= i < s.len() {
        Some(s[i])
    } else {
        None
    }
}

/// Reads the character `c` at index `i`: the index behind it, or why it could not be read.
pub open spec fn expect(s: Seq<char>, i: int, c: char) -> Result<int, FenParseError> {
    match char_at(s, i) {
        Some(x) => if x == c {
            Ok(i + 1)
        } else {
            Err(FenParseError::UnexpectedChar(x))
        },
        None => Err(FenParseError::UnexpectedEnd),
    }
}

/// The board without pieces.
pub open spec fn empty_board() -> Seq<Option<Piece>> {
    Seq::new(64, |i: int| None::<Piece>)
}

/// Reads the rest of the piece placement from index `i`, where the next
/// square to fill is on the given rank and file: ranks from the eighth down,
/// parted by `/`, each a run of piece letters and of digits that count
/// empty squares. Gives the board and the index behind the placement.
pub open spec fn parse_placement(
    s: Seq<char>,
    i: int,
    rank: int,
    file: int,
    board: Seq<Option<Piece>>,
) -> Result<(Seq<Option<Piece>>, int), FenParseError>
    decreases s.len() - i,
{
    if file > 7 {
        if rank <= 0 {
            Ok((board, i))
        } else {
            match char_at(s, i) {
                None => Err(FenParseError::UnexpectedEnd),
                Some(c) => if c == '/' {
                    parse_placement(s, i + 1, rank - 1, 0, board)
                } else {
                    Err(FenParseError::UnexpectedChar(c))
                },
            }
        }
    } else {
        match char_at(s, i) {
            None => Err(FenParseError::UnexpectedEnd),
            Some(c) => if is_digit(c) {
                if digit_value(c) < 1 || digit_value(c) > 8 {
                    Err(FenParseError::InvalidDigit)
                } else if file + digit_value(c) > 8 {
                    Err(FenParseError::FileDoesNotSumToEight)
                } else {
                    parse_placement(s, i + 1, rank, file + digit_value(c), board)
                }
            } else {
                match Piece::of_letter(c) {
                    None => Err(FenParseError::UnknownPiece(c)),
                    Some(p) => parse_placement(
                        s,
                        i + 1,
                        rank,
                        file + 1,
                        board.update(rank * 8 + file, Some(p)),
                    ),
                }
            },
        }
    }
}

/// Reads the side to move at index `i`.
pub open spec fn parse_side(s: Seq<char>, i: int) -> Result<(Color, int), FenParseError> {
    match char_at(s, i) {
        None => Err(FenParseError::UnexpectedEnd),
        Some(c) => if c == 'w' {
            Ok((Color::White, i + 1))
        } else if c == 'b' {
            Ok((Color::Black, i + 1))
        } else {
            Err(FenParseError::InvalidSideToMove)
        },
    }
}

/// Reads up to `n` more castling flags from index `i`, up to a space.
pub open spec fn parse_castle_flags(s: Seq<char>, i: int, n: int, status: CastleStatus) -> Result<
    (CastleStatus, int),
    FenParseError,
>
    decreases n,
{
    if n <= 0 {
        Ok((status, i))
    } else {
        match char_at(s, i) {
            None => Err(FenParseError::UnexpectedEnd),
            Some(c) => if c == 'K' {
                parse_castle_flags(s, i + 1, n - 1, status.set_kingside(Color::White, true))
            } else if c == 'k' {
                parse_castle_flags(s, i + 1, n - 1, status.set_kingside(Color::Black, true))
            } else if c == 'Q' {
                parse_castle_flags(s, i + 1, n - 1, status.set_queenside(Color::White, true))
            } else if c == 'q' {
                parse_castle_flags(s, i + 1, n - 1, status.set_queenside(Color::Black, true))
            } else if c == ' ' {
                Ok((status, i))
            } else {
                Err(FenParseError::InvalidCastle)
            },
        }
    }
}

/// No castling right.
pub open spec fn no_castle() -> CastleStatus {
    CastleStatus {
        white_kingside: false,
        white_queenside: false,
        black_kingside: false,
        black_queenside: false,
    }
}

/// Reads the castling rights at index `i`: `-`, or up to four flags.
pub open spec fn parse_castle(s: Seq<char>, i: int) -> Result<(CastleStatus, int), FenParseError> {
    match char_at(s, i) {
        None => Err(FenParseError::UnexpectedEnd),
        Some(c) => if c == '-' {
            Ok((no_castle(), i + 1))
        } else {
            parse_castle_flags(s, i, 4, no_castle())
        },
    }
}

/// Reads the en-passant square at index `i`: `-`, or a file letter and a rank digit.
pub open spec fn parse_en_passant(s: Seq<char>, i: int) -> Result<
    (Option<Square>, int),
    FenParseError,
> {
    match char_at(s, i) {
        None => Err(FenParseError::UnexpectedEnd),
        Some(c) => if c == '-' {
            Ok((None, i + 1))
        } else {
            match File::of_char(c) {
                None => Err(FenParseError::InvalidEnPassant),
                Some(file) => match char_at(s, i + 1) {
                    None => Err(FenParseError::UnexpectedEnd),
                    Some(d) => match Rank::of_char(d) {
                        None => Err(FenParseError::InvalidEnPassant),
                        Some(rank) => Ok((Some(Square::at(rank * 8 + file)), i + 2)),
                    },
                },
            }
        },
    }
}

/// The index behind the run of decimal digits that starts at index `i`.
pub open spec fn digits_end(s: Seq<char>, i: int) -> int
    decreases s.len() - i,
{
    if 0 <= i < s.len() && is_digit(s[i]) {
        digits_end(s, i + 1)
    } else {
        i
    }
}

/// Reads the halfmove clock at index `i`: a run of digits that the text
/// goes on after, worth at most 65535.
pub open spec fn parse_halfmove(s: Seq<char>, i: int) -> Result<(u16, int), FenParseError> {
    let j = digits_end(s, i);
    if j >= s.len() {
        Err(FenParseError::UnexpectedEnd)
    } else if j == i {
        Err(FenParseError::EmptyHalfmove)
    } else if decimal_value(s.subrange(i, j)) > 0xFFFF {
        Err(FenParseError::InvalidHalfmove)
    } else {
        Ok((decimal_value(s.subrange(i, j)) as u16, j))
    }
}

/// Reads the fullmove number at index `i`: a run of digits worth at most
/// 65535. What follows it is not read.
pub open spec fn parse_fullmove(s: Seq<char>, i: int) -> Result<u16, FenParseError> {
    let j = digits_end(s, i);
    if j == i {
        Err(FenParseError::EmptyFullmove)
    } else if decimal_value(s.subrange(i, j)) > 0xFFFF {
        Err(FenParseError::InvalidFullmove)
    } else {
        Ok(decimal_value(s.subrange(i, j)) as u16)
    }
}

/// The position that a text in Forsyth-Edwards notation stands for, or the
/// first reason why it stands for none.
pub open spec fn parse_fen(s: Seq<char>) -> Result<PositionModel, FenParseError> {
    match parse_placement(s, 0, 7, 0, empty_board()) {
        Err(e) => Err(e),
        Ok((board, i1)) => match expect(s, i1, ' ') {
            Err(e) => Err(e),
            Ok(i2) => match parse_side(s, i2) {
                Err(e) => Err(e),
                Ok((side, i3)) => match expect(s, i3, ' ') {
                    Err(e) => Err(e),
                    Ok(i4) => match parse_castle(s, i4) {
                        Err(e) => Err(e),
                        Ok((castle, i5)) => match expect(s, i5, ' ') {
                            Err(e) => Err(e),
                            Ok(i6) => match parse_en_passant(s, i6) {
                                Err(e) => Err(e),
                                Ok((ep, i7)) => match expect(s, i7, ' ') {
                                    Err(e) => Err(e),
                                    Ok(i8) => match parse_halfmove(s, i8) {
                                        Err(e) => Err(e),
                                        Ok((halfmove, i9)) => match expect(s, i9, ' ') {
                                            Err(e) => Err(e),
                                            Ok(i10) => match parse_fullmove(s, i10) {
                                                Err(e) => Err(e),
                                                Ok(fullmove) => Ok(
                                                    PositionModel {
                                                        board,
                                                        side,
                                                        castle,
                                                        ep,
                                                        halfmove,
                                                        fullmove,
                                                        history: Seq::empty(),
                                                    },
                                                ),
                                            },
                                        },
                                    },
                                },
                            },
                        },
                    },
                },
            },
        },
    }
}

/// The text of the squares of a rank from the given file on, when
/// `empties` empty squares before it are not yet written: a letter for each
/// piece, a digit for each run of empty squares.
pub open spec fn row_text(board: Seq<Option<Piece>>, rank: int, file: int, empties: int) -> Seq<char>
    decreases 8 - file,
{
    let run = if empties != 0 {
        seq![digit_char(empties)]
    } else {
        Seq::<char>::empty()
    };
    if file >= 8 {
        run
    } else {
        match board[rank * 8 + file] {
            Some(p) => run + seq![p.letter()] + row_text(board, rank, file + 1, 0),
            None => row_text(board, rank, file + 1, empties + 1),
        }
    }
}

/// The text of the ranks from the given one down to the first, parted by `/`.
pub open spec fn placement_text(board: Seq<Option<Piece>>, rank: int) -> Seq<char>
    decreases rank + 1,
{
    if rank < 0 {
        Seq::<char>::empty()
    } else if rank == 0 {
        row_text(board, 0, 0, 0)
    } else {
        row_text(board, rank, 0, 0) + seq!['/'] + placement_text(board, rank - 1)
    }
}

/// The text of the castling rights: the flags that are set, in the order
/// `KQkq`; `-` where none is set.
pub open spec fn castle_text(castle: CastleStatus) -> Seq<char> {
    if castle == no_castle() {
        seq!['-']
    } else {
        (if castle.white_kingside {
            seq!['K']
        } else {
            Seq::<char>::empty()
        }) + (if castle.white_queenside {
            seq!['Q']
        } else {
            Seq::<char>::empty()
        }) + (if castle.black_kingside {
            seq!['k']
        } else {
            Seq::<char>::empty()
        }) + (if castle.black_queenside {
            seq!['q']
        } else {
            Seq::<char>::empty()
        })
    }
}

/// The text of the en-passant square: `-` where there is none.
pub open spec fn en_passant_text(ep: Option<Square>) -> Seq<char> {
    match ep {
        Some(sq) => seq![File::char_of(sq.file_idx()), Rank::char_of(sq.rank_idx())],
        None => seq!['-'],
    }
}

/// The text of a position in Forsyth-Edwards notation.
pub open spec fn fen_text(m: PositionModel) -> Seq<char> {
    placement_text(m.board, 7) + seq![' '] + seq![
        if m.side == Color::White {
            'w'
        } else {
            'b'
        },
    ] + seq![' '] + castle_text(m.castle) + seq![' '] + en_passant_text(m.ep) + seq![' ']
        + decimal(m.halfmove as nat) + seq![' '] + decimal(m.fullmove as nat)
}

/// The kind of the piece that starts on the given file of the back rank.
pub open spec fn back_rank_kind(file: int) -> PieceKind {
    if file == 0 || file == 7 {
        PieceKind::Rook
    } else if file == 1 || file == 6 {
        PieceKind::Knight
    } else if file == 2 || file == 5 {
        PieceKind::Bishop
    } else if file == 3 {
        PieceKind::Queen
    } else {
        PieceKind::King
    }
}

/// What stands on square `i` at the start of a game.
pub open spec fn start_content(i: int) -> Option<Piece> {
    if i / 8 == 0 {
        Some(Piece { color: Color::White, kind: back_rank_kind(i % 8) })
    } else if i / 8 == 1 {
        Some(Piece { color: Color::White, kind: PieceKind::Pawn })
    } else if i / 8 == 6 {
        Some(Piece { color: Color::Black, kind: PieceKind::Pawn })
    } else if i / 8 == 7 {
        Some(Piece { color: Color::Black, kind: back_rank_kind(i % 8) })
    } else {
        None
    }
}

/// The position at the start of a game: White to move, all castling rights,
/// no en-passant square, move number one.
pub open spec fn start_model() -> PositionModel {
    PositionModel {
        board: Seq::new(64, |i: int| start_content(i)),
        side: Color::White,
        castle: CastleStatus {
            white_kingside: true,
            white_queenside: true,
            black_kingside: true,
            black_queenside: true,
        },
        ep: None,
        halfmove: 0,
        fullmove: 1,
        history: Seq::empty(),
    }
}

/// Reads the character `expected` at index `i`.
fn eat(chars: &Vec<char>, i: usize, expected: char) -> (r: Result<usize, FenParseError>)
    ensures
        match r {
            Ok(j) => expect(chars@, i as int, expected) == Ok::<int, FenParseError>(j as int),
            Err(e) => expect(chars@, i as int, expected) == Err::<int, FenParseError>(e),
        },
{
    if i < chars.len() {
        let c = chars[i];
        if c == expected {
            Ok(i + 1)
        } else {
            Err(FenParseError::UnexpectedChar(c))
        }
    } else {
        Err(FenParseError::UnexpectedEnd)
    }
}

/// Reads the piece placement into an empty position.
fn read_placement(chars: &Vec<char>, pos: &mut Position) -> (r: Result<usize, FenParseError>)
    requires
        old(pos).wf(),
        old(pos)@.board =~= empty_board(),
    ensures
        final(pos).wf(),
        match r {
            Ok(j) => parse_placement(chars@, 0, 7, 0, empty_board()) == Ok::<
                (Seq<Option<Piece>>, int),
                FenParseError,
            >((final(pos)@.board, j as int)) && final(pos)@ == (PositionModel {
                board: final(pos)@.board,
                ..old(pos)@
            }),
            Err(e) => parse_placement(chars@, 0, 7, 0, empty_board()) == Err::<
                (Seq<Option<Piece>>, int),
                FenParseError,
            >(e),
        },
{
    let ghost start = pos@;
    let ghost goal = parse_placement(chars@, 0, 7, 0, empty_board());
    let mut i: usize = 0;
    let mut rank: u8 = 7;
    let mut file: u8 = 0;
    loop
        invariant
            pos.wf(),
            i <= chars.len(),
            rank <= 7,
            file <= 8,
            start == old(pos)@,
            pos@ == (PositionModel { board: pos@.board, ..start }),
            pos@.board.len() == 64,
            goal == parse_placement(chars@, 0, 7, 0, empty_board()),
            parse_placement(chars@, i as int, rank as int, file as int, pos@.board) == goal,
            forall|j: int|
                0 <= j < 64 && (j / 8 < rank || (j / 8 == rank && j % 8 >= file))
                    ==> (#[trigger] pos@.board[j]).is_none(),
        decreases chars.len() - i,
    {
        proof {
            pos.lemma_wf_model();
        }
        if file > 7 {
            if rank == 0 {
                return Ok(i);
            }
            if i >= chars.len() {
                return Err(FenParseError::UnexpectedEnd);
            }
            let c = chars[i];
            if c != '/' {
                return Err(FenParseError::UnexpectedChar(c));
            }
            i += 1;
            rank -= 1;
            file = 0;
        } else {
            if i >= chars.len() {
                return Err(FenParseError::UnexpectedEnd);
            }
            let c = chars[i];
            match digit_of(c) {
                Some(value) => {
                    if value < 1 || value > 8 {
                        return Err(FenParseError::InvalidDigit);
                    }
                    if file + value > 8 {
                        return Err(FenParseError::FileDoesNotSumToEight);
                    }
                    file += value;
                    i += 1;
                },
                None => {
                    let piece = match Piece::try_from_char(c) {
                        Ok(piece) => piece,
                        Err(_) => {
                            return Err(FenParseError::UnknownPiece(c));
                        },
                    };
                    let square = Square::of(Rank::new(rank), File::new(file));
                    let ghost before = pos@;
                    assert(before.board[square.idx()].is_none());
                    let added = pos.add_piece(square, piece);
                    assert(added.is_ok());
                    file += 1;
                    i += 1;
                },
            }
        }
    }
}

/// Reads the side to move.
fn read_side(chars: &Vec<char>, i: usize) -> (r: Result<(Color, usize), FenParseError>)
    ensures
        match r {
            Ok((side, j)) => parse_side(chars@, i as int) == Ok::<(Color, int), FenParseError>(
                (side, j as int),
            ),
            Err(e) => parse_side(chars@, i as int) == Err::<(Color, int), FenParseError>(e),
        },
{
    if i >= chars.len() {
        return Err(FenParseError::UnexpectedEnd);
    }
    let c = chars[i];
    if c == 'w' {
        Ok((Color::White, i + 1))
    } else if c == 'b' {
        Ok((Color::Black, i + 1))
    } else {
        Err(FenParseError::InvalidSideToMove)
    }
}

/// Reads the castling rights.
fn read_castle(chars: &Vec<char>, i: usize) -> (r: Result<(CastleStatus, usize), FenParseError>)
    ensures
        match r {
            Ok((status, j)) => parse_castle(chars@, i as int) == Ok::<
                (CastleStatus, int),
                FenParseError,
            >((status, j as int)),
            Err(e) => parse_castle(chars@, i as int) == Err::<(CastleStatus, int), FenParseError>(e),
        },
{
    if i >= chars.len() {
        return Err(FenParseError::UnexpectedEnd);
    }
    if chars[i] == '-' {
        return Ok((CastleStatus::none(), i + 1));
    }
    let ghost goal = parse_castle(chars@, i as int);
    let mut status = CastleStatus::none();
    let mut k: usize = i;
    let mut left: u8 = 4;
    while left > 0
        invariant
            i <= k <= chars.len(),
            left <= 4,
            goal == parse_castle(chars@, i as int),
            parse_castle_flags(chars@, k as int, left as int, status) == goal,
        decreases left,
    {
        if k >= chars.len() {
            return Err(FenParseError::UnexpectedEnd);
        }
        let c = chars[k];
        if c == 'K' {
            status = status.with_kingside(Color::White, true);
        } else if c == 'k' {
            status = status.with_kingside(Color::Black, true);
        } else if c == 'Q' {
            status = status.with_queenside(Color::White, true);
        } else if c == 'q' {
            status = status.with_queenside(Color::Black, true);
        } else if c == ' ' {
            return Ok((status, k));
        } else {
            return Err(FenParseError::InvalidCastle);
        }
        k += 1;
        left -= 1;
    }
    Ok((status, k))
}

/// Reads the en-passant square.
fn read_en_passant(chars: &Vec<char>, i: usize) -> (r: Result<(Option<Square>, usize), FenParseError>)
    ensures
        match r {
            Ok((ep, j)) => parse_en_passant(chars@, i as int) == Ok::<
                (Option<Square>, int),
                FenParseError,
            >((ep, j as int)),
            Err(e) => parse_en_passant(chars@, i as int) == Err::<
                (Option<Square>, int),
                FenParseError,
            >(e),
        },
{
    broadcast use Square::lemma_idx_at;

    if i >= chars.len() {
        return Err(FenParseError::UnexpectedEnd);
    }
    let c = chars[i];
    if c == '-' {
        return Ok((None, i + 1));
    }
    match File::try_from_char(c) {
        Ok(file) => {
            if i + 1 >= chars.len() {
                return Err(FenParseError::UnexpectedEnd);
            }
            match Rank::try_from_char(chars[i + 1]) {
                Ok(rank) => Ok((Some(Square::of(rank, file)), i + 2)),
                Err(_) => Err(FenParseError::InvalidEnPassant),
            }
        },
        Err(_) => Err(FenParseError::InvalidEnPassant),
    }
}

/// Appending a digit to a run of digits multiplies its value by ten and adds the digit.
proof fn lemma_decimal_step(s: Seq<char>, i: int, k: int)
    requires
        0 <= i <= k < s.len(),
    ensures
        decimal_value(s.subrange(i, k + 1)) == decimal_value(s.subrange(i, k)) * 10 + digit_value(
            s[k],
        ) as nat,
{
    let t = s.subrange(i, k + 1);
    assert(t.drop_last() =~= s.subrange(i, k));
    assert(t.last() == s[k]);
}

/// Reads a run of digits: the index behind it and its value, if that fits in sixteen bits.
fn read_number(chars: &Vec<char>, i: usize) -> (r: (usize, Option<u16>))
    requires
        i <= chars.len(),
    ensures
        r.0 == digits_end(chars@, i as int),
        i <= r.0 <= chars.len(),
        r.1.is_some() == (decimal_value(chars@.subrange(i as int, r.0 as int)) <= 0xFFFF),
        r.1.is_some() ==> r.1.unwrap() == decimal_value(chars@.subrange(i as int, r.0 as int)),
{
    let mut k: usize = i;
    let mut value: u32 = 0;
    let mut fits = true;
    assert(chars@.subrange(i as int, i as int) =~= Seq::<char>::empty());
    let mut digit: Option<u8> = if k < chars.len() {
        digit_of(chars[k])
    } else {
        None
    };
    while digit.is_some()
        invariant
            i <= k <= chars.len(),
            digit.is_some() == (k < chars.len() && is_digit(chars@[k as int])),
            digit.is_some() ==> digit.unwrap() == digit_value(chars@[k as int]),
            digits_end(chars@, k as int) == digits_end(chars@, i as int),
            fits ==> value == decimal_value(chars@.subrange(i as int, k as int)) && value
                <= 0xFFFF,
            !fits ==> decimal_value(chars@.subrange(i as int, k as int)) > 0xFFFF,
        decreases chars.len() - k,
    {
        proof {
            lemma_decimal_step(chars@, i as int, k as int);
        }
        if fits {
            value = value * 10 + digit.unwrap() as u32;
            if value > 0xFFFF {
                fits = false;
            }
        }
        k += 1;
        digit = if k < chars.len() {
            digit_of(chars[k])
        } else {
            None
        };
    }
    if fits {
        (k, Some(value as u16))
    } else {
        (k, None)
    }
}

impl Position {
    /// The position at the start of a game.
    pub fn from_start_position() -> (pos: Position)
        ensures
            pos.wf(),
            pos@ == start_model(),
    {
        let mut pos = Position::new();
        let back_rank = [
            PieceKind::Rook,
            PieceKind::Knight,
            PieceKind::Bishop,
            PieceKind::Queen,
            PieceKind::King,
            PieceKind::Bishop,
            PieceKind::Knight,
            PieceKind::Rook,
        ];
        let ghost fresh = pos@;
        let mut file: u8 = 0;
        while file < 8
            invariant
                file <= 8,
                pos.wf(),
                pos@ == (PositionModel { board: pos@.board, ..fresh }),
                pos@.board.len() == 64,
                back_rank@ == seq![
                    PieceKind::Rook,
                    PieceKind::Knight,
                    PieceKind::Bishop,
                    PieceKind::Queen,
                    PieceKind::King,
                    PieceKind::Bishop,
                    PieceKind::Knight,
                    PieceKind::Rook,
                ],
                forall|j: int|
                    0 <= j < 64 ==> #[trigger] pos@.board[j] == if j % 8 < file {
                        start_content(j)
                    } else {
                        None
                    },
            decreases 8 - file,
        {
            let f = File::new(file);
            let kind = back_rank[file as usize];
            let a = pos.add_piece(Square::of(Rank::new(0), f), Piece { color: Color::White, kind });
            let b = pos.add_piece(
                Square::of(Rank::new(1), f),
                Piece { color: Color::White, kind: PieceKind::Pawn },
            );
            let c = pos.add_piece(
                Square::of(Rank::new(6), f),
                Piece { color: Color::Black, kind: PieceKind::Pawn },
            );
            let d = pos.add_piece(Square::of(Rank::new(7), f), Piece { color: Color::Black, kind });
            assert(a.is_ok() && b.is_ok() && c.is_ok() && d.is_ok());
            file += 1;
        }
        pos.set_clocks(0, 1);
        proof {
            assert(pos@.board =~= start_model().board);
            assert(pos@ =~= start_model());
        }
        pos
    }

    /// Reads a position from its text in Forsyth-Edwards notation.
    pub fn from_fen(fen: &str) -> (r: Result<Position, FenParseError>)
        ensures
            match r {
                Ok(pos) => pos.wf() && parse_fen(fen@) == Ok::<PositionModel, FenParseError>(pos@),
                Err(e) => parse_fen(fen@) == Err::<PositionModel, FenParseError>(e),
            },
    {
        let chars = chars_of(fen);
        let mut pos = Position::new();
        pos.set_castle_status(CastleStatus::none());
        let i1 = match read_placement(&chars, &mut pos) {
            Ok(i) => i,
            Err(e) => {
                return Err(e);
            },
        };
        let i2 = match eat(&chars, i1, ' ') {
            Ok(i) => i,
            Err(e) => {
                return Err(e);
            },
        };
        let (side, i3) = match read_side(&chars, i2) {
            Ok(found) => found,
            Err(e) => {
                return Err(e);
            },
        };
        let i4 = match eat(&chars, i3, ' ') {
            Ok(i) => i,
            Err(e) => {
                return Err(e);
            },
        };
        let (castle, i5) = match read_castle(&chars, i4) {
            Ok(found) => found,
            Err(e) => {
                return Err(e);
            },
        };
        let i6 = match eat(&chars, i5, ' ') {
            Ok(i) => i,
            Err(e) => {
                return Err(e);
            },
        };
        let (ep, i7) = match read_en_passant(&chars, i6) {
            Ok(found) => found,
            Err(e) => {
                return Err(e);
            },
        };
        let i8 = match eat(&chars, i7, ' ') {
            Ok(i) => i,
            Err(e) => {
                return Err(e);
            },
        };
        let (i9, halfmove) = read_number(&chars, i8);
        if i9 >= chars.len() {
            return Err(FenParseError::UnexpectedEnd);
        }
        if i9 == i8 {
            return Err(FenParseError::EmptyHalfmove);
        }
        let halfmove = match halfmove {
            Some(value) => value,
            None => {
                return Err(FenParseError::InvalidHalfmove);
            },
        };
        let i10 = match eat(&chars, i9, ' ') {
            Ok(i) => i,
            Err(e) => {
                return Err(e);
            },
        };
        let (i11, fullmove) = read_number(&chars, i10);
        if i11 == i10 {
            return Err(FenParseError::EmptyFullmove);
        }
        let fullmove = match fullmove {
            Some(value) => value,
            None => {
                return Err(FenParseError::InvalidFullmove);
            },
        };
        if side == Color::Black {
            pos.flip_side();
        }
        pos.set_castle_status(castle);
        pos.set_en_passant(ep);
        pos.set_clocks(halfmove, fullmove);
        proof {
            assert(pos@ =~= parse_fen(fen@).unwrap());
        }
        Ok(pos)
    }

    /// Appends the text of one rank of the board.
    fn push_row(&self, out: &mut Vec<char>, rank: Rank)
        requires
            self.wf(),
        ensures
            final(out)@ == old(out)@ + row_text(self@.board, rank.idx(), 0, 0),
    {
        let ghost start = out@;
        let ghost board = self@.board;
        let r = rank.as_u8();
        let mut empties: u8 = 0;
        let mut file: u8 = 0;
        proof {
            self.lemma_wf_model();
        }
        while file < 8
            invariant
                self.wf(),
                board == self@.board,
                board.len() == 64,
                r == rank.idx(),
                r < 8,
                file <= 8,
                empties <= file,
                out@ + row_text(board, r as int, file as int, empties as int) == start
                    + row_text(board, r as int, 0, 0),
            decreases 8 - file,
        {
            let ghost before = out@;
            let square = Square::of(rank, File::new(file));
            match self.piece_at(square) {
                Some(piece) => {
                    if empties != 0 {
                        out.push(char_of_digit(empties));
                    }
                    out.push(piece.to_char());
                    proof {
                        let run = if empties != 0 {
                            seq![digit_char(empties as int)]
                        } else {
                            Seq::<char>::empty()
                        };
                        assert(out@ =~= before + run + seq![piece.letter()]);
                        assert(before + row_text(board, r as int, file as int, empties as int)
                            =~= out@ + row_text(board, r as int, file + 1, 0));
                    }
                    empties = 0;
                },
                None => {
                    empties += 1;
                },
            }
            file += 1;
        }
        let ghost before = out@;
        if empties != 0 {
            out.push(char_of_digit(empties));
        }
        proof {
            assert(out@ =~= before + row_text(board, r as int, 8, empties as int));
        }
    }

    /// Appends the text of the piece placement.
    fn push_placement(&self, out: &mut Vec<char>)
        requires
            self.wf(),
        ensures
            final(out)@ == old(out)@ + placement_text(self@.board, 7),
    {
        let ghost start = out@;
        let ghost board = self@.board;
        let mut rank: u8 = 8;
        while rank > 0
            invariant
                self.wf(),
                board == self@.board,
                rank <= 8,
                out@ + placement_text(board, rank as int - 1) == start + placement_text(board, 7),
            decreases rank,
        {
            rank -= 1;
            let ghost before = out@;
            self.push_row(out, Rank::new(rank));
            if rank != 0 {
                out.push('/');
                assert(before + placement_text(board, rank as int) =~= out@ + placement_text(
                    board,
                    rank as int - 1,
                ));
            } else {
                assert(before + placement_text(board, 0) =~= out@ + placement_text(board, -1));
            }
        }
        assert(out@ =~= start + placement_text(board, 7));
    }

    /// Appends the text of the castling rights.
    fn push_castle(&self, out: &mut Vec<char>)
        ensures
            final(out)@ == old(out)@ + castle_text(self@.castle),
    {
        let ghost start = out@;
        if !self.can_castle_kingside(Color::White) && !self.can_castle_queenside(Color::White)
            && !self.can_castle_kingside(Color::Black) && !self.can_castle_queenside(Color::Black) {
            out.push('-');
            assert(out@ =~= start + castle_text(self@.castle));
            return ;
        }
        if self.can_castle_kingside(Color::White) {
            out.push('K');
        }
        if self.can_castle_queenside(Color::White) {
            out.push('Q');
        }
        if self.can_castle_kingside(Color::Black) {
            out.push('k');
        }
        if self.can_castle_queenside(Color::Black) {
            out.push('q');
        }
        assert(out@ =~= start + castle_text(self@.castle));
    }

    /// Appends the text of the en-passant square.
    fn push_en_passant(&self, out: &mut Vec<char>)
        ensures
            final(out)@ == old(out)@ + en_passant_text(self@.ep),
    {
        let ghost start = out@;
        match self.en_passant_square() {
            Some(square) => {
                out.push(square.file().to_char());
                out.push(square.rank().to_char());
            },
            None => {
                out.push('-');
            },
        }
        assert(out@ =~= start + en_passant_text(self@.ep));
    }

    /// The text of the position in Forsyth-Edwards notation.
    pub fn as_fen(&self) -> (s: String)
        requires
            self.wf(),
        ensures
            s@ == fen_text(self@),
    {
        let mut out: Vec<char> = Vec::new();
        self.push_placement(&mut out);
        out.push(' ');
        match self.side_to_move() {
            Color::White => out.push('w'),
            Color::Black => out.push('b'),
        }
        out.push(' ');
        self.push_castle(&mut out);
        out.push(' ');
        self.push_en_passant(&mut out);
        out.push(' ');
        push_decimal(&mut out, self.halfmove_clock());
        out.push(' ');
        push_decimal(&mut out, self.fullmove_clock());
        assert(out@ =~= fen_text(self@));
        string_of(&out)
    }
}

} // verus!
