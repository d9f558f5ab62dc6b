//! Writing a position in Forsyth-Edwards notation and reading the text
//! again gives the position back: its placement, side to move, castling
//! rights, en-passant square and clocks.

use crate::fen::{
    castle_text, digits_end, empty_board, en_passant_text, fen_text, no_castle, parse_castle,
    parse_castle_flags, parse_en_passant, parse_fen, parse_fullmove, parse_halfmove,
    parse_placement, placement_text, row_text, FenParseError,
};
use crate::model::PositionModel;
use crate::text::{decimal, decimal_value, digit_char, digit_value, is_digit, lemma_decimal_round_trip};
use crate::types::{CastleStatus, Color, File, Piece, Rank, Square};
use vstd::prelude::*;

verus! {

/// Whether the text `s` holds the text `t` from index `i` on.
pub open spec fn has_at(s: Seq<char>, i: int, t: Seq<char>) -> bool {
    &&& 0 <= i
    &&& i + t.len() <= s.len()
    &&& forall|k: int| 0 <= k < t.len() ==> s[i + k] == #[trigger] t[k]
}

/// A text that holds two texts one after the other holds each of them.
pub proof fn lemma_has_at_parts(s: Seq<char>, i: int, a: Seq<char>, b: Seq<char>)
    requires
        has_at(s, i, a + b),
    ensures
        has_at(s, i, a),
        has_at(s, i + a.len(), b),
{
    assert forall|k: int| 0 <= k < a.len() implies s[i + k] == #[trigger] a[k] by {
        assert((a + b)[k] == a[k]);
    }
    assert forall|k: int| 0 <= k < b.len() implies s[i + a.len() + k] == #[trigger] b[k] by {
        assert((a + b)[a.len() + k] == b[k]);
    }
}

/// A run of digits ends where the text ends or another character stands.
pub proof fn lemma_digits_end(s: Seq<char>, i: int, j: int)
    requires
        0 <= i <= j <= s.len(),
        forall|k: int| i <= k < j ==> is_digit(#[trigger] s[k]),
        j == s.len() || !is_digit(s[j]),
    ensures
        digits_end(s, i) == j,
    decreases j - i,
{
    if i < j {
        lemma_digits_end(s, i + 1, j);
    }
}

/// Where a text holds the decimal digits of a number and no digit behind
/// them, the run of digits is the number's.
pub proof fn lemma_number_at(s: Seq<char>, i: int, n: nat)
    requires
        has_at(s, i, decimal(n)),
        i + decimal(n).len() == s.len() || !is_digit(s[i + decimal(n).len()]),
    ensures
        digits_end(s, i) == i + decimal(n).len(),
        digits_end(s, i) > i,
        decimal_value(s.subrange(i, digits_end(s, i))) == n,
{
    let t = decimal(n);
    lemma_decimal_round_trip(n);
    let j = i + t.len();
    assert forall|k: int| i <= k < j implies is_digit(#[trigger] s[k]) by {
        assert(s[i + (k - i)] == t[k - i]);
    }
    lemma_digits_end(s, i, j);
    assert(s.subrange(i, j) =~= t);
}

/// Where a text holds the text of castling rights and a space behind it,
/// reading the rights there gives them back.
pub proof fn lemma_castle_at(s: Seq<char>, i: int, castle: CastleStatus)
    requires
        has_at(s, i, castle_text(castle)),
        i + castle_text(castle).len() < s.len(),
        s[i + castle_text(castle).len()] == ' ',
    ensures
        parse_castle(s, i) == Ok::<(CastleStatus, int), FenParseError>(
            (castle, i + castle_text(castle).len()),
        ),
{
    reveal_with_fuel(parse_castle_flags, 5);
    let t = castle_text(castle);
    let wk = if castle.white_kingside {
        seq!['K']
    } else {
        Seq::<char>::empty()
    };
    let wq = if castle.white_queenside {
        seq!['Q']
    } else {
        Seq::<char>::empty()
    };
    let bk = if castle.black_kingside {
        seq!['k']
    } else {
        Seq::<char>::empty()
    };
    let bq = if castle.black_queenside {
        seq!['q']
    } else {
        Seq::<char>::empty()
    };
    if castle == no_castle() {
        assert(t[0] == '-');
        assert(s[i + 0] == t[0]);
    } else {
        assert(t == wk + wq + bk + bq);
        lemma_has_at_parts(s, i, wk + wq + bk, bq);
        lemma_has_at_parts(s, i, wk + wq, bk);
        lemma_has_at_parts(s, i, wk, wq);
        let i1 = i + wk.len();
        let i2 = i1 + wq.len();
        let i3 = i2 + bk.len();
        let i4 = i3 + bq.len();
        if castle.white_kingside {
            assert(s[i + 0] == wk[0]);
        }
        if castle.white_queenside {
            assert(s[i1 + 0] == wq[0]);
        }
        if castle.black_kingside {
            assert(s[i2 + 0] == bk[0]);
        }
        if castle.black_queenside {
            assert(s[i3 + 0] == bq[0]);
        }
        let st1 = if castle.white_kingside {
            no_castle().set_kingside(Color::White, true)
        } else {
            no_castle()
        };
        let st2 = if castle.white_queenside {
            st1.set_queenside(Color::White, true)
        } else {
            st1
        };
        let st3 = if castle.black_kingside {
            st2.set_kingside(Color::Black, true)
        } else {
            st2
        };
        let st4 = if castle.black_queenside {
            st3.set_queenside(Color::Black, true)
        } else {
            st3
        };
        assert(st4 == castle);
        let n1 = 4 - wk.len();
        let n2 = n1 - wq.len();
        let n3 = n2 - bk.len();
        let n4 = n3 - bq.len();
        let done = Ok::<(CastleStatus, int), FenParseError>((castle, i4));
        assert(i4 == i + t.len());
        assert(parse_castle_flags(s, i4, n4, st4) == done);
        assert(parse_castle_flags(s, i3, n3, st3) == done);
        assert(parse_castle_flags(s, i2, n2, st2) == done);
        assert(parse_castle_flags(s, i1, n1, st1) == done);
        assert(parse_castle_flags(s, i, 4, no_castle()) == done);
        assert(s[i] != '-');
    }
}

/// Where a text holds the text of an en-passant square, reading the square
/// there gives it back.
pub proof fn lemma_en_passant_at(s: Seq<char>, i: int, ep: Option<Square>)
    requires
        has_at(s, i, en_passant_text(ep)),
        ep.is_some() ==> 0 <= ep.unwrap().idx() < 64,
    ensures
        parse_en_passant(s, i) == Ok::<(Option<Square>, int), FenParseError>(
            (ep, i + en_passant_text(ep).len()),
        ),
{
    let t = en_passant_text(ep);
    assert(s[i + 0] == t[0]);
    if ep.is_some() {
        let sq = ep.unwrap();
        assert(s[i + 1] == t[1]);
        Square::lemma_idx_at(sq);
        assert(File::of_char(File::char_of(sq.file_idx())) == Some(sq.file_idx()));
        assert(Rank::of_char(Rank::char_of(sq.rank_idx())) == Some(sq.rank_idx()));
        assert(File::char_of(sq.file_idx()) != '-');
    }
}

/// How many squares of the rank, from the given file on, are empty before
/// the first piece or the end of the rank.
pub open spec fn empty_run(board: Seq<Option<Piece>>, rank: int, file: int) -> int
    decreases 8 - file,
{
    if file >= 8 || board[rank * 8 + file].is_some() {
        0
    } else {
        1 + empty_run(board, rank, file + 1)
    }
}

/// The digit that counts a run of empty squares; nothing for no square.
pub open spec fn run_text(empties: int) -> Seq<char> {
    if empties != 0 {
        seq![digit_char(empties)]
    } else {
        Seq::<char>::empty()
    }
}

/// The text of a rank from the piece on the given file on; nothing behind the rank.
pub open spec fn piece_text(board: Seq<Option<Piece>>, rank: int, file: int) -> Seq<char> {
    if file >= 8 {
        Seq::<char>::empty()
    } else {
        seq![board[rank * 8 + file].unwrap().letter()] + row_text(board, rank, file + 1, 0)
    }
}

/// The text of a rank from a file on is the digit for the empty squares
/// there, and then the text from the next piece on.
pub proof fn lemma_row_text(board: Seq<Option<Piece>>, rank: int, file: int, empties: int)
    requires
        0 <= file <= 8,
        0 <= empties,
    ensures
        0 <= empty_run(board, rank, file) <= 8 - file,
        row_text(board, rank, file, empties) == run_text(
            empties + empty_run(board, rank, file),
        ) + piece_text(board, rank, file + empty_run(board, rank, file)),
        file + empty_run(board, rank, file) < 8 ==> board[rank * 8 + file + empty_run(
            board,
            rank,
            file,
        )].is_some(),
        forall|f: int|
            file <= f < file + empty_run(board, rank, file) ==> (#[trigger] board[rank * 8
                + f]).is_none(),
    decreases 8 - file,
{
    let e = empty_run(board, rank, file);
    if file >= 8 {
        assert(row_text(board, rank, file, empties) =~= run_text(empties) + Seq::<char>::empty());
    } else if board[rank * 8 + file].is_some() {
        let p = board[rank * 8 + file].unwrap();
        assert(run_text(empties) + seq![p.letter()] + row_text(board, rank, file + 1, 0)
            =~= run_text(empties) + (seq![p.letter()] + row_text(board, rank, file + 1, 0)));
    } else {
        lemma_row_text(board, rank, file + 1, empties + 1);
        assert forall|f: int| file <= f < file + e implies (#[trigger] board[rank * 8
            + f]).is_none() by {
            if f > file {
                assert(file + 1 <= f < file + 1 + empty_run(board, rank, file + 1));
            }
        }
    }
}

/// The text of the placement from the given rank and file on: the rest of
/// the rank, and the ranks below it.
pub open spec fn rest_text(board: Seq<Option<Piece>>, rank: int, file: int) -> Seq<char> {
    row_text(board, rank, file, 0) + if rank > 0 {
        seq!['/'] + placement_text(board, rank - 1)
    } else {
        Seq::<char>::empty()
    }
}

/// Whether the board `filled` holds what `board` holds on the squares
/// before the given rank and file, in the order of the placement, and
/// nothing on the others.
pub open spec fn filled_up_to(
    filled: Seq<Option<Piece>>,
    board: Seq<Option<Piece>>,
    rank: int,
    file: int,
) -> bool {
    &&& filled.len() == 64
    &&& board.len() == 64
    &&& forall|sq: int|
        0 <= sq < 64 ==> #[trigger] filled[sq] == if sq / 8 > rank || (sq / 8 == rank && sq % 8
            < file) {
            board[sq]
        } else {
            None
        }
}

/// Where a text holds the rest of the text of a placement, reading the
/// rest of the placement there fills the board.
pub proof fn lemma_placement_at(
    s: Seq<char>,
    i: int,
    board: Seq<Option<Piece>>,
    rank: int,
    file: int,
    filled: Seq<Option<Piece>>,
)
    requires
        0 <= rank < 8,
        0 <= file <= 8,
        has_at(s, i, rest_text(board, rank, file)),
        filled_up_to(filled, board, rank, file),
    ensures
        parse_placement(s, i, rank, file, filled) == Ok::<
            (Seq<Option<Piece>>, int),
            FenParseError,
        >((board, i + rest_text(board, rank, file).len())),
    decreases rank, 8 - file,
{
    let text = rest_text(board, rank, file);
    let below = if rank > 0 {
        seq!['/'] + placement_text(board, rank - 1)
    } else {
        Seq::<char>::empty()
    };
    lemma_row_text(board, rank, file, 0);
    let e = empty_run(board, rank, file);
    if file == 8 {
        assert(row_text(board, rank, file, 0) =~= Seq::<char>::empty());
        if rank == 0 {
            assert(text.len() == 0);
            assert(filled =~= board);
        } else {
            assert(text =~= seq!['/'] + placement_text(board, rank - 1));
            assert(s[i + 0] == text[0]);
            lemma_has_at_parts(s, i, seq!['/'], placement_text(board, rank - 1));
            assert(placement_text(board, rank - 1) =~= rest_text(board, rank - 1, 0));
            lemma_placement_at(s, i + 1, board, rank - 1, 0, filled);
        }
    } else if board[rank * 8 + file].is_some() {
        let p = board[rank * 8 + file].unwrap();
        assert(text =~= seq![p.letter()] + rest_text(board, rank, file + 1));
        assert(s[i + 0] == text[0]);
        lemma_has_at_parts(s, i, seq![p.letter()], rest_text(board, rank, file + 1));
        let next = filled.update(rank * 8 + file, Some(p));
        assert(Piece::of_letter(p.letter()) == Some(p));
        assert(!is_digit(p.letter()));
        lemma_placement_at(s, i + 1, board, rank, file + 1, next);
    } else {
        assert(e >= 1);
        let rest = rest_text(board, rank, file + e);
        lemma_row_text(board, rank, file + e, 0);
        assert(piece_text(board, rank, file + e) =~= row_text(board, rank, file + e, 0));
        assert(text =~= seq![digit_char(e)] + rest);
        assert(s[i + 0] == text[0]);
        lemma_has_at_parts(s, i, seq![digit_char(e)], rest);
        assert(is_digit(digit_char(e)) && digit_value(digit_char(e)) == e);
        assert forall|sq: int| 0 <= sq < 64 implies #[trigger] filled[sq] == if sq / 8 > rank || (
        sq / 8 == rank && sq % 8 < file + e) {
            board[sq]
        } else {
            None
        } by {
            if sq / 8 == rank && file <= sq % 8 < file + e {
                assert(board[rank * 8 + sq % 8].is_none());
            }
        }
        lemma_placement_at(s, i + 1, board, rank, file + e, filled);
    }
}

/// A text holds itself from its start on.
pub proof fn lemma_has_at_whole(s: Seq<char>)
    ensures
        has_at(s, 0, s),
{
}

/// The letter of the side to move.
pub open spec fn side_char(side: Color) -> char {
    if side == Color::White {
        'w'
    } else {
        'b'
    }
}

/// Where the side to move starts in the text of a position: behind the
/// placement and a space.
pub open spec fn side_start(m: PositionModel) -> int {
    placement_text(m.board, 7).len() as int + 1
}

/// Where the castling rights start.
pub open spec fn castle_start(m: PositionModel) -> int {
    side_start(m) + 2
}

/// Where the en-passant square starts.
pub open spec fn en_passant_start(m: PositionModel) -> int {
    castle_start(m) + castle_text(m.castle).len() + 1
}

/// Where the halfmove clock starts.
pub open spec fn halfmove_start(m: PositionModel) -> int {
    en_passant_start(m) + en_passant_text(m.ep).len() + 1
}

/// Where the fullmove number starts.
pub open spec fn fullmove_start(m: PositionModel) -> int {
    halfmove_start(m) + decimal(m.halfmove as nat).len() + 1
}

/// The text of a position holds its six fields one after the other, with
/// one space between them.
pub proof fn lemma_fen_layout(m: PositionModel)
    ensures
        has_at(fen_text(m), 0, placement_text(m.board, 7)),
        fen_text(m)[side_start(m) - 1] == ' ',
        fen_text(m)[side_start(m)] == side_char(m.side),
        fen_text(m)[castle_start(m) - 1] == ' ',
        has_at(fen_text(m), castle_start(m), castle_text(m.castle)),
        fen_text(m)[en_passant_start(m) - 1] == ' ',
        has_at(fen_text(m), en_passant_start(m), en_passant_text(m.ep)),
        fen_text(m)[halfmove_start(m) - 1] == ' ',
        has_at(fen_text(m), halfmove_start(m), decimal(m.halfmove as nat)),
        fen_text(m)[fullmove_start(m) - 1] == ' ',
        has_at(fen_text(m), fullmove_start(m), decimal(m.fullmove as nat)),
        fen_text(m).len() == fullmove_start(m) + decimal(m.fullmove as nat).len(),
{
    let s = fen_text(m);
    let space = seq![' '];
    let placement = placement_text(m.board, 7);
    let side = seq![side_char(m.side)];
    let castle = castle_text(m.castle);
    let passant = en_passant_text(m.ep);
    let half = decimal(m.halfmove as nat);
    let full = decimal(m.fullmove as nat);
    let t1 = placement + space;
    let t2 = t1 + side;
    let t3 = t2 + space;
    let t4 = t3 + castle;
    let t5 = t4 + space;
    let t6 = t5 + passant;
    let t7 = t6 + space;
    let t8 = t7 + half;
    let t9 = t8 + space;
    assert(s == t9 + full);
    lemma_has_at_whole(s);
    lemma_has_at_parts(s, 0, t9, full);
    lemma_has_at_parts(s, 0, t8, space);
    lemma_has_at_parts(s, 0, t7, half);
    lemma_has_at_parts(s, 0, t6, space);
    lemma_has_at_parts(s, 0, t5, passant);
    lemma_has_at_parts(s, 0, t4, space);
    lemma_has_at_parts(s, 0, t3, castle);
    lemma_has_at_parts(s, 0, t2, space);
    lemma_has_at_parts(s, 0, t1, side);
    lemma_has_at_parts(s, 0, placement, space);
    assert(s[placement.len() as int + 0] == space[0]);
    assert(s[t1.len() as int + 0] == side[0]);
    assert(s[t2.len() as int + 0] == space[0]);
    assert(s[t4.len() as int + 0] == space[0]);
    assert(s[t6.len() as int + 0] == space[0]);
    assert(s[t8.len() as int + 0] == space[0]);
}

/// Reading the text of a position gives the position back, without its
/// history: the placement, the side to move, the castling rights, the
/// en-passant square and both clocks. So a position that is written and read
/// again has the same Zobrist hash.
pub proof fn lemma_fen_round_trip(m: PositionModel)
    requires
        m.wf(),
        m.ep.is_some() ==> 0 <= m.ep.unwrap().idx() < 64,
    ensures
        parse_fen(fen_text(m)) == Ok::<PositionModel, FenParseError>(
            PositionModel { history: Seq::empty(), ..m },
        ),
        parse_fen(fen_text(m)).unwrap().zobrist() == m.zobrist(),
{
    let s = fen_text(m);
    lemma_fen_layout(m);
    assert(placement_text(m.board, 7) =~= rest_text(m.board, 7, 0));
    lemma_placement_at(s, 0, m.board, 7, 0, empty_board());
    lemma_castle_at(s, castle_start(m), m.castle);
    lemma_en_passant_at(s, en_passant_start(m), m.ep);
    lemma_number_at(s, halfmove_start(m), m.halfmove as nat);
    lemma_number_at(s, fullmove_start(m), m.fullmove as nat);
    assert(parse_halfmove(s, halfmove_start(m)) == Ok::<(u16, int), FenParseError>(
        (m.halfmove, fullmove_start(m) - 1),
    ));
    assert(parse_fullmove(s, fullmove_start(m)) == Ok::<u16, FenParseError>(m.fullmove));
}

} // verus!
