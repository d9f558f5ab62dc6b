//! The commands of the Universal Chess Interface that set up a position and
//! start a search, read from their words; and the lines that report a search.

use crate::fen::{parse_fen, start_model, FenParseError};
use crate::model::PositionModel;
use crate::moves::Move;
use crate::notation::uci_move;
use crate::position::Position;
use crate::text::{
    chars_of, decimal, decimal_value, digit_of, is_digit, push_chars, push_text, string_of,
};
use crate::value::Value;
use vstd::prelude::*;

verus! {

/// What the main thread is asked to do.
#[derive(Copy, Clone, Debug, PartialEq, Eq, Structural)]
pub enum Request {
    /// Start the search that was set.
    Search,
    /// Stop the search that is running.
    Stop,
}

/// What bounds the search that a `go` command asks for.
#[derive(Copy, Clone, Debug, PartialEq, Eq, Structural)]
pub struct SearchRequest {
    /// The longest time to search for, in milliseconds.
    pub time_limit: Option<u64>,
    /// The largest number of positions to evaluate.
    pub node_limit: Option<u64>,
    /// The greatest depth to search to.
    pub depth: Option<u32>,
}

/// The words of a `go` command that a number follows.
#[derive(Copy, Clone, Debug, PartialEq, Eq, Structural)]
pub enum GoField {
    WhiteTime,
    BlackTime,
    WhiteIncrement,
    BlackIncrement,
    MovesToGo,
    Depth,
    Nodes,
    MoveTime,
}

/// Why a command could not be carried out.
#[derive(Clone, Debug, PartialEq, Eq)]
pub enum UciError {
    /// The command ended where the number of a field was due.
    ExpectedValue(GoField),
    /// What stood in place of a number.
    InvalidNumber(Vec<char>),
    /// A word that a `go` command does not know.
    UnexpectedToken(Vec<char>),
    /// A word that a `position` command does not know.
    UnknownToken(Vec<char>),
    /// A move that is not legal where it is to be made.
    InvalidMove(Vec<char>),
    /// A position that could not be read.
    InvalidFen(FenParseError),
}

/// Why a command could not be carried out, in specifications.
pub enum UciFault {
    ExpectedValue(GoField),
    InvalidNumber(Seq<char>),
    UnexpectedToken(Seq<char>),
    UnknownToken(Seq<char>),
    InvalidMove(Seq<char>),
    InvalidFen(FenParseError),
}

impl View for UciError {
    type V = UciFault;

    open spec fn view(&self) -> UciFault {
        match *self {
            UciError::ExpectedValue(field) => UciFault::ExpectedValue(field),
            UciError::InvalidNumber(text) => UciFault::InvalidNumber(text@),
            UciError::UnexpectedToken(text) => UciFault::UnexpectedToken(text@),
            UciError::UnknownToken(text) => UciFault::UnknownToken(text@),
            UciError::InvalidMove(text) => UciFault::InvalidMove(text@),
            UciError::InvalidFen(e) => UciFault::InvalidFen(e),
        }
    }
}

/// What a field of a `go` command is: the words after which its number was expected.
pub open spec fn field_text(field: GoField) -> Seq<char> {
    match field {
        GoField::WhiteTime => "duration after wtime"@,
        GoField::BlackTime => "duration after btime"@,
        GoField::WhiteIncrement => "duration after winc"@,
        GoField::BlackIncrement => "duration after binc"@,
        GoField::MovesToGo => "move count after movestogo"@,
        GoField::Depth => "depth after depth"@,
        GoField::Nodes => "node count after nodes"@,
        GoField::MoveTime => "msec count after movetime"@,
    }
}

impl UciFault {
    /// The reason in words.
    pub open spec fn text(self) -> Seq<char> {
        match self {
            UciFault::ExpectedValue(field) => "expected "@ + field_text(field),
            UciFault::InvalidNumber(text) => "invalid number: "@ + text,
            UciFault::UnexpectedToken(text) => "unexpected token: "@ + text,
            UciFault::UnknownToken(text) => "unknown token: "@ + text,
            UciFault::InvalidMove(text) => "invalid move: "@ + text,
            UciFault::InvalidFen(e) => e.text(),
        }
    }
}

impl UciError {
    /// The reason in words, as it is shown after `invalid position command: `
    /// or `invalid go command: `.
    pub fn message(&self) -> (s: String)
        ensures
            s@ == self@.text(),
    {
        let mut out: Vec<char> = Vec::new();
        match self {
            UciError::ExpectedValue(field) => {
                push_text(&mut out, "expected ");
                match field {
                    GoField::WhiteTime => push_text(&mut out, "duration after wtime"),
                    GoField::BlackTime => push_text(&mut out, "duration after btime"),
                    GoField::WhiteIncrement => push_text(&mut out, "duration after winc"),
                    GoField::BlackIncrement => push_text(&mut out, "duration after binc"),
                    GoField::MovesToGo => push_text(&mut out, "move count after movestogo"),
                    GoField::Depth => push_text(&mut out, "depth after depth"),
                    GoField::Nodes => push_text(&mut out, "node count after nodes"),
                    GoField::MoveTime => push_text(&mut out, "msec count after movetime"),
                }
            },
            UciError::InvalidNumber(text) => {
                push_text(&mut out, "invalid number: ");
                push_chars(&mut out, text);
            },
            UciError::UnexpectedToken(text) => {
                push_text(&mut out, "unexpected token: ");
                push_chars(&mut out, text);
            },
            UciError::UnknownToken(text) => {
                push_text(&mut out, "unknown token: ");
                push_chars(&mut out, text);
            },
            UciError::InvalidMove(text) => {
                push_text(&mut out, "invalid move: ");
                push_chars(&mut out, text);
            },
            UciError::InvalidFen(e) => {
                return e.message();
            },
        }
        string_of(&out)
    }
}

/// Whether the character is white space: a blank, a tab, an end of line
/// or another character with the Unicode property of white space.
pub open spec fn is_blank(c: char) -> bool {
    let n = c as u32;
    ||| 0x09 <= n <= 0x0D
    ||| n == 0x20
    ||| n == 0x85
    ||| n == 0xA0
    ||| n == 0x1680
    ||| 0x2000 <= n <= 0x200A
    ||| n == 0x2028
    ||| n == 0x2029
    ||| n == 0x202F
    ||| n == 0x205F
    ||| n == 0x3000
}

/// Whether the character is white space.
pub fn is_white_space(c: char) -> (r: bool)
    ensures
        r == is_blank(c),
{
    let n = c as u32;
    (0x09 <= n && n <= 0x0D) || n == 0x20 || n == 0x85 || n == 0xA0 || n == 0x1680 || (0x2000 <= n
        && n <= 0x200A) || n == 0x2028 || n == 0x2029 || n == 0x202F || n == 0x205F || n == 0x3000
}

/// The text without the `+` that may stand in front of a number.
pub open spec fn unsigned_part(text: Seq<char>) -> Seq<char> {
    if text.len() > 0 && text[0] == '+' {
        text.skip(1)
    } else {
        text
    }
}

/// Whether the text is made of decimal digits.
pub open spec fn all_digits(text: Seq<char>) -> bool {
    forall|i: int| 0 <= i < text.len() ==> is_digit(#[trigger] text[i])
}

/// The number that a text stands for as the standard library reads it: an
/// optional `+`, then decimal digits; none where the text is anything else
/// or the number exceeds `max`.
pub open spec fn number_of(text: Seq<char>, max: nat) -> Option<nat> {
    let digits = unsigned_part(text);
    if digits.len() == 0 || !all_digits(digits) || decimal_value(digits) > max {
        None
    } else {
        Some(decimal_value(digits))
    }
}

/// More digits do not make a number smaller.
proof fn lemma_decimal_grows(s: Seq<char>, k: int)
    requires
        0 <= k <= s.len(),
        all_digits(s),
    ensures
        decimal_value(s.take(k)) <= decimal_value(s),
    decreases s.len() - k,
{
    if k < s.len() {
        lemma_decimal_grows(s, k + 1);
        assert(s.take(k + 1).drop_last() =~= s.take(k));
    } else {
        assert(s.take(k) =~= s);
    }
}

/// Reads a number that does not exceed `max`.
pub fn parse_number(text: &Vec<char>, max: u64) -> (r: Option<u64>)
    ensures
        match r {
            Some(n) => number_of(text@, max as nat) == Some(n as nat),
            None => number_of(text@, max as nat).is_none(),
        },
{
    let start: usize = if text.len() > 0 && text[0] == '+' {
        1
    } else {
        0
    };
    let ghost digits = unsigned_part(text@);
    assert(digits =~= text@.skip(start as int));
    if start >= text.len() {
        return None;
    }
    let mut value: u64 = 0;
    let mut k: usize = start;
    assert(digits.take(0) =~= Seq::<char>::empty());
    while k < text.len()
        invariant
            start <= k <= text.len(),
            start < text.len(),
            start == if text@.len() > 0 && text@[0] == '+' {
                1int
            } else {
                0int
            },
            digits == text@.skip(start as int),
            digits == unsigned_part(text@),
            forall|i: int| 0 <= i < k - start ==> is_digit(#[trigger] digits[i]),
            value == decimal_value(digits.take(k - start)),
            value <= max,
        decreases text.len() - k,
    {
        assert(digits[k - start] == text@[k as int]);
        let d = match digit_of(text[k]) {
            Some(d) => d,
            None => {
                assert(0 <= k - start < digits.len());
                assert(!is_digit(digits[k - start]));
                assert(!all_digits(digits));
                return None;
            },
        };
        proof {
            assert(digits.take(k - start + 1).drop_last() =~= digits.take(k - start));
            assert(digits.take(k - start + 1).last() == text@[k as int]);
        }
        let next: u128 = value as u128 * 10 + d as u128;
        if next > max as u128 {
            proof {
                // The digits so far exceed the bound, whatever follows.
                assert(decimal_value(digits.take(k - start + 1)) == value * 10 + d);
                if all_digits(digits) {
                    lemma_decimal_grows(digits, k - start + 1);
                    assert(decimal_value(digits) > max);
                }
            }
            return None;
        }
        value = next as u64;
        k += 1;
    }
    proof {
        assert(digits.take(k - start) =~= digits);
    }
    Some(value)
}

/// Whether the word is the given one.
pub fn is_word(token: &Vec<char>, word: &str) -> (r: bool)
    ensures
        r == (token@ == word@),
{
    let letters = chars_of(word);
    if letters.len() != token.len() {
        return false;
    }
    let mut k: usize = 0;
    while k < token.len()
        invariant
            k <= token.len(),
            letters.len() == token.len(),
            letters@ == word@,
            forall|i: int| 0 <= i < k ==> token[i] == letters[i],
        decreases token.len() - k,
    {
        if token[k] != letters[k] {
            assert(token@[k as int] != word@[k as int]);
            return false;
        }
        k += 1;
    }
    assert(token@ =~= letters@);
    true
}

/// The word that has been read, if any, as a list of words.
pub open spec fn ended_word(word: Seq<char>) -> Seq<Seq<char>> {
    if word.len() > 0 {
        seq![word]
    } else {
        Seq::empty()
    }
}

/// The words of the text, where `word` holds the characters of a word that
/// stand immediately before it.
pub open spec fn words_after(text: Seq<char>, word: Seq<char>) -> Seq<Seq<char>>
    decreases text.len(),
{
    if text.len() == 0 {
        ended_word(word)
    } else if is_blank(text[0]) {
        ended_word(word) + words_after(text.drop_first(), Seq::empty())
    } else {
        words_after(text.drop_first(), word.push(text[0]))
    }
}

/// The words of a line: its longest runs of characters that are not white space.
pub open spec fn words_of(line: Seq<char>) -> Seq<Seq<char>> {
    words_after(line, Seq::empty())
}

/// The words of a line.
pub fn split_words(line: &str) -> (words: Vec<Vec<char>>)
    ensures
        views(words@) == words_of(line@),
        forall|i: int|
            #![trigger words[i]]
            0 <= i < words.len() ==> words[i].len() > 0 && forall|j: int|
                0 <= j < words[i].len() ==> !is_blank(#[trigger] words[i][j]),
{
    let chars = chars_of(line);
    let mut words: Vec<Vec<char>> = Vec::new();
    let mut word: Vec<char> = Vec::new();
    let mut k: usize = 0;
    assert(chars@.skip(0) =~= chars@);
    assert(views(words@) + words_after(chars@, word@) =~= words_after(chars@, word@));
    while k < chars.len()
        invariant
            k <= chars.len(),
            chars@ == line@,
            forall|j: int| 0 <= j < word.len() ==> !is_blank(#[trigger] word[j]),
            forall|i: int|
                #![trigger words[i]]
                0 <= i < words.len() ==> words[i].len() > 0 && forall|j: int|
                    0 <= j < words[i].len() ==> !is_blank(#[trigger] words[i][j]),
            views(words@) + words_after(chars@.skip(k as int), word@) == words_of(line@),
        decreases chars.len() - k,
    {
        let c = chars[k];
        let ghost rest = chars@.skip(k as int);
        let ghost before = views(words@);
        let ghost prior = word@;
        assert(rest.len() > 0 && rest[0] == c);
        assert(rest.drop_first() =~= chars@.skip(k + 1));
        if is_white_space(c) {
            if word.len() > 0 {
                words.push(word);
                word = Vec::new();
            }
            let ghost tail = words_after(chars@.skip(k + 1), Seq::empty());
            assert(views(words@) =~= before + ended_word(prior));
            assert(word@ =~= Seq::<char>::empty());
            assert((before + ended_word(prior)) + tail =~= before + (ended_word(prior) + tail));
        } else {
            word.push(c);
        }
        k += 1;
    }
    assert(chars@.skip(k as int) =~= Seq::<char>::empty());
    if word.len() > 0 {
        let ghost before = views(words@);
        let ghost ended = word@;
        words.push(word);
        assert(views(words@) =~= before + seq![ended]);
    } else {
        assert(views(words@) + Seq::<Seq<char>>::empty() =~= views(words@));
    }
    words
}

/// The field that a word of a `go` command names, if a number follows it.
pub open spec fn go_field(word: Seq<char>) -> Option<GoField> {
    if word == "wtime"@ {
        Some(GoField::WhiteTime)
    } else if word == "btime"@ {
        Some(GoField::BlackTime)
    } else if word == "winc"@ {
        Some(GoField::WhiteIncrement)
    } else if word == "binc"@ {
        Some(GoField::BlackIncrement)
    } else if word == "movestogo"@ {
        Some(GoField::MovesToGo)
    } else if word == "depth"@ {
        Some(GoField::Depth)
    } else if word == "nodes"@ {
        Some(GoField::Nodes)
    } else if word == "movetime"@ {
        Some(GoField::MoveTime)
    } else {
        None
    }
}

/// The greatest number that the field takes.
pub open spec fn field_max(field: GoField) -> nat {
    if field == GoField::Depth {
        0xFFFF_FFFF
    } else {
        0xFFFF_FFFF_FFFF_FFFF
    }
}

/// The request with the number of a field taken in. The clock of the game
/// is read and left aside.
pub open spec fn with_field(req: SearchRequest, field: GoField, n: nat) -> SearchRequest {
    match field {
        GoField::Depth => SearchRequest { depth: Some(n as u32), ..req },
        GoField::Nodes => SearchRequest { node_limit: Some(n as u64), ..req },
        GoField::MoveTime => SearchRequest { time_limit: Some(n as u64), ..req },
        _ => req,
    }
}

/// The request that the words of a `go` command from word `i` on make of
/// `req`, or the first reason why they make none.
pub open spec fn go_request(words: Seq<Seq<char>>, i: int, req: SearchRequest) -> Result<
    SearchRequest,
    UciFault,
>
    decreases words.len() - i,
{
    if i < 0 || i >= words.len() {
        Ok(req)
    } else {
        let word = words[i];
        match go_field(word) {
            Some(field) => if i + 1 >= words.len() {
                Err(UciFault::ExpectedValue(field))
            } else {
                match number_of(words[i + 1], field_max(field)) {
                    Some(n) => go_request(words, i + 2, with_field(req, field, n)),
                    None => Err(UciFault::InvalidNumber(words[i + 1])),
                }
            },
            None => if word == "searchmoves"@ || word == "ponder"@ || word == "mate"@ {
                go_request(words, i + 1, req)
            } else if word == "infinite"@ {
                go_request(words, i + 1, SearchRequest { time_limit: None, ..req })
            } else {
                Err(UciFault::UnexpectedToken(word))
            },
        }
    }
}

/// The views of the words.
pub open spec fn views(words: Seq<Vec<char>>) -> Seq<Seq<char>> {
    Seq::new(words.len(), |i: int| words[i]@)
}

/// A copy of the characters.
fn copy_chars(text: &Vec<char>) -> (r: Vec<char>)
    ensures
        r@ == text@,
{
    let mut r: Vec<char> = Vec::new();
    let mut k: usize = 0;
    while k < text.len()
        invariant
            k <= text.len(),
            r@ == text@.subrange(0, k as int),
        decreases text.len() - k,
    {
        r.push(text[k]);
        k += 1;
        assert(r@ =~= text@.subrange(0, k as int));
    }
    assert(r@ =~= text@);
    r
}

/// The field that a word of a `go` command names, if a number follows it.
fn field_of(word: &Vec<char>) -> (r: Option<GoField>)
    ensures
        r == go_field(word@),
{
    if is_word(word, "wtime") {
        Some(GoField::WhiteTime)
    } else if is_word(word, "btime") {
        Some(GoField::BlackTime)
    } else if is_word(word, "winc") {
        Some(GoField::WhiteIncrement)
    } else if is_word(word, "binc") {
        Some(GoField::BlackIncrement)
    } else if is_word(word, "movestogo") {
        Some(GoField::MovesToGo)
    } else if is_word(word, "depth") {
        Some(GoField::Depth)
    } else if is_word(word, "nodes") {
        Some(GoField::Nodes)
    } else if is_word(word, "movetime") {
        Some(GoField::MoveTime)
    } else {
        None
    }
}

/// Reads the words that follow `go`: the bounds of the search to start.
pub fn parse_go(args: &Vec<Vec<char>>) -> (r: Result<SearchRequest, UciError>)
    ensures
        go_request(
            views(args@),
            0,
            SearchRequest { time_limit: None, node_limit: None, depth: None },
        ) == match r {
            Ok(req) => Ok::<SearchRequest, UciFault>(req),
            Err(e) => Err::<SearchRequest, UciFault>(e@),
        },
{
    let ghost words = views(args@);
    let ghost goal = go_request(
        words,
        0,
        SearchRequest { time_limit: None, node_limit: None, depth: None },
    );
    let mut req = SearchRequest { time_limit: None, node_limit: None, depth: None };
    let mut i: usize = 0;
    while i < args.len()
        invariant
            i <= args.len(),
            words == views(args@),
            goal == go_request(
                words,
                0,
                SearchRequest { time_limit: None, node_limit: None, depth: None },
            ),
            go_request(words, i as int, req) == goal,
        decreases args.len() - i,
    {
        let word = &args[i];
        assert(words[i as int] == word@);
        match field_of(word) {
            Some(field) => {
                if i + 1 >= args.len() {
                    return Err(UciError::ExpectedValue(field));
                }
                let text = &args[i + 1];
                assert(words[i + 1] == text@);
                let max: u64 = match field {
                    GoField::Depth => 0xFFFF_FFFF,
                    _ => 0xFFFF_FFFF_FFFF_FFFF,
                };
                match parse_number(text, max) {
                    Some(n) => {
                        match field {
                            GoField::Depth => {
                                req.depth = Some(n as u32);
                            },
                            GoField::Nodes => {
                                req.node_limit = Some(n);
                            },
                            GoField::MoveTime => {
                                req.time_limit = Some(n);
                            },
                            _ => {},
                        }
                        i += 2;
                    },
                    None => {
                        return Err(UciError::InvalidNumber(copy_chars(text)));
                    },
                }
            },
            None => {
                if is_word(word, "searchmoves") || is_word(word, "ponder") || is_word(word, "mate") {
                    i += 1;
                } else if is_word(word, "infinite") {
                    req.time_limit = None;
                    i += 1;
                } else {
                    return Err(UciError::UnexpectedToken(copy_chars(word)));
                }
            },
        }
    }
    Ok(req)
}

/// The words from word `i` up to the word `moves`, joined by single spaces.
pub open spec fn joined_fen(words: Seq<Seq<char>>, i: int, so_far: Seq<char>, first: bool) -> Seq<
    char,
>
    decreases words.len() - i,
{
    if i < 0 || i >= words.len() || words[i] == "moves"@ {
        so_far
    } else if first {
        joined_fen(words, i + 1, so_far + words[i], false)
    } else {
        joined_fen(words, i + 1, so_far + seq![' '] + words[i], false)
    }
}

/// The index of the word `moves` from word `i` on, or of the end of the words.
pub open spec fn fen_end(words: Seq<Seq<char>>, i: int) -> int
    decreases words.len() - i,
{
    if i < 0 || i >= words.len() || words[i] == "moves"@ {
        i
    } else {
        fen_end(words, i + 1)
    }
}

/// The position that the moves from word `i` on lead to from `m`, or the
/// first word that names no legal move.
pub open spec fn after_moves(words: Seq<Seq<char>>, i: int, m: PositionModel) -> Result<
    PositionModel,
    UciFault,
>
    decreases words.len() - i,
{
    if i < 0 || i >= words.len() {
        Ok(m)
    } else {
        match uci_move(m, words[i]) {
            Some(mv) => if m.legal(mv) {
                after_moves(words, i + 1, m.after_make(mv))
            } else {
                Err(UciFault::InvalidMove(words[i]))
            },
            None => Err(UciFault::InvalidMove(words[i])),
        }
    }
}

/// The position that the words of a `position` command from word `i` on
/// make of `m`, or the first reason why they make none: `startpos` sets the
/// start position, `fen` the position of the text that follows it, and
/// `moves` makes the moves that follow it, which must be legal.
pub open spec fn position_of(words: Seq<Seq<char>>, i: int, m: PositionModel) -> Result<
    PositionModel,
    UciFault,
>
    decreases words.len() - i,
{
    if i < 0 || i >= words.len() {
        Ok(m)
    } else if words[i] == "startpos"@ {
        position_of(words, i + 1, start_model())
    } else if words[i] == "fen"@ {
        match parse_fen(joined_fen(words, i + 1, Seq::empty(), true)) {
            Ok(parsed) => if i < fen_end(words, i + 1) <= words.len() {
                position_of(words, fen_end(words, i + 1), parsed)
            } else {
                Ok(parsed)
            },
            Err(e) => Err(UciFault::InvalidFen(e)),
        }
    } else if words[i] == "moves"@ {
        after_moves(words, i + 1, m)
    } else {
        Err(UciFault::UnknownToken(words[i]))
    }
}

/// The end of the words of a position lies behind where they begin.
proof fn lemma_fen_end(words: Seq<Seq<char>>, i: int)
    requires
        0 <= i <= words.len(),
    ensures
        i <= fen_end(words, i) <= words.len(),
    decreases words.len() - i,
{
    if i < words.len() && words[i] != "moves"@ {
        lemma_fen_end(words, i + 1);
    }
}

/// Reads the words that follow `position`: the position to search.
pub fn parse_position(args: &Vec<Vec<char>>) -> (r: Result<Position, UciError>)
    ensures
        match r {
            Ok(pos) => pos.wf() && position_of(views(args@), 0, Position::fresh()) == Ok::<
                PositionModel,
                UciFault,
            >(pos@),
            Err(e) => position_of(views(args@), 0, Position::fresh()) == Err::<
                PositionModel,
                UciFault,
            >(e@),
        },
{
    let ghost words = views(args@);
    let ghost goal = position_of(words, 0, Position::fresh());
    let mut position = Position::new();
    let mut i: usize = 0;
    while i < args.len()
        invariant
            i <= args.len(),
            position.wf(),
            words == views(args@),
            goal == position_of(words, 0, Position::fresh()),
            position_of(words, i as int, position@) == goal,
        decreases args.len() - i,
    {
        let word = &args[i];
        assert(words[i as int] == word@);
        if is_word(word, "startpos") {
            position = Position::from_start_position();
            i += 1;
        } else if is_word(word, "fen") {
            // The text of the position runs up to the word `moves`.
            let mut text: Vec<char> = Vec::new();
            let mut j: usize = i + 1;
            let ghost begin = i + 1;
            while j < args.len() && !is_word(&args[j], "moves")
                invariant
                    begin <= j <= args.len(),
                    begin == i + 1,
                    words == views(args@),
                    joined_fen(words, j as int, text@, j == begin) == joined_fen(
                        words,
                        begin as int,
                        Seq::empty(),
                        true,
                    ),
                    fen_end(words, j as int) == fen_end(words, begin as int),
                decreases args.len() - j,
            {
                assert(words[j as int] == args[j as int]@);
                let ghost before = text@;
                if j > i + 1 {
                    text.push(' ');
                }
                let part = &args[j];
                let mut k: usize = 0;
                let ghost base = text@;
                while k < part.len()
                    invariant
                        k <= part.len(),
                        text@ == base + part@.subrange(0, k as int),
                    decreases part.len() - k,
                {
                    text.push(part[k]);
                    k += 1;
                    assert(text@ =~= base + part@.subrange(0, k as int));
                }
                assert(part@.subrange(0, part.len() as int) =~= part@);
                assert(text@ =~= if j == begin {
                    before + part@
                } else {
                    before + seq![' '] + part@
                });
                j += 1;
            }
            proof {
                if j < args.len() {
                    assert(words[j as int] == args[j as int]@);
                }
                lemma_fen_end(words, begin as int);
            }
            let joined = string_of(&text);
            position = match Position::from_fen(joined.as_str()) {
                Ok(parsed) => parsed,
                Err(e) => {
                    return Err(UciError::InvalidFen(e));
                },
            };
            if j <= i {
                return Ok(position);
            }
            i = j;
        } else if is_word(word, "moves") {
            let mut j: usize = i + 1;
            while j < args.len()
                invariant
                    i < j <= args.len(),
                    position.wf(),
                    words == views(args@),
                    goal == position_of(words, 0, Position::fresh()),
                    after_moves(words, j as int, position@) == goal,
                decreases args.len() - j,
            {
                let text = &args[j];
                assert(words[j as int] == text@);
                let spelled = string_of(text);
                let mov = match Move::from_uci(&position, spelled.as_str()) {
                    Some(mov) => mov,
                    None => {
                        return Err(UciError::InvalidMove(copy_chars(text)));
                    },
                };
                if !position.is_legal(mov) {
                    return Err(UciError::InvalidMove(copy_chars(text)));
                }
                proof {
                    position.lemma_wf_model();
                    position@.lemma_pseudo_legal_can_make(mov);
                }
                position.make_move(mov);
                j += 1;
            }
            return Ok(position);
        } else {
            return Err(UciError::UnknownToken(copy_chars(word)));
        }
    }
    Ok(position)
}

/// The number of threads that the value of the option `Threads` asks for:
/// a number from 1 to 32.
pub fn parse_threads(value: &Vec<char>) -> (r: Option<usize>)
    ensures
        match r {
            Some(n) => 1 <= n <= 32 && number_of(value@, 32) == Some(n as nat),
            None => number_of(value@, 32).is_none() || number_of(value@, 32) == Some(0nat),
        },
{
    match parse_number(value, 32) {
        Some(n) => if n >= 1 {
            Some(n as usize)
        } else {
            None
        },
        None => None,
    }
}

/// The text of the moves, parted by single spaces.
pub open spec fn moves_text(moves: Seq<Move>) -> Seq<char>
    decreases moves.len(),
{
    if moves.len() == 0 {
        Seq::empty()
    } else if moves.len() == 1 {
        moves[0].uci_text()
    } else {
        moves_text(moves.drop_last()) + seq![' '] + moves.last().uci_text()
    }
}

/// The text of a line that reports a depth of a search.
pub open spec fn info_text(depth: u32, nodes: u64, nps: u64, pv: Seq<Move>, score: Value) -> Seq<
    char,
> {
    "info depth "@ + decimal(depth as nat) + " nodes "@ + decimal(nodes as nat) + " nps "@
        + decimal(nps as nat) + " pv "@ + moves_text(pv) + " score "@ + score.uci_text()
}

/// Appends the decimal digits of a number.
fn push_number(out: &mut Vec<char>, n: u64)
    ensures
        final(out)@ == old(out)@ + decimal(n as nat),
    decreases n,
{
    if n < 10 {
        out.push(crate::text::char_of_digit(n as u8));
        assert(decimal(n as nat) =~= seq![crate::text::digit_char(n as int)]);
    } else {
        let ghost start = out@;
        push_number(out, n / 10);
        out.push(crate::text::char_of_digit((n % 10) as u8));
        assert(out@ =~= start + decimal(n as nat));
    }
}

/// The line that reports a depth of a search: how deep, how many
/// positions, how many of them in a second, the line of play and its score.
pub fn info_line(depth: u32, nodes: u64, nps: u64, pv: &Vec<Move>, score: Value) -> (line: String)
    ensures
        line@ == info_text(depth, nodes, nps, pv@, score),
{
    let mut out: Vec<char> = Vec::new();
    push_text(&mut out, "info depth ");
    push_number(&mut out, depth as u64);
    push_text(&mut out, " nodes ");
    push_number(&mut out, nodes);
    push_text(&mut out, " nps ");
    push_number(&mut out, nps);
    push_text(&mut out, " pv ");
    let ghost before = out@;
    let mut k: usize = 0;
    assert(pv@.take(0) =~= Seq::<Move>::empty());
    while k < pv.len()
        invariant
            k <= pv.len(),
            out@ == before + moves_text(pv@.take(k as int)),
        decreases pv.len() - k,
    {
        if k > 0 {
            out.push(' ');
        }
        let text = pv[k].as_uci();
        push_text(&mut out, text.as_str());
        proof {
            assert(pv@.take(k + 1).drop_last() =~= pv@.take(k as int));
            assert(pv@.take(k + 1).last() == pv@[k as int]);
            if k == 0 {
                assert(pv@.take(1)[0] == pv@[0]);
            }
            assert(out@ =~= before + moves_text(pv@.take(k + 1)));
        }
        k += 1;
    }
    assert(pv@.take(k as int) =~= pv@);
    push_text(&mut out, " score ");
    let text = score.as_uci();
    push_text(&mut out, text.as_str());
    assert(out@ =~= info_text(depth, nodes, nps, pv@, score));
    string_of(&out)
}

/// The line that names the move to play.
pub fn bestmove_line(mov: Move) -> (line: String)
    ensures
        line@ == "bestmove "@ + mov.uci_text(),
{
    let mut out: Vec<char> = Vec::new();
    push_text(&mut out, "bestmove ");
    let text = mov.as_uci();
    push_text(&mut out, text.as_str());
    string_of(&out)
}

/// The commands of the interface.
#[derive(Copy, Clone, Debug, PartialEq, Eq, Structural)]
pub enum Command {
    /// `uci`: asks the engine to name itself and its options.
    Uci,
    /// `debug on` or `debug off`: nothing is done.
    Debug,
    /// `isready`: asks whether the engine is ready.
    IsReady,
    /// `ucinewgame`: a new game begins.
    NewGame,
    /// `position`, with words that name the position.
    Position,
    /// `go`, with words that bound the search.
    Go,
    /// `stop`: ends the search.
    Stop,
    /// `quit`: ends the engine.
    Quit,
    /// `setoption name <name> value <value>`.
    SetOption,
    /// `table`, with the words of a position: shows what the table holds for it.
    Table,
    /// Anything else.
    Unrecognized,
}

/// The command that the words of a line make. The first word names it;
/// `position`, `go` and `table` take any words behind it, `debug` one,
/// `setoption` four, and the others none.
pub open spec fn command_of(words: Seq<Seq<char>>) -> Command {
    if words.len() == 0 {
        Command::Unrecognized
    } else if words[0] == "uci"@ && words.len() == 1 {
        Command::Uci
    } else if words[0] == "debug"@ && words.len() == 2 && (words[1] == "on"@ || words[1]
        == "off"@) {
        Command::Debug
    } else if words[0] == "isready"@ && words.len() == 1 {
        Command::IsReady
    } else if words[0] == "ucinewgame"@ && words.len() == 1 {
        Command::NewGame
    } else if words[0] == "position"@ {
        Command::Position
    } else if words[0] == "go"@ {
        Command::Go
    } else if words[0] == "stop"@ && words.len() == 1 {
        Command::Stop
    } else if words[0] == "quit"@ && words.len() == 1 {
        Command::Quit
    } else if words[0] == "setoption"@ && words.len() == 5 && words[1] == "name"@ && words[3]
        == "value"@ {
        Command::SetOption
    } else if words[0] == "table"@ {
        Command::Table
    } else {
        Command::Unrecognized
    }
}

/// The command that the words of a line make.
pub fn read_command(words: &Vec<Vec<char>>) -> (c: Command)
    ensures
        c == command_of(views(words@)),
{
    let n = words.len();
    if n == 0 {
        return Command::Unrecognized;
    }
    let name = &words[0];
    assert(views(words@)[0] == name@);
    if is_word(name, "uci") && n == 1 {
        Command::Uci
    } else if is_word(name, "debug") && n == 2 && (is_word(&words[1], "on") || is_word(
        &words[1],
        "off",
    )) {
        assert(views(words@)[1] == words[1]@);
        Command::Debug
    } else if is_word(name, "isready") && n == 1 {
        Command::IsReady
    } else if is_word(name, "ucinewgame") && n == 1 {
        Command::NewGame
    } else if is_word(name, "position") {
        Command::Position
    } else if is_word(name, "go") {
        Command::Go
    } else if is_word(name, "stop") && n == 1 {
        Command::Stop
    } else if is_word(name, "quit") && n == 1 {
        Command::Quit
    } else if is_word(name, "setoption") && n == 5 && is_word(&words[1], "name") && is_word(
        &words[3],
        "value",
    ) {
        assert(views(words@)[1] == words[1]@);
        assert(views(words@)[3] == words[3]@);
        Command::SetOption
    } else if is_word(name, "table") {
        Command::Table
    } else {
        proof {
            if n >= 2 {
                assert(views(words@)[1] == words[1]@);
            }
            if n >= 4 {
                assert(views(words@)[3] == words[3]@);
            }
        }
        Command::Unrecognized
    }
}

} // verus!
