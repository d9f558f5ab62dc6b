//! Pictures of the board in text: eight lines for the ranks, from the
//! eighth down to the first, each with a character for every square and the
//! number of the rank behind a bar; a rule; and the letters of the files.

use crate::model::PositionModel;
use crate::position::Position;
use crate::squareset::SquareSet;
use crate::text::string_of;
use crate::types::{File, Rank, Square};
use vstd::prelude::*;

verus! {

/// The squares of a rank from the given file on: each its character between two spaces.
pub open spec fn cells_text(cells: Seq<char>, rank: int, file: int) -> Seq<char>
    decreases 8 - file,
{
    if file >= 8 {
        Seq::<char>::empty()
    } else {
        seq![' ', cells[rank * 8 + file], ' '] + cells_text(cells, rank, file + 1)
    }
}

/// The lines of the ranks from the given one down to the first.
pub open spec fn ranks_text(cells: Seq<char>, rank: int) -> Seq<char>
    decreases rank + 1,
{
    if rank < 0 {
        Seq::<char>::empty()
    } else {
        cells_text(cells, rank, 0) + seq!['|', ' ', Rank::char_of(rank), '\n'] + ranks_text(
            cells,
            rank - 1,
        )
    }
}

/// The rule under the board, from the given file on: three dashes for each file.
pub open spec fn rule_text(file: int) -> Seq<char>
    decreases 8 - file,
{
    if file >= 8 {
        Seq::<char>::empty()
    } else {
        seq!['-', '-', '-'] + rule_text(file + 1)
    }
}

/// The letters of the files from the given one on, each between two spaces.
pub open spec fn files_text(file: int) -> Seq<char>
    decreases 8 - file,
{
    if file >= 8 {
        Seq::<char>::empty()
    } else {
        seq![' ', File::char_of(file), ' '] + files_text(file + 1)
    }
}

/// The picture of a board whose squares show the given characters.
pub open spec fn diagram_text(cells: Seq<char>) -> Seq<char> {
    ranks_text(cells, 7) + (rule_text(0) + seq!['\n'] + (files_text(0) + seq!['\n']))
}

/// The character that shows what stands on square `i`: the letter of the
/// piece, or a dot.
pub open spec fn board_char(m: PositionModel, i: int) -> char {
    match m.piece_on(i) {
        Some(p) => p.letter(),
        None => '.',
    }
}

/// The character that shows whether square `i` is in the set: a one, or a dot.
pub open spec fn member_char(set: SquareSet, i: int) -> char {
    if set.has(i) {
        '1'
    } else {
        '.'
    }
}

/// The picture of a board whose squares show the given characters.
pub fn draw(cells: &Vec<char>) -> (s: String)
    requires
        cells.len() == 64,
    ensures
        s@ == diagram_text(cells@),
{
    let ghost goal = diagram_text(cells@);
    let ghost foot = rule_text(0) + seq!['\n'] + (files_text(0) + seq!['\n']);
    let mut out: Vec<char> = Vec::new();
    let mut above: u8 = 8;
    assert(out@ + (ranks_text(cells@, 7) + foot) =~= goal);
    while above > 0
        invariant
            above <= 8,
            cells.len() == 64,
            goal == out@ + (ranks_text(cells@, above - 1) + foot),
        decreases above,
    {
        let rank = above - 1;
        let ghost below = seq!['|', ' ', Rank::char_of(rank as int), '\n'] + (ranks_text(
            cells@,
            rank - 1,
        ) + foot);
        assert(ranks_text(cells@, rank as int) + foot =~= cells_text(cells@, rank as int, 0)
            + below);
        let mut file: u8 = 0;
        while file < 8
            invariant
                file <= 8,
                rank < 8,
                cells.len() == 64,
                goal == out@ + (cells_text(cells@, rank as int, file as int) + below),
            decreases 8 - file,
        {
            let ghost before = out@;
            let ghost rest = cells_text(cells@, rank as int, file + 1) + below;
            let c = cells[(rank * 8 + file) as usize];
            assert(cells_text(cells@, rank as int, file as int) + below =~= seq![' ', c, ' ']
                + rest);
            out.push(' ');
            out.push(c);
            out.push(' ');
            assert(out@ + rest =~= before + (seq![' ', c, ' '] + rest));
            file += 1;
        }
        let ghost before = out@;
        let ghost rest = ranks_text(cells@, rank - 1) + foot;
        assert(cells_text(cells@, rank as int, 8) + below =~= below);
        out.push('|');
        out.push(' ');
        out.push(Rank::new(rank).to_char());
        out.push('\n');
        assert(out@ + rest =~= before + below);
        above = rank;
    }
    assert(ranks_text(cells@, -1) + foot =~= foot);
    let ghost under = seq!['\n'] + (files_text(0) + seq!['\n']);
    let mut file: u8 = 0;
    assert(foot =~= rule_text(0) + under);
    while file < 8
        invariant
            file <= 8,
            goal == out@ + (rule_text(file as int) + under),
        decreases 8 - file,
    {
        let ghost before = out@;
        let ghost rest = rule_text(file + 1) + under;
        assert(rule_text(file as int) + under =~= seq!['-', '-', '-'] + rest);
        out.push('-');
        out.push('-');
        out.push('-');
        assert(out@ + rest =~= before + (seq!['-', '-', '-'] + rest));
        file += 1;
    }
    let ghost before = out@;
    let ghost last = seq!['\n'];
    assert(rule_text(8) + under =~= seq!['\n'] + (files_text(0) + last));
    out.push('\n');
    assert(out@ + (files_text(0) + last) =~= before + (seq!['\n'] + (files_text(0) + last)));
    let mut file: u8 = 0;
    while file < 8
        invariant
            file <= 8,
            last == seq!['\n'],
            goal == out@ + (files_text(file as int) + last),
        decreases 8 - file,
    {
        let ghost before = out@;
        let ghost rest = files_text(file + 1) + last;
        let c = File::new(file).to_char();
        assert(files_text(file as int) + last =~= seq![' ', c, ' '] + rest);
        out.push(' ');
        out.push(c);
        out.push(' ');
        assert(out@ + rest =~= before + (seq![' ', c, ' '] + rest));
        file += 1;
    }
    let ghost before = out@;
    assert(files_text(8) + last =~= last);
    out.push('\n');
    assert(out@ =~= before + last);
    string_of(&out)
}

impl Position {
    /// The picture of the board: the letter of each piece on its square,
    /// and a dot on each empty square.
    pub fn diagram(&self) -> (s: String)
        requires
            self.wf(),
        ensures
            s@ == diagram_text(Seq::new(64, |i: int| board_char(self@, i))),
    {
        let mut cells: Vec<char> = Vec::new();
        let mut i: u8 = 0;
        while i < 64
            invariant
                i <= 64,
                self.wf(),
                cells.len() == i,
                forall|j: int| 0 <= j < i ==> #[trigger] cells[j] == board_char(self@, j),
            decreases 64 - i,
        {
            let c = match self.piece_at(Square::new(i)) {
                Some(piece) => piece.to_char(),
                None => '.',
            };
            cells.push(c);
            i += 1;
        }
        assert(cells@ =~= Seq::new(64, |i: int| board_char(self@, i)));
        draw(&cells)
    }
}

impl SquareSet {
    /// The picture of the set: a one on each square that is in it, and a
    /// dot on each that is not.
    pub fn diagram(&self) -> (s: String)
        ensures
            s@ == diagram_text(Seq::new(64, |i: int| member_char(*self, i))),
    {
        let mut cells: Vec<char> = Vec::new();
        let mut i: u8 = 0;
        while i < 64
            invariant
                i <= 64,
                cells.len() == i,
                forall|j: int| 0 <= j < i ==> #[trigger] cells[j] == member_char(*self, j),
            decreases 64 - i,
        {
            let c = if self.contains(Square::new(i)) {
                '1'
            } else {
                '.'
            };
            cells.push(c);
            i += 1;
        }
        assert(cells@ =~= Seq::new(64, |i: int| member_char(*self, i)));
        draw(&cells)
    }
}

} // verus!
