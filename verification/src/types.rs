//! Board geometry: squares, ranks, files, directions, colors and pieces.

use vstd::prelude::*;

verus! {

/// Why a number could not be read as a square.
#[derive(Copy, Clone, Debug, PartialEq, Eq, Structural)]
pub enum SquareParseError {
    OutOfRange(u8),
}

/// Why a number or a character could not be read as a rank.
#[derive(Copy, Clone, Debug, PartialEq, Eq, Structural)]
pub enum RankParseError {
    OutOfRange(u8),
    InvalidChar(char),
}

/// Why a number or a character could not be read as a file.
#[derive(Copy, Clone, Debug, PartialEq, Eq, Structural)]
pub enum FileParseError {
    OutOfRange(u8),
    InvalidChar(char),
}

/// Why a character could not be read as a piece.
#[derive(Copy, Clone, Debug, PartialEq, Eq, Structural)]
pub enum PieceParseError {
    InvalidChar(char),
}

/// A rank (row) of the board, 0 for the first rank up to 7 for the eighth.
#[derive(Copy, Clone, Debug, PartialEq, Eq, Hash, Structural)]
pub struct Rank {
    index: u8,
}

/// A file (column) of the board, 0 for the a-file up to 7 for the h-file.
#[derive(Copy, Clone, Debug, PartialEq, Eq, Hash, Structural)]
pub struct File {
    index: u8,
}

/// A square of the board, numbered `rank * 8 + file` from A1 = 0 to H8 = 63.
#[derive(Copy, Clone, Debug, PartialEq, Eq, Hash, Structural)]
pub struct Square {
    index: u8,
}

/// The indices of the ranks.
pub const RANK_1: u8 = 0;
pub const RANK_2: u8 = 1;
pub const RANK_3: u8 = 2;
pub const RANK_4: u8 = 3;
pub const RANK_5: u8 = 4;
pub const RANK_6: u8 = 5;
pub const RANK_7: u8 = 6;
pub const RANK_8: u8 = 7;

/// The indices of the files.
pub const FILE_A: u8 = 0;
pub const FILE_B: u8 = 1;
pub const FILE_C: u8 = 2;
pub const FILE_D: u8 = 3;
pub const FILE_E: u8 = 4;
pub const FILE_F: u8 = 5;
pub const FILE_G: u8 = 6;
pub const FILE_H: u8 = 7;

/// The indices of the squares.
pub const A1: u8 = 0;
pub const B1: u8 = 1;
pub const C1: u8 = 2;
pub const D1: u8 = 3;
pub const E1: u8 = 4;
pub const F1: u8 = 5;
pub const G1: u8 = 6;
pub const H1: u8 = 7;
pub const A2: u8 = 8;
pub const B2: u8 = 9;
pub const C2: u8 = 10;
pub const D2: u8 = 11;
pub const E2: u8 = 12;
pub const F2: u8 = 13;
pub const G2: u8 = 14;
pub const H2: u8 = 15;
pub const A3: u8 = 16;
pub const B3: u8 = 17;
pub const C3: u8 = 18;
pub const D3: u8 = 19;
pub const E3: u8 = 20;
pub const F3: u8 = 21;
pub const G3: u8 = 22;
pub const H3: u8 = 23;
pub const A4: u8 = 24;
pub const B4: u8 = 25;
pub const C4: u8 = 26;
pub const D4: u8 = 27;
pub const E4: u8 = 28;
pub const F4: u8 = 29;
pub const G4: u8 = 30;
pub const H4: u8 = 31;
pub const A5: u8 = 32;
pub const B5: u8 = 33;
pub const C5: u8 = 34;
pub const D5: u8 = 35;
pub const E5: u8 = 36;
pub const F5: u8 = 37;
pub const G5: u8 = 38;
pub const H5: u8 = 39;
pub const A6: u8 = 40;
pub const B6: u8 = 41;
pub const C6: u8 = 42;
pub const D6: u8 = 43;
pub const E6: u8 = 44;
pub const F6: u8 = 45;
pub const G6: u8 = 46;
pub const H6: u8 = 47;
pub const A7: u8 = 48;
pub const B7: u8 = 49;
pub const C7: u8 = 50;
pub const D7: u8 = 51;
pub const E7: u8 = 52;
pub const F7: u8 = 53;
pub const G7: u8 = 54;
pub const H7: u8 = 55;
pub const A8: u8 = 56;
pub const B8: u8 = 57;
pub const C8: u8 = 58;
pub const D8: u8 = 59;
pub const E8: u8 = 60;
pub const F8: u8 = 61;
pub const G8: u8 = 62;
pub const H8: u8 = 63;

impl Rank {
    /// Every rank or file has an index below eight.
    #[verifier::type_invariant]
    pub open spec fn on_board(self) -> bool {
        0 <= self.idx() < 8
    }

    /// The index of this rank, as a mathematical integer.
    pub closed spec fn idx(self) -> int {
        self.index as int
    }

    /// The rank with the given index, in specifications.
    pub closed spec fn at(i: int) -> Rank {
        Rank { index: i as u8 }
    }

    /// The one with index `i` has index `i`.
    pub broadcast proof fn lemma_at_idx(i: int)
        requires
            0 <= i < 8,
        ensures
            #[trigger] Rank::at(i).idx() == i,
    {
    }

    /// Two with the same index are the same.
    pub proof fn lemma_idx_injective(a: Rank, b: Rank)
        requires
            a.idx() == b.idx(),
        ensures
            a == b,
    {
    }

    /// The rank with the given index.
    pub fn new(index: u8) -> (r: Rank)
        requires
            index < 8,
        ensures
            r.idx() == index,
            r == Rank::at(index as int),
    {
        Rank { index }
    }

    /// The rank with the given index, if there is one.
    pub fn try_from_u8(value: u8) -> (r: Result<Rank, RankParseError>)
        ensures
            value < 8 ==> r == Ok::<Rank, RankParseError>(Rank::at(value as int)),
            value >= 8 ==> r == Err::<Rank, RankParseError>(RankParseError::OutOfRange(value)),
    {
        if value >= 8 {
            return Err(RankParseError::OutOfRange(value));
        }
        Ok(Rank { index: value })
    }

    /// The character `'1'` to `'8'` of the rank with the given index.
    pub open spec fn char_of(i: int) -> char {
        if i == 0 {
            '1'
        } else if i == 1 {
            '2'
        } else if i == 2 {
            '3'
        } else if i == 3 {
            '4'
        } else if i == 4 {
            '5'
        } else if i == 5 {
            '6'
        } else if i == 6 {
            '7'
        } else {
            '8'
        }
    }

    /// The index of the rank that a character names, if it names one.
    pub open spec fn of_char(c: char) -> Option<int> {
        if c == '1' {
            Some(0)
        } else if c == '2' {
            Some(1)
        } else if c == '3' {
            Some(2)
        } else if c == '4' {
            Some(3)
        } else if c == '5' {
            Some(4)
        } else if c == '6' {
            Some(5)
        } else if c == '7' {
            Some(6)
        } else if c == '8' {
            Some(7)
        } else {
            None
        }
    }

    /// The rank that a character names: `'1'` for the first rank up to `'8'`.
    pub fn try_from_char(value: char) -> (r: Result<Rank, RankParseError>)
        ensures
            r.is_ok() == Rank::of_char(value).is_some(),
            r.is_ok() ==> r.unwrap().idx() == Rank::of_char(value).unwrap(),
            match r {
                Ok(rank) => 0 <= rank.idx() < 8 && Rank::char_of(rank.idx()) == value,
                Err(e) => e == RankParseError::InvalidChar(value) && forall|i: int|
                    0 <= i < 8 ==> Rank::char_of(i) != value,
            },
    {
        let index: u8 = match value {
            '1' => 0,
            '2' => 1,
            '3' => 2,
            '4' => 3,
            '5' => 4,
            '6' => 5,
            '7' => 6,
            '8' => 7,
            _ => {
                return Err(RankParseError::InvalidChar(value));
            },
        };
        Ok(Rank { index })
    }

    /// The index of this rank, between 0 and 7.
    pub fn as_u8(self) -> (r: u8)
        ensures
            r == self.idx(),
            r < 8,
    {
        proof {
            use_type_invariant(&self);
        }
        self.index
    }

    /// The character that names this rank.
    pub fn to_char(self) -> (c: char)
        ensures
            c == Rank::char_of(self.idx()),
    {
        proof {
            use_type_invariant(&self);
        }
        match self.index {
            0 => '1',
            1 => '2',
            2 => '3',
            3 => '4',
            4 => '5',
            5 => '6',
            6 => '7',
            _ => '8',
        }
    }
}

impl File {
    /// Every rank or file has an index below eight.
    #[verifier::type_invariant]
    pub open spec fn on_board(self) -> bool {
        0 <= self.idx() < 8
    }

    /// The index of this file, as a mathematical integer.
    pub closed spec fn idx(self) -> int {
        self.index as int
    }

    /// The file with the given index, in specifications.
    pub closed spec fn at(i: int) -> File {
        File { index: i as u8 }
    }

    /// The one with index `i` has index `i`.
    pub broadcast proof fn lemma_at_idx(i: int)
        requires
            0 <= i < 8,
        ensures
            #[trigger] File::at(i).idx() == i,
    {
    }

    /// Two with the same index are the same.
    pub proof fn lemma_idx_injective(a: File, b: File)
        requires
            a.idx() == b.idx(),
        ensures
            a == b,
    {
    }

    /// The file with the given index.
    pub fn new(index: u8) -> (r: File)
        requires
            index < 8,
        ensures
            r.idx() == index,
            r == File::at(index as int),
    {
        File { index }
    }

    /// The file with the given index, if there is one.
    pub fn try_from_u8(value: u8) -> (r: Result<File, FileParseError>)
        ensures
            value < 8 ==> r == Ok::<File, FileParseError>(File::at(value as int)),
            value >= 8 ==> r == Err::<File, FileParseError>(FileParseError::OutOfRange(value)),
    {
        if value >= 8 {
            return Err(FileParseError::OutOfRange(value));
        }
        Ok(File { index: value })
    }

    /// The character `'a'` to `'h'` of the file with the given index.
    pub open spec fn char_of(i: int) -> char {
        if i == 0 {
            'a'
        } else if i == 1 {
            'b'
        } else if i == 2 {
            'c'
        } else if i == 3 {
            'd'
        } else if i == 4 {
            'e'
        } else if i == 5 {
            'f'
        } else if i == 6 {
            'g'
        } else {
            'h'
        }
    }

    /// The index of the file that a character names, if it names one.
    pub open spec fn of_char(c: char) -> Option<int> {
        if c == 'a' {
            Some(0)
        } else if c == 'b' {
            Some(1)
        } else if c == 'c' {
            Some(2)
        } else if c == 'd' {
            Some(3)
        } else if c == 'e' {
            Some(4)
        } else if c == 'f' {
            Some(5)
        } else if c == 'g' {
            Some(6)
        } else if c == 'h' {
            Some(7)
        } else {
            None
        }
    }

    /// The file that a character names: `'a'` for the first file up to `'h'`.
    pub fn try_from_char(value: char) -> (r: Result<File, FileParseError>)
        ensures
            r.is_ok() == File::of_char(value).is_some(),
            r.is_ok() ==> r.unwrap().idx() == File::of_char(value).unwrap(),
            match r {
                Ok(file) => 0 <= file.idx() < 8 && File::char_of(file.idx()) == value,
                Err(e) => e == FileParseError::InvalidChar(value) && forall|i: int|
                    0 <= i < 8 ==> File::char_of(i) != value,
            },
    {
        let index: u8 = match value {
            'a' => 0,
            'b' => 1,
            'c' => 2,
            'd' => 3,
            'e' => 4,
            'f' => 5,
            'g' => 6,
            'h' => 7,
            _ => {
                return Err(FileParseError::InvalidChar(value));
            },
        };
        Ok(File { index })
    }

    /// The index of this file, between 0 and 7.
    pub fn as_u8(self) -> (r: u8)
        ensures
            r == self.idx(),
            r < 8,
    {
        proof {
            use_type_invariant(&self);
        }
        self.index
    }

    /// The character that names this file.
    pub fn to_char(self) -> (c: char)
        ensures
            c == File::char_of(self.idx()),
    {
        proof {
            use_type_invariant(&self);
        }
        match self.index {
            0 => 'a',
            1 => 'b',
            2 => 'c',
            3 => 'd',
            4 => 'e',
            5 => 'f',
            6 => 'g',
            _ => 'h',
        }
    }
}

/// One of the eight compass directions, seen from White's side of the board.
#[derive(Copy, Clone, Debug, PartialEq, Eq, Structural)]
pub enum Direction {
    North,
    NorthEast,
    East,
    SouthEast,
    South,
    SouthWest,
    West,
    NorthWest,
}

impl Direction {
    /// How many ranks one step in this direction climbs.
    pub open spec fn rank_step(self) -> int {
        match self {
            Direction::North | Direction::NorthEast | Direction::NorthWest => 1,
            Direction::South | Direction::SouthEast | Direction::SouthWest => -1,
            Direction::East | Direction::West => 0,
        }
    }

    /// How many files one step in this direction moves towards the h-file.
    pub open spec fn file_step(self) -> int {
        match self {
            Direction::East | Direction::NorthEast | Direction::SouthEast => 1,
            Direction::West | Direction::NorthWest | Direction::SouthWest => -1,
            Direction::North | Direction::South => 0,
        }
    }

    /// The change of a square's index made by one step in this direction.
    pub open spec fn vector(self) -> int {
        8 * self.rank_step() + self.file_step()
    }

    /// The direction opposite to this one, in specifications.
    pub open spec fn opposite(self) -> Direction {
        match self {
            Direction::North => Direction::South,
            Direction::NorthEast => Direction::SouthWest,
            Direction::East => Direction::West,
            Direction::SouthEast => Direction::NorthWest,
            Direction::South => Direction::North,
            Direction::SouthWest => Direction::NorthEast,
            Direction::West => Direction::East,
            Direction::NorthWest => Direction::SouthEast,
        }
    }

    /// The offset added to a square's index by one step in this direction:
    /// N=+8, NE=+9, E=+1, SE=-7, S=-8, SW=-9, W=-1, NW=+7.
    pub fn as_vector(self) -> (v: i32)
        ensures
            v == self.vector(),
    {
        match self {
            Direction::North => 8,
            Direction::NorthEast => 9,
            Direction::East => 1,
            Direction::SouthEast => -7,
            Direction::South => -8,
            Direction::SouthWest => -9,
            Direction::West => -1,
            Direction::NorthWest => 7,
        }
    }

    /// The opposite direction.
    pub fn reverse(self) -> (d: Direction)
        ensures
            d == self.opposite(),
            d.rank_step() == -self.rank_step(),
            d.file_step() == -self.file_step(),
    {
        match self {
            Direction::North => Direction::South,
            Direction::NorthEast => Direction::SouthWest,
            Direction::East => Direction::West,
            Direction::SouthEast => Direction::NorthWest,
            Direction::South => Direction::North,
            Direction::SouthWest => Direction::NorthEast,
            Direction::West => Direction::East,
            Direction::NorthWest => Direction::SouthEast,
        }
    }

    /// The number of this direction, clockwise from North = 0.
    pub fn index(self) -> (i: usize)
        ensures
            i == self.ordinal(),
            i < 8,
    {
        match self {
            Direction::North => 0,
            Direction::NorthEast => 1,
            Direction::East => 2,
            Direction::SouthEast => 3,
            Direction::South => 4,
            Direction::SouthWest => 5,
            Direction::West => 6,
            Direction::NorthWest => 7,
        }
    }

    /// The number of the direction, clockwise from north.
    pub open spec fn ordinal(self) -> int {
        match self {
            Direction::North => 0,
            Direction::NorthEast => 1,
            Direction::East => 2,
            Direction::SouthEast => 3,
            Direction::South => 4,
            Direction::SouthWest => 5,
            Direction::West => 6,
            Direction::NorthWest => 7,
        }
    }
}

impl Square {
    /// Every square has an index below 64.
    #[verifier::type_invariant]
    pub open spec fn on_board(self) -> bool {
        0 <= self.idx() < 64
    }

    /// The index of this square, as a mathematical integer.
    pub closed spec fn idx(self) -> int {
        self.index as int
    }

    /// The square with the given index, in specifications.
    pub closed spec fn at(i: int) -> Square {
        Square { index: i as u8 }
    }

    /// The index of this square's rank.
    pub open spec fn rank_idx(self) -> int {
        self.idx() / 8
    }

    /// The index of this square's file.
    pub open spec fn file_idx(self) -> int {
        self.idx() % 8
    }

    /// Whether one step in the given direction from this square stays on the board.
    pub open spec fn can_step(self, dir: Direction) -> bool {
        &&& 0 <= self.rank_idx() + dir.rank_step() < 8
        &&& 0 <= self.file_idx() + dir.file_step() < 8
    }

    /// The one with index `i` has index `i`.
    pub broadcast proof fn lemma_at_idx(i: int)
        requires
            0 <= i < 64,
        ensures
            #[trigger] Square::at(i).idx() == i,
    {
    }

    /// A square is the square of its index.
    pub broadcast proof fn lemma_idx_at(s: Square)
        requires
            0 <= s.idx() < 64,
        ensures
            Square::at(#[trigger] s.idx()) == s,
    {
    }

    /// Two with the same index are the same.
    pub proof fn lemma_idx_injective(a: Square, b: Square)
        requires
            a.idx() == b.idx(),
        ensures
            a == b,
    {
    }

    /// The square with the given index.
    pub fn new(index: u8) -> (s: Square)
        requires
            index < 64,
        ensures
            s.idx() == index,
            s == Square::at(index as int),
    {
        Square { index }
    }

    /// The square with the given index, if there is one.
    pub fn try_from_u8(value: u8) -> (r: Result<Square, SquareParseError>)
        ensures
            value < 64 ==> r == Ok::<Square, SquareParseError>(Square::at(value as int)),
            value >= 64 ==> r == Err::<Square, SquareParseError>(
                SquareParseError::OutOfRange(value),
            ),
    {
        if value >= 64 {
            return Err(SquareParseError::OutOfRange(value));
        }
        Ok(Square { index: value })
    }

    /// The rank of this square: its index shifted right by three bits.
    pub fn rank(self) -> (r: Rank)
        ensures
            r.idx() == self.rank_idx(),
            0 <= r.idx() < 8,
    {
        proof {
            use_type_invariant(&self);
        }
        Rank { index: self.index / 8 }
    }

    /// The file of this square: the low three bits of its index.
    pub fn file(self) -> (f: File)
        ensures
            f.idx() == self.file_idx(),
            0 <= f.idx() < 8,
    {
        proof {
            use_type_invariant(&self);
        }
        File { index: self.index % 8 }
    }

    /// The square on the given rank and file.
    pub fn of(rank: Rank, file: File) -> (s: Square)
        ensures
            s.idx() == rank.idx() * 8 + file.idx(),
            s.rank_idx() == rank.idx(),
            s.file_idx() == file.idx(),
            0 <= s.idx() < 64,
    {
        proof {
            use_type_invariant(&rank);
            use_type_invariant(&file);
        }
        Square { index: rank.index * 8 + file.index }
    }

    /// The square whose index is this one's plus `offset`.
    pub(crate) fn plus(self, offset: i32) -> (s: Square)
        requires
            0 <= self.idx() + offset < 64,
        ensures
            s.idx() == self.idx() + offset,
    {
        proof {
            use_type_invariant(&self);
        }
        let target: i32 = self.index as i32 + offset;
        Square { index: target as u8 }
    }

    /// The neighbouring square in the given direction.
    pub fn towards(self, dir: Direction) -> (s: Square)
        requires
            self.can_step(dir),
        ensures
            s.idx() == self.idx() + dir.vector(),
            s.rank_idx() == self.rank_idx() + dir.rank_step(),
            s.file_idx() == self.file_idx() + dir.file_step(),
            0 <= s.idx() < 64,
    {
        proof {
            use_type_invariant(&self);
        }
        self.plus(dir.as_vector())
    }

    /// The square `ranks` ranks up and `files` files to the right of this one,
    /// if that is a square of the board.
    pub fn offset(self, ranks: i8, files: i8) -> (r: Option<Square>)
        ensures
            r.is_some() == (0 <= self.rank_idx() + ranks < 8 && 0 <= self.file_idx() + files < 8),
            r.is_some() ==> r.unwrap().idx() == self.idx() + 8 * ranks + files,
            r.is_some() ==> r.unwrap().rank_idx() == self.rank_idx() + ranks,
            r.is_some() ==> r.unwrap().file_idx() == self.file_idx() + files,
    {
        proof {
            use_type_invariant(&self);
        }
        let rank: i16 = (self.index / 8) as i16 + ranks as i16;
        let file: i16 = (self.index % 8) as i16 + files as i16;
        if 0 <= rank && rank < 8 && 0 <= file && file < 8 {
            Some(Square { index: (rank * 8 + file) as u8 })
        } else {
            None
        }
    }

    /// The neighbouring square in the given direction, if the board has one.
    pub fn neighbor(self, dir: Direction) -> (r: Option<Square>)
        ensures
            r.is_some() == self.can_step(dir),
            r.is_some() ==> r.unwrap().idx() == self.idx() + dir.vector(),
            r.is_some() ==> r.unwrap().rank_idx() == self.rank_idx() + dir.rank_step(),
            r.is_some() ==> r.unwrap().file_idx() == self.file_idx() + dir.file_step(),
    {
        match dir {
            Direction::North => self.offset(1, 0),
            Direction::NorthEast => self.offset(1, 1),
            Direction::East => self.offset(0, 1),
            Direction::SouthEast => self.offset(-1, 1),
            Direction::South => self.offset(-1, 0),
            Direction::SouthWest => self.offset(-1, -1),
            Direction::West => self.offset(0, -1),
            Direction::NorthWest => self.offset(1, -1),
        }
    }

    /// The index of this square, between 0 and 63.
    pub fn as_u8(self) -> (r: u8)
        ensures
            r == self.idx(),
            r < 64,
    {
        proof {
            use_type_invariant(&self);
        }
        self.index
    }
}

/// The side that owns a piece or is to move.
#[derive(Copy, Clone, Debug, PartialEq, Eq, Hash, Structural)]
pub enum Color {
    White,
    Black,
}

impl Color {
    /// The other color, in specifications.
    pub open spec fn other(self) -> Color {
        match self {
            Color::White => Color::Black,
            Color::Black => Color::White,
        }
    }

    /// 0 for White, 1 for Black.
    pub open spec fn ordinal(self) -> int {
        match self {
            Color::White => 0,
            Color::Black => 1,
        }
    }

    /// The other color.
    pub fn toggle(self) -> (c: Color)
        ensures
            c == self.other(),
            c != self,
            c.other() == self,
    {
        match self {
            Color::White => Color::Black,
            Color::Black => Color::White,
        }
    }

    /// 0 for White, 1 for Black.
    pub fn index(self) -> (i: usize)
        ensures
            i == self.ordinal(),
            i < 2,
    {
        match self {
            Color::White => 0,
            Color::Black => 1,
        }
    }
}

/// The kind of a piece.
#[derive(Copy, Clone, Debug, PartialEq, Eq, Hash, Structural)]
pub enum PieceKind {
    Pawn,
    Knight,
    Bishop,
    Rook,
    Queen,
    King,
}

/// The material value that stands for a king: more than all other pieces together.
pub const KING_VALUE: i32 = 1000;

impl PieceKind {
    /// Pawn = 0, Knight = 1, Bishop = 2, Rook = 3, Queen = 4, King = 5.
    pub open spec fn ordinal(self) -> int {
        match self {
            PieceKind::Pawn => 0,
            PieceKind::Knight => 1,
            PieceKind::Bishop => 2,
            PieceKind::Rook => 3,
            PieceKind::Queen => 4,
            PieceKind::King => 5,
        }
    }

    /// The kind with the given number, in specifications.
    pub open spec fn from_ordinal(i: int) -> PieceKind {
        if i == 0 {
            PieceKind::Pawn
        } else if i == 1 {
            PieceKind::Knight
        } else if i == 2 {
            PieceKind::Bishop
        } else if i == 3 {
            PieceKind::Rook
        } else if i == 4 {
            PieceKind::Queen
        } else {
            PieceKind::King
        }
    }

    /// The material value of a piece of this kind, in pawns.
    pub open spec fn material(self) -> int {
        match self {
            PieceKind::Pawn => 1,
            PieceKind::Knight => 3,
            PieceKind::Bishop => 3,
            PieceKind::Rook => 5,
            PieceKind::Queen => 9,
            PieceKind::King => KING_VALUE as int,
        }
    }

    /// The lower-case letter of this kind.
    pub open spec fn letter(self) -> char {
        match self {
            PieceKind::Pawn => 'p',
            PieceKind::Knight => 'n',
            PieceKind::Bishop => 'b',
            PieceKind::Rook => 'r',
            PieceKind::Queen => 'q',
            PieceKind::King => 'k',
        }
    }

    /// Pawn = 0, Knight = 1, Bishop = 2, Rook = 3, Queen = 4, King = 5.
    pub fn index(self) -> (i: usize)
        ensures
            i == self.ordinal(),
            i < 6,
    {
        match self {
            PieceKind::Pawn => 0,
            PieceKind::Knight => 1,
            PieceKind::Bishop => 2,
            PieceKind::Rook => 3,
            PieceKind::Queen => 4,
            PieceKind::King => 5,
        }
    }

    /// The material value of a piece of this kind, in pawns: 1, 3, 3, 5, 9,
    /// and for the king a value no exchange can pay for.
    pub fn value(self) -> (v: i32)
        ensures
            v == self.material(),
            1 <= v <= KING_VALUE,
    {
        match self {
            PieceKind::Pawn => 1,
            PieceKind::Knight => 3,
            PieceKind::Bishop => 3,
            PieceKind::Rook => 5,
            PieceKind::Queen => 9,
            PieceKind::King => KING_VALUE,
        }
    }

    /// The lower-case letter of this kind.
    pub fn to_char(self) -> (c: char)
        ensures
            c == self.letter(),
    {
        match self {
            PieceKind::Pawn => 'p',
            PieceKind::Knight => 'n',
            PieceKind::Bishop => 'b',
            PieceKind::Rook => 'r',
            PieceKind::Queen => 'q',
            PieceKind::King => 'k',
        }
    }
}

/// A piece: a kind and the color that owns it.
#[derive(Copy, Clone, Debug, PartialEq, Eq, Hash, Structural)]
pub struct Piece {
    pub color: Color,
    pub kind: PieceKind,
}

impl Piece {
    /// The letter of this piece in Forsyth-Edwards notation: upper case for White.
    pub open spec fn letter(self) -> char {
        match (self.color, self.kind) {
            (Color::White, PieceKind::Pawn) => 'P',
            (Color::White, PieceKind::Knight) => 'N',
            (Color::White, PieceKind::Bishop) => 'B',
            (Color::White, PieceKind::Rook) => 'R',
            (Color::White, PieceKind::Queen) => 'Q',
            (Color::White, PieceKind::King) => 'K',
            (Color::Black, kind) => kind.letter(),
        }
    }

    /// The number of this piece among the twelve: the kind's number, plus six for Black.
    pub open spec fn ordinal(self) -> int {
        self.color.ordinal() * 6 + self.kind.ordinal()
    }

    /// The piece with the given number among the twelve.
    pub open spec fn from_ordinal(p: int) -> Piece {
        Piece {
            color: if p < 6 {
                Color::White
            } else {
                Color::Black
            },
            kind: PieceKind::from_ordinal(p % 6),
        }
    }

    /// Numbering the pieces and naming them by number undo each other.
    pub proof fn lemma_ordinal(self)
        ensures
            0 <= self.ordinal() < 12,
            Piece::from_ordinal(self.ordinal()) == self,
    {
    }

    /// Naming a piece by number and numbering it undo each other.
    pub proof fn lemma_from_ordinal(p: int)
        requires
            0 <= p < 12,
        ensures
            Piece::from_ordinal(p).ordinal() == p,
    {
    }

    /// The piece that a letter names, if it names one, in specifications.
    pub open spec fn of_letter(c: char) -> Option<Piece> {
        if c == 'p' {
            Some(Piece { color: Color::Black, kind: PieceKind::Pawn })
        } else if c == 'n' {
            Some(Piece { color: Color::Black, kind: PieceKind::Knight })
        } else if c == 'b' {
            Some(Piece { color: Color::Black, kind: PieceKind::Bishop })
        } else if c == 'r' {
            Some(Piece { color: Color::Black, kind: PieceKind::Rook })
        } else if c == 'q' {
            Some(Piece { color: Color::Black, kind: PieceKind::Queen })
        } else if c == 'k' {
            Some(Piece { color: Color::Black, kind: PieceKind::King })
        } else if c == 'P' {
            Some(Piece { color: Color::White, kind: PieceKind::Pawn })
        } else if c == 'N' {
            Some(Piece { color: Color::White, kind: PieceKind::Knight })
        } else if c == 'B' {
            Some(Piece { color: Color::White, kind: PieceKind::Bishop })
        } else if c == 'R' {
            Some(Piece { color: Color::White, kind: PieceKind::Rook })
        } else if c == 'Q' {
            Some(Piece { color: Color::White, kind: PieceKind::Queen })
        } else if c == 'K' {
            Some(Piece { color: Color::White, kind: PieceKind::King })
        } else {
            None
        }
    }

    /// The piece that a letter names, if it names one.
    pub fn try_from_char(value: char) -> (r: Result<Piece, PieceParseError>)
        ensures
            r.is_ok() == Piece::of_letter(value).is_some(),
            r.is_ok() ==> r.unwrap() == Piece::of_letter(value).unwrap(),
            match r {
                Ok(piece) => piece.letter() == value,
                Err(e) => e == PieceParseError::InvalidChar(value) && forall|p: Piece|
                    #[trigger] p.letter() != value,
            },
    {
        let piece = match value {
            'p' => Piece { color: Color::Black, kind: PieceKind::Pawn },
            'n' => Piece { color: Color::Black, kind: PieceKind::Knight },
            'b' => Piece { color: Color::Black, kind: PieceKind::Bishop },
            'r' => Piece { color: Color::Black, kind: PieceKind::Rook },
            'q' => Piece { color: Color::Black, kind: PieceKind::Queen },
            'k' => Piece { color: Color::Black, kind: PieceKind::King },
            'P' => Piece { color: Color::White, kind: PieceKind::Pawn },
            'N' => Piece { color: Color::White, kind: PieceKind::Knight },
            'B' => Piece { color: Color::White, kind: PieceKind::Bishop },
            'R' => Piece { color: Color::White, kind: PieceKind::Rook },
            'Q' => Piece { color: Color::White, kind: PieceKind::Queen },
            'K' => Piece { color: Color::White, kind: PieceKind::King },
            _ => {
                return Err(PieceParseError::InvalidChar(value));
            },
        };
        Ok(piece)
    }

    /// The letter of this piece in Forsyth-Edwards notation.
    pub fn to_char(self) -> (c: char)
        ensures
            c == self.letter(),
    {
        match self.color {
            Color::White => match self.kind {
                PieceKind::Pawn => 'P',
                PieceKind::Knight => 'N',
                PieceKind::Bishop => 'B',
                PieceKind::Rook => 'R',
                PieceKind::Queen => 'Q',
                PieceKind::King => 'K',
            },
            Color::Black => self.kind.to_char(),
        }
    }

    /// The number of this piece among the twelve.
    pub fn index(self) -> (i: usize)
        ensures
            i == self.ordinal(),
            i < 12,
    {
        self.color.index() * 6 + self.kind.index()
    }
}

/// The castling rights of both sides: a set of the four flags White
/// kingside, White queenside, Black kingside and Black queenside.
#[derive(Copy, Clone, Debug, PartialEq, Eq, Hash, Structural)]
pub struct CastleStatus {
    pub white_kingside: bool,
    pub white_queenside: bool,
    pub black_kingside: bool,
    pub black_queenside: bool,
}

impl CastleStatus {
    /// Whether the color may castle kingside, in specifications.
    pub open spec fn has_kingside(self, color: Color) -> bool {
        match color {
            Color::White => self.white_kingside,
            Color::Black => self.black_kingside,
        }
    }

    /// Whether the color may castle queenside, in specifications.
    pub open spec fn has_queenside(self, color: Color) -> bool {
        match color {
            Color::White => self.white_queenside,
            Color::Black => self.black_queenside,
        }
    }

    /// These rights with the color's kingside right set to `on`, in specifications.
    pub open spec fn set_kingside(self, color: Color, on: bool) -> CastleStatus {
        match color {
            Color::White => CastleStatus { white_kingside: on, ..self },
            Color::Black => CastleStatus { black_kingside: on, ..self },
        }
    }

    /// These rights with the color's queenside right set to `on`, in specifications.
    pub open spec fn set_queenside(self, color: Color, on: bool) -> CastleStatus {
        match color {
            Color::White => CastleStatus { white_queenside: on, ..self },
            Color::Black => CastleStatus { black_queenside: on, ..self },
        }
    }

    /// These rights without those of the color, in specifications.
    pub open spec fn clear_color(self, color: Color) -> CastleStatus {
        self.set_kingside(color, false).set_queenside(color, false)
    }

    /// No right at all.
    pub fn none() -> (c: CastleStatus)
        ensures
            c == (CastleStatus {
                white_kingside: false,
                white_queenside: false,
                black_kingside: false,
                black_queenside: false,
            }),
    {
        CastleStatus {
            white_kingside: false,
            white_queenside: false,
            black_kingside: false,
            black_queenside: false,
        }
    }

    /// All four rights.
    pub fn all() -> (c: CastleStatus)
        ensures
            c == (CastleStatus {
                white_kingside: true,
                white_queenside: true,
                black_kingside: true,
                black_queenside: true,
            }),
    {
        CastleStatus {
            white_kingside: true,
            white_queenside: true,
            black_kingside: true,
            black_queenside: true,
        }
    }

    /// Whether the color may castle kingside.
    pub fn kingside(self, color: Color) -> (r: bool)
        ensures
            r == self.has_kingside(color),
    {
        match color {
            Color::White => self.white_kingside,
            Color::Black => self.black_kingside,
        }
    }

    /// Whether the color may castle queenside.
    pub fn queenside(self, color: Color) -> (r: bool)
        ensures
            r == self.has_queenside(color),
    {
        match color {
            Color::White => self.white_queenside,
            Color::Black => self.black_queenside,
        }
    }

    /// These rights with the color's kingside right set to `on`.
    pub fn with_kingside(self, color: Color, on: bool) -> (c: CastleStatus)
        ensures
            c == self.set_kingside(color, on),
    {
        match color {
            Color::White => CastleStatus { white_kingside: on, ..self },
            Color::Black => CastleStatus { black_kingside: on, ..self },
        }
    }

    /// These rights with the color's queenside right set to `on`.
    pub fn with_queenside(self, color: Color, on: bool) -> (c: CastleStatus)
        ensures
            c == self.set_queenside(color, on),
    {
        match color {
            Color::White => CastleStatus { white_queenside: on, ..self },
            Color::Black => CastleStatus { black_queenside: on, ..self },
        }
    }
}

/// A walk over all 64 squares, from A1 to H8.
pub struct SquaresIterator {
    index: u8,
}

impl SquaresIterator {
    /// The index of the square that comes next; 64 or more once the walk is over.
    pub closed spec fn upcoming(&self) -> int {
        self.index as int
    }

    /// A walk that starts at A1.
    pub fn new() -> (it: SquaresIterator)
        ensures
            it.upcoming() == 0,
    {
        SquaresIterator { index: 0 }
    }

    /// The next square of the walk, if one is left.
    pub fn next(&mut self) -> (r: Option<Square>)
        ensures
            r.is_some() == (old(self).upcoming() < 64),
            r.is_some() ==> r.unwrap().idx() == old(self).upcoming(),
            final(self).upcoming() == if r.is_some() {
                old(self).upcoming() + 1
            } else {
                old(self).upcoming()
            },
    {
        if self.index >= 64 {
            None
        } else {
            let index = self.index;
            self.index += 1;
            Some(Square::new(index))
        }
    }
}

/// All 64 squares, from A1 to H8.
pub fn squares() -> (v: Vec<Square>)
    ensures
        v.len() == 64,
        forall|i: int| 0 <= i < 64 ==> (#[trigger] v[i]).idx() == i,
{
    let mut v: Vec<Square> = Vec::new();
    let mut i: u8 = 0;
    while i < 64
        invariant
            i <= 64,
            v.len() == i,
            forall|j: int| 0 <= j < i ==> (#[trigger] v[j]).idx() == j,
        decreases 64 - i,
    {
        v.push(Square::new(i));
        i += 1;
    }
    v
}

/// All eight ranks, from the first to the eighth.
pub fn ranks() -> (v: Vec<Rank>)
    ensures
        v.len() == 8,
        forall|i: int| 0 <= i < 8 ==> (#[trigger] v[i]).idx() == i,
{
    let mut v: Vec<Rank> = Vec::new();
    let mut i: u8 = 0;
    while i < 8
        invariant
            i <= 8,
            v.len() == i,
            forall|j: int| 0 <= j < i ==> (#[trigger] v[j]).idx() == j,
        decreases 8 - i,
    {
        v.push(Rank::new(i));
        i += 1;
    }
    v
}

/// All eight files, from a to h.
pub fn files() -> (v: Vec<File>)
    ensures
        v.len() == 8,
        forall|i: int| 0 <= i < 8 ==> (#[trigger] v[i]).idx() == i,
{
    let mut v: Vec<File> = Vec::new();
    let mut i: u8 = 0;
    while i < 8
        invariant
            i <= 8,
            v.len() == i,
            forall|j: int| 0 <= j < i ==> (#[trigger] v[j]).idx() == j,
        decreases 8 - i,
    {
        v.push(File::new(i));
        i += 1;
    }
    v
}

/// The six kinds of piece, in the order pawn, bishop, knight, rook, queen, king.
pub fn piece_kinds() -> (v: Vec<PieceKind>)
    ensures
        v@ == seq![
            PieceKind::Pawn,
            PieceKind::Bishop,
            PieceKind::Knight,
            PieceKind::Rook,
            PieceKind::Queen,
            PieceKind::King,
        ],
{
    let mut v: Vec<PieceKind> = Vec::new();
    v.push(PieceKind::Pawn);
    v.push(PieceKind::Bishop);
    v.push(PieceKind::Knight);
    v.push(PieceKind::Rook);
    v.push(PieceKind::Queen);
    v.push(PieceKind::King);
    v
}

/// The two colors, White first.
pub fn colors() -> (v: Vec<Color>)
    ensures
        v@ == seq![Color::White, Color::Black],
{
    let mut v: Vec<Color> = Vec::new();
    v.push(Color::White);
    v.push(Color::Black);
    v
}

} // verus!
