//! The squares that a piece attacks: by one leap for kings, knights and
//! pawns, along rays up to the first occupied square for bishops, rooks and
//! queens. The functions work the attacks out square by square; the tables
//! hold them worked out once, and the table of the rays finds what a slider
//! attacks from the ray and the ray of the nearest occupied square on it.

use crate::squareset::SquareSet;
use crate::types::{Color, Direction, PieceKind, Square};
use vstd::prelude::*;

verus! {

/// `k` steps of size `step`, where `step` is -1, 0 or 1.
pub open spec fn scaled(k: int, step: int) -> int {
    if step == 1 {
        k
    } else if step == -1 {
        -k
    } else {
        0
    }
}

/// Whether `k` steps in direction `d` from square `s` stay on the board.
pub open spec fn on_ray(s: int, d: Direction, k: int) -> bool {
    &&& 0 <= s < 64
    &&& 0 <= s / 8 + scaled(k, d.rank_step()) < 8
    &&& 0 <= s % 8 + scaled(k, d.file_step()) < 8
}

/// The index of the square `k` steps in direction `d` from square `s`.
pub open spec fn ray_square(s: int, d: Direction, k: int) -> int {
    s + 8 * scaled(k, d.rank_step()) + scaled(k, d.file_step())
}

/// Whether `t` lies on the ray that leaves `s` in direction `d`: the squares
/// from the one next to `s` to the edge of the board.
pub open spec fn ray_reach(s: int, d: Direction, t: int) -> bool {
    exists|k: int| 1 <= k < 8 && on_ray(s, d, k) && t == #[trigger] ray_square(s, d, k)
}

/// Whether none of the first `k - 1` squares of the ray is occupied.
pub open spec fn clear_before(s: int, d: Direction, occ: Set<int>, k: int) -> bool {
    forall|j: int| 1 <= j < k ==> !occ.contains(#[trigger] ray_square(s, d, j))
}

/// Whether a slider on `s` attacks `t` along direction `d`: `t` is on the
/// ray and no occupied square lies between the two.
pub open spec fn slide_reach(s: int, d: Direction, occ: Set<int>, t: int) -> bool {
    exists|k: int|
        1 <= k < 8 && on_ray(s, d, k) && t == #[trigger] ray_square(s, d, k) && clear_before(
            s,
            d,
            occ,
            k,
        )
}

/// The distance between two numbers.
pub open spec fn dist(a: int, b: int) -> int {
    if a >= b {
        a - b
    } else {
        b - a
    }
}

/// Whether a king on `s` attacks `t`: the two are different neighbours.
pub open spec fn king_reach(s: int, t: int) -> bool {
    &&& 0 <= s < 64 && 0 <= t < 64 && s != t
    &&& dist(s / 8, t / 8) <= 1
    &&& dist(s % 8, t % 8) <= 1
}

/// Whether a knight on `s` attacks `t`: two squares one way and one the other.
pub open spec fn knight_reach(s: int, t: int) -> bool {
    &&& 0 <= s < 64 && 0 <= t < 64
    &&& ((dist(s / 8, t / 8) == 1 && dist(s % 8, t % 8) == 2) || (dist(s / 8, t / 8) == 2
        && dist(s % 8, t % 8) == 1))
}

/// The rank step of the color's pawns: up for White, down for Black.
pub open spec fn forward(color: Color) -> int {
    match color {
        Color::White => 1,
        Color::Black => -1,
    }
}

/// Whether a pawn of the given color on `s` attacks `t`: one rank forward
/// and one file to either side.
pub open spec fn pawn_reach(s: int, color: Color, t: int) -> bool {
    &&& 0 <= s < 64 && 0 <= t < 64
    &&& t / 8 == s / 8 + forward(color)
    &&& dist(s % 8, t % 8) == 1
}

/// Whether a bishop on `s` attacks `t` when the squares of `occ` are occupied.
pub open spec fn bishop_reach(s: int, occ: Set<int>, t: int) -> bool {
    ||| slide_reach(s, Direction::NorthWest, occ, t)
    ||| slide_reach(s, Direction::SouthEast, occ, t)
    ||| slide_reach(s, Direction::NorthEast, occ, t)
    ||| slide_reach(s, Direction::SouthWest, occ, t)
}

/// Whether a rook on `s` attacks `t` when the squares of `occ` are occupied.
pub open spec fn rook_reach(s: int, occ: Set<int>, t: int) -> bool {
    ||| slide_reach(s, Direction::North, occ, t)
    ||| slide_reach(s, Direction::South, occ, t)
    ||| slide_reach(s, Direction::East, occ, t)
    ||| slide_reach(s, Direction::West, occ, t)
}

/// Whether a queen on `s` attacks `t` when the squares of `occ` are occupied.
pub open spec fn queen_reach(s: int, occ: Set<int>, t: int) -> bool {
    bishop_reach(s, occ, t) || rook_reach(s, occ, t)
}

/// Whether a piece of the given kind and color on `s` attacks `t` when the
/// squares of `occ` are occupied.
pub open spec fn attack_reach(kind: PieceKind, color: Color, s: int, occ: Set<int>, t: int) -> bool {
    match kind {
        PieceKind::Pawn => pawn_reach(s, color, t),
        PieceKind::Knight => knight_reach(s, t),
        PieceKind::Bishop => bishop_reach(s, occ, t),
        PieceKind::Rook => rook_reach(s, occ, t),
        PieceKind::Queen => queen_reach(s, occ, t),
        PieceKind::King => king_reach(s, t),
    }
}

/// Adds to `set` the square `ranks` up and `files` right of `sq`, if the board has it.
fn add_leap(set: &mut SquareSet, sq: Square, ranks: i8, files: i8)
    requires
        -8 <= ranks <= 8,
        -8 <= files <= 8,
    ensures
        forall|t: int|
            #![trigger final(set).has(t)]
            final(set).has(t) == (old(set).has(t) || (t == sq.idx() + 8 * ranks + files && 0
                <= sq.rank_idx() + ranks < 8 && 0 <= sq.file_idx() + files < 8)),
{
    match sq.offset(ranks, files) {
        Some(target) => {
            set.insert(target);
        },
        None => {},
    }
}

/// The squares that a king on `sq` attacks.
pub fn king_attacks(sq: Square) -> (r: SquareSet)
    ensures
        forall|t: int| #[trigger] r.has(t) == king_reach(sq.idx(), t),
{
    let s = sq.as_u8();
    let mut board = SquareSet::empty();
    add_leap(&mut board, sq, 1, 0);
    add_leap(&mut board, sq, 1, -1);
    add_leap(&mut board, sq, 1, 1);
    add_leap(&mut board, sq, -1, 0);
    add_leap(&mut board, sq, -1, -1);
    add_leap(&mut board, sq, -1, 1);
    add_leap(&mut board, sq, 0, -1);
    add_leap(&mut board, sq, 0, 1);
    board
}

/// The squares that a knight on `sq` attacks.
pub fn knight_attacks(sq: Square) -> (r: SquareSet)
    ensures
        forall|t: int| #[trigger] r.has(t) == knight_reach(sq.idx(), t),
{
    let s = sq.as_u8();
    let mut board = SquareSet::empty();
    add_leap(&mut board, sq, 2, -1);
    add_leap(&mut board, sq, 2, 1);
    add_leap(&mut board, sq, 1, 2);
    add_leap(&mut board, sq, -1, 2);
    add_leap(&mut board, sq, -2, 1);
    add_leap(&mut board, sq, -2, -1);
    add_leap(&mut board, sq, -1, -2);
    add_leap(&mut board, sq, 1, -2);
    board
}

/// The squares that a pawn of the given color on `sq` attacks. A pawn on
/// its own last rank attacks nothing.
pub fn pawn_attacks(sq: Square, color: Color) -> (r: SquareSet)
    ensures
        forall|t: int| #[trigger] r.has(t) == pawn_reach(sq.idx(), color, t),
{
    let s = sq.as_u8();
    let mut board = SquareSet::empty();
    let up: i8 = match color {
        Color::White => 1,
        Color::Black => -1,
    };
    add_leap(&mut board, sq, up, -1);
    add_leap(&mut board, sq, up, 1);
    board
}

/// The ray that leaves `sq` in the given direction, up to and including the
/// first square of `occupancy` on it.
pub fn ray_attacks(sq: Square, occupancy: SquareSet, dir: Direction) -> (r: SquareSet)
    ensures
        forall|t: int| #[trigger] r.has(t) == slide_reach(sq.idx(), dir, occupancy@, t),
{
    let s0 = sq.as_u8();
    let ghost s = sq.idx();
    let mut board = SquareSet::empty();
    let mut cursor = sq;
    let mut n: u8 = 0;
    let mut blocked = false;
    while !blocked
        invariant
            0 <= s < 64,
            s == sq.idx(),
            0 <= n < 8,
            n > 0 ==> on_ray(s, dir, n as int),
            cursor.idx() == ray_square(s, dir, n as int),
            cursor.rank_idx() == s / 8 + scaled(n as int, dir.rank_step()),
            cursor.file_idx() == s % 8 + scaled(n as int, dir.file_step()),
            blocked ==> (n > 0 && occupancy@.contains(cursor.idx())) || !on_ray(s, dir, n + 1),
            blocked ==> forall|j: int| 1 <= j < n ==> !occupancy@.contains(#[trigger] ray_square(s, dir, j)),
            !blocked ==> forall|j: int|
                1 <= j <= n ==> !occupancy@.contains(#[trigger] ray_square(s, dir, j)),
            forall|t: int|
                #![trigger board.has(t)]
                board.has(t) == (exists|k: int|
                    1 <= k <= n && t == #[trigger] ray_square(s, dir, k)),
        decreases 8 - n + if blocked { 0int } else { 1int },
    {
        match cursor.neighbor(dir) {
            Some(next) => {
                let ghost before = board;
                cursor = next;
                n = n + 1;
                board.insert(cursor);
                proof {
                    assert(on_ray(s, dir, n as int));
                    assert(n < 8);
                    assert forall|t: int| #![trigger board.has(t)] board.has(t) == (exists|k: int|
                        1 <= k <= n && t == #[trigger] ray_square(s, dir, k)) by {
                        if board.has(t) {
                            if before.has(t) {
                                let k = choose|k: int|
                                    1 <= k <= n - 1 && t == #[trigger] ray_square(s, dir, k);
                                assert(1 <= k <= n && t == ray_square(s, dir, k));
                            } else {
                                assert(t == ray_square(s, dir, n as int));
                            }
                        }
                        if exists|k: int| 1 <= k <= n && t == #[trigger] ray_square(s, dir, k) {
                            let k = choose|k: int|
                                1 <= k <= n && t == #[trigger] ray_square(s, dir, k);
                            if k < n {
                                assert(1 <= k <= n - 1 && t == ray_square(s, dir, k));
                                assert(before.has(t));
                            }
                        }
                    }
                }
                if occupancy.contains(cursor) {
                    blocked = true;
                }
            },
            None => {
                blocked = true;
            },
        }
    }
    proof {
        assert forall|t: int| #[trigger] board.has(t) == slide_reach(s, dir, occupancy@, t) by {
            if board.has(t) {
                let k = choose|k: int| 1 <= k <= n && t == #[trigger] ray_square(s, dir, k);
                lemma_on_ray_prefix(s, dir, n as int, k);
                assert(clear_before(s, dir, occupancy@, k));
            }
            if slide_reach(s, dir, occupancy@, t) {
                let k = choose|k: int|
                    1 <= k < 8 && on_ray(s, dir, k) && t == #[trigger] ray_square(s, dir, k)
                        && clear_before(s, dir, occupancy@, k);
                if k > n {
                    if n > 0 && occupancy@.contains(cursor.idx()) {
                        assert(!occupancy@.contains(ray_square(s, dir, n as int)));
                    } else {
                        lemma_on_ray_prefix(s, dir, k, n + 1);
                    }
                }
                assert(1 <= k <= n && t == ray_square(s, dir, k));
            }
        }
    }
    board
}

/// If `k` steps stay on the board, so does every smaller number of steps.
pub proof fn lemma_on_ray_prefix(s: int, d: Direction, k: int, j: int)
    requires
        on_ray(s, d, k),
        0 <= j <= k,
    ensures
        on_ray(s, d, j),
{
}

/// A square on a ray has the rank and file that the steps to it give.
pub proof fn lemma_ray_square(s: int, d: Direction, k: int)
    requires
        on_ray(s, d, k),
        0 <= k < 8,
    ensures
        0 <= ray_square(s, d, k) < 64,
        ray_square(s, d, k) / 8 == s / 8 + scaled(k, d.rank_step()),
        ray_square(s, d, k) % 8 == s % 8 + scaled(k, d.file_step()),
{
}

/// Sliding is symmetric: where a slider on `s` reaches `t` along `d`, a
/// slider on `t` reaches `s` along the opposite direction.
pub proof fn lemma_slide_symmetric(s: int, d: Direction, occ: Set<int>, t: int)
    requires
        slide_reach(s, d, occ, t),
    ensures
        slide_reach(t, d.opposite(), occ, s),
{
    let k = choose|k: int|
        1 <= k < 8 && on_ray(s, d, k) && t == #[trigger] ray_square(s, d, k) && clear_before(
            s,
            d,
            occ,
            k,
        );
    let back = d.opposite();
    lemma_ray_square(s, d, k);
    assert(on_ray(t, back, k));
    assert(s == ray_square(t, back, k));
    assert forall|j: int| 1 <= j < k implies !occ.contains(#[trigger] ray_square(t, back, j)) by {
        assert(ray_square(t, back, j) == ray_square(s, d, k - j));
    }
    assert(clear_before(t, back, occ, k));
}

/// A queen's reach is symmetric, and so are a bishop's and a rook's.
pub proof fn lemma_slider_symmetric(s: int, occ: Set<int>, t: int)
    ensures
        bishop_reach(s, occ, t) == bishop_reach(t, occ, s),
        rook_reach(s, occ, t) == rook_reach(t, occ, s),
        queen_reach(s, occ, t) == queen_reach(t, occ, s),
{
    lemma_all_slides(s, occ, t);
    lemma_all_slides(t, occ, s);
}

proof fn lemma_all_slides(s: int, occ: Set<int>, t: int)
    ensures
        bishop_reach(s, occ, t) ==> bishop_reach(t, occ, s),
        rook_reach(s, occ, t) ==> rook_reach(t, occ, s),
{
    if slide_reach(s, Direction::NorthWest, occ, t) {
        lemma_slide_symmetric(s, Direction::NorthWest, occ, t);
    }
    if slide_reach(s, Direction::SouthEast, occ, t) {
        lemma_slide_symmetric(s, Direction::SouthEast, occ, t);
    }
    if slide_reach(s, Direction::NorthEast, occ, t) {
        lemma_slide_symmetric(s, Direction::NorthEast, occ, t);
    }
    if slide_reach(s, Direction::SouthWest, occ, t) {
        lemma_slide_symmetric(s, Direction::SouthWest, occ, t);
    }
    if slide_reach(s, Direction::North, occ, t) {
        lemma_slide_symmetric(s, Direction::North, occ, t);
    }
    if slide_reach(s, Direction::South, occ, t) {
        lemma_slide_symmetric(s, Direction::South, occ, t);
    }
    if slide_reach(s, Direction::East, occ, t) {
        lemma_slide_symmetric(s, Direction::East, occ, t);
    }
    if slide_reach(s, Direction::West, occ, t) {
        lemma_slide_symmetric(s, Direction::West, occ, t);
    }
}

/// The squares that a bishop on `sq` attacks.
pub fn bishop_attacks(sq: Square, occupancy: SquareSet) -> (r: SquareSet)
    ensures
        forall|t: int| #[trigger] r.has(t) == bishop_reach(sq.idx(), occupancy@, t),
{
    let nw = ray_attacks(sq, occupancy, Direction::NorthWest);
    let se = ray_attacks(sq, occupancy, Direction::SouthEast);
    let ne = ray_attacks(sq, occupancy, Direction::NorthEast);
    let sw = ray_attacks(sq, occupancy, Direction::SouthWest);
    nw.or(se).or(ne.or(sw))
}

/// The squares that a rook on `sq` attacks.
pub fn rook_attacks(sq: Square, occupancy: SquareSet) -> (r: SquareSet)
    ensures
        forall|t: int| #[trigger] r.has(t) == rook_reach(sq.idx(), occupancy@, t),
{
    let n = ray_attacks(sq, occupancy, Direction::North);
    let s = ray_attacks(sq, occupancy, Direction::South);
    let e = ray_attacks(sq, occupancy, Direction::East);
    let w = ray_attacks(sq, occupancy, Direction::West);
    n.or(s).or(e.or(w))
}

/// The squares that a queen on `sq` attacks.
pub fn queen_attacks(sq: Square, occupancy: SquareSet) -> (r: SquareSet)
    ensures
        forall|t: int| #[trigger] r.has(t) == queen_reach(sq.idx(), occupancy@, t),
{
    bishop_attacks(sq, occupancy).or(rook_attacks(sq, occupancy))
}

/// The squares that a piece of the given kind and color on `sq` attacks.
pub fn attacks(kind: PieceKind, color: Color, sq: Square, occupancy: SquareSet) -> (r: SquareSet)
    ensures
        forall|t: int| #[trigger] r.has(t) == attack_reach(kind, color, sq.idx(), occupancy@, t),
{
    match kind {
        PieceKind::Pawn => pawn_attacks(sq, color),
        PieceKind::Knight => knight_attacks(sq),
        PieceKind::Bishop => bishop_attacks(sq, occupancy),
        PieceKind::Rook => rook_attacks(sq, occupancy),
        PieceKind::Queen => queen_attacks(sq, occupancy),
        PieceKind::King => king_attacks(sq),
    }
}

/// Whether `t` lies on the ray from `s` in direction `d` is whether a
/// slider on `s` reaches it on an empty board.
pub proof fn lemma_ray_is_open_slide(s: int, d: Direction, t: int)
    ensures
        ray_reach(s, d, t) == slide_reach(s, d, Set::<int>::empty(), t),
{
    if ray_reach(s, d, t) {
        let k = choose|k: int| 1 <= k < 8 && on_ray(s, d, k) && t == #[trigger] ray_square(s, d, k);
        assert(clear_before(s, d, Set::<int>::empty(), k));
    }
}

/// The king's attacks from every square, worked out once.
pub struct KingTable {
    table: Vec<SquareSet>,
}

impl KingTable {
    /// The table holds, for each square, the squares attacked from it.
    #[verifier::type_invariant]
    pub closed spec fn filled(self) -> bool {
        &&& self.table.len() == 64
        &&& forall|s: int, t: int|
            #![trigger self.table[s].has(t)]
            0 <= s < 64 ==> self.table[s].has(t) == king_reach(s, t)
    }

    /// The squares that the table holds for the square with index `sq`.
    pub closed spec fn held(self, sq: int) -> SquareSet {
        self.table[sq]
    }

    /// The table of the king's attacks: for each square, the neighbours of
    /// the square that the board has.
    pub fn new() -> (kt: KingTable)
        ensures
            forall|s: int, t: int|
                #![trigger kt.held(s).has(t)]
                0 <= s < 64 ==> kt.held(s).has(t) == king_reach(s, t),
    {
        let mut table: Vec<SquareSet> = Vec::new();
        let mut i: u8 = 0;
        while i < 64
            invariant
                i <= 64,
                table.len() == i,
                forall|s: int, t: int|
                    #![trigger table[s].has(t)]
                    0 <= s < i ==> table[s].has(t) == king_reach(s, t),
            decreases 64 - i,
        {
            table.push(king_attacks(Square::new(i)));
            i += 1;
        }
        KingTable { table }
    }

    /// The squares that a king on `sq` attacks.
    pub fn attacks(&self, sq: Square) -> (r: SquareSet)
        ensures
            r == self.held(sq.idx()),
            forall|t: int| #[trigger] r.has(t) == king_reach(sq.idx(), t),
    {
        proof {
            use_type_invariant(self);
        }
        self.table[sq.as_u8() as usize]
    }
}

/// The knight's attacks from every square, worked out once.
pub struct KnightTable {
    table: Vec<SquareSet>,
}

impl KnightTable {
    /// The table holds, for each square, the squares attacked from it.
    #[verifier::type_invariant]
    pub closed spec fn filled(self) -> bool {
        &&& self.table.len() == 64
        &&& forall|s: int, t: int|
            #![trigger self.table[s].has(t)]
            0 <= s < 64 ==> self.table[s].has(t) == knight_reach(s, t)
    }

    /// The squares that the table holds for the square with index `sq`.
    pub closed spec fn held(self, sq: int) -> SquareSet {
        self.table[sq]
    }

    /// The table of the knight's attacks: for each square, the squares two
    /// steps one way and one step the other from it.
    pub fn new() -> (kt: KnightTable)
        ensures
            forall|s: int, t: int|
                #![trigger kt.held(s).has(t)]
                0 <= s < 64 ==> kt.held(s).has(t) == knight_reach(s, t),
    {
        let mut table: Vec<SquareSet> = Vec::new();
        let mut i: u8 = 0;
        while i < 64
            invariant
                i <= 64,
                table.len() == i,
                forall|s: int, t: int|
                    #![trigger table[s].has(t)]
                    0 <= s < i ==> table[s].has(t) == knight_reach(s, t),
            decreases 64 - i,
        {
            table.push(knight_attacks(Square::new(i)));
            i += 1;
        }
        KnightTable { table }
    }

    /// The squares that a knight on `sq` attacks.
    pub fn attacks(&self, sq: Square) -> (r: SquareSet)
        ensures
            r == self.held(sq.idx()),
            forall|t: int| #[trigger] r.has(t) == knight_reach(sq.idx(), t),
    {
        proof {
            use_type_invariant(self);
        }
        self.table[sq.as_u8() as usize]
    }
}

/// The pawn's attacks from every square for either color, worked out once.
pub struct PawnTable {
    table: Vec<SquareSet>,
}

impl PawnTable {
    /// The table holds, for each square, the squares attacked from it.
    #[verifier::type_invariant]
    pub closed spec fn filled(self) -> bool {
        &&& self.table.len() == 128
        &&& forall|s: int, t: int|
            #![trigger self.table[2 * s].has(t)]
            0 <= s < 64 ==> self.table[2 * s].has(t) == pawn_reach(s, Color::White, t)
        &&& forall|s: int, t: int|
            #![trigger self.table[2 * s + 1].has(t)]
            0 <= s < 64 ==> self.table[2 * s + 1].has(t) == pawn_reach(s, Color::Black, t)
    }

    /// The squares that the table holds for the square with index `sq` and the color.
    pub closed spec fn held(self, sq: int, color: Color) -> SquareSet {
        match color {
            Color::White => self.table[2 * sq],
            Color::Black => self.table[2 * sq + 1],
        }
    }

    /// The table of the pawn's attacks: for each square and color, the
    /// squares one rank forward and one file to either side; none for a
    /// square on the color's last rank.
    pub fn new() -> (pt: PawnTable)
        ensures
            forall|s: int, color: Color, t: int|
                #![trigger pt.held(s, color).has(t)]
                0 <= s < 64 ==> pt.held(s, color).has(t) == pawn_reach(s, color, t),
    {
        let mut table: Vec<SquareSet> = Vec::new();
        let mut i: u8 = 0;
        while i < 64
            invariant
                i <= 64,
                table.len() == 2 * i,
                forall|s: int, t: int|
                    #![trigger table[2 * s].has(t)]
                    0 <= s < i ==> table[2 * s].has(t) == pawn_reach(s, Color::White, t),
                forall|s: int, t: int|
                    #![trigger table[2 * s + 1].has(t)]
                    0 <= s < i ==> table[2 * s + 1].has(t) == pawn_reach(s, Color::Black, t),
            decreases 64 - i,
        {
            let ghost before = table@;
            table.push(pawn_attacks(Square::new(i), Color::White));
            table.push(pawn_attacks(Square::new(i), Color::Black));
            proof {
                assert forall|s: int, t: int| #![trigger table[2 * s].has(t)] 0 <= s < i + 1 implies table[2
                    * s].has(t) == pawn_reach(s, Color::White, t) by {
                    if s < i {
                        assert(table[2 * s] == before[2 * s]);
                    }
                }
                assert forall|s: int, t: int| #![trigger table[2 * s + 1].has(t)] 0 <= s < i
                    + 1 implies table[2 * s + 1].has(t) == pawn_reach(s, Color::Black, t) by {
                    if s < i {
                        assert(table[2 * s + 1] == before[2 * s + 1]);
                    }
                }
            }
            i += 1;
        }
        let pt = PawnTable { table };
        proof {
            assert forall|s: int, color: Color, t: int|
                #![trigger pt.held(s, color).has(t)]
                0 <= s < 64 implies pt.held(s, color).has(t) == pawn_reach(s, color, t) by {
                assert(table[2 * s].has(t) == pawn_reach(s, Color::White, t));
                assert(table[2 * s + 1].has(t) == pawn_reach(s, Color::Black, t));
            }
        }
        pt
    }

    /// The squares that a pawn of the color on `sq` attacks.
    pub fn attacks(&self, sq: Square, color: Color) -> (r: SquareSet)
        ensures
            r == self.held(sq.idx(), color),
            forall|t: int| #[trigger] r.has(t) == pawn_reach(sq.idx(), color, t),
    {
        proof {
            use_type_invariant(self);
        }
        let s = sq.as_u8() as usize;
        match color {
            Color::White => {
                let r = self.table[2 * s];
                assert forall|t: int| #[trigger] r.has(t) == pawn_reach(sq.idx(), color, t) by {
                    assert(self.table[2 * (s as int)].has(t) == pawn_reach(
                        s as int,
                        Color::White,
                        t,
                    ));
                }
                r
            },
            Color::Black => {
                let r = self.table[2 * s + 1];
                assert forall|t: int| #[trigger] r.has(t) == pawn_reach(sq.idx(), color, t) by {
                    assert(self.table[2 * (s as int) + 1].has(t) == pawn_reach(
                        s as int,
                        Color::Black,
                        t,
                    ));
                }
                r
            },
        }
    }
}

/// The direction with the given number, clockwise from North = 0.
pub open spec fn direction_of(i: int) -> Direction {
    if i == 0 {
        Direction::North
    } else if i == 1 {
        Direction::NorthEast
    } else if i == 2 {
        Direction::East
    } else if i == 3 {
        Direction::SouthEast
    } else if i == 4 {
        Direction::South
    } else if i == 5 {
        Direction::SouthWest
    } else if i == 6 {
        Direction::West
    } else {
        Direction::NorthWest
    }
}

/// The rays from every square in every direction to the edge of the board,
/// worked out once; and for the number 64, which stands for no square, eight
/// empty rays.
pub struct RayTable {
    table: Vec<SquareSet>,
}

impl RayTable {
    /// The table holds, for each square, the squares attacked from it.
    #[verifier::type_invariant]
    pub closed spec fn filled(self) -> bool {
        &&& self.table.len() == 520
        &&& forall|e: int, t: int|
            #![trigger self.table[e].has(t)]
            0 <= e < 520 ==> self.table[e].has(t) == (e < 512 && ray_reach(
                e / 8,
                direction_of(e % 8),
                t,
            ))
    }

    /// The ray that the table holds for the square with index `sq` and the
    /// direction; for the index 64, which stands for no square, an empty one.
    pub closed spec fn held(self, sq: int, dir: Direction) -> SquareSet {
        self.table[sq * 8 + dir.ordinal()]
    }

    /// The table of the rays: for each square and direction, the squares
    /// from the one next to the square to the edge of the board; and for the
    /// index 64 no square at all.
    pub fn new() -> (rt: RayTable)
        ensures
            forall|s: int, dir: Direction, t: int|
                #![trigger rt.held(s, dir).has(t)]
                0 <= s <= 64 ==> rt.held(s, dir).has(t) == (s < 64 && ray_reach(s, dir, t)),
    {
        let directions = [
            Direction::North,
            Direction::NorthEast,
            Direction::East,
            Direction::SouthEast,
            Direction::South,
            Direction::SouthWest,
            Direction::West,
            Direction::NorthWest,
        ];
        let mut table: Vec<SquareSet> = Vec::new();
        let mut e: usize = 0;
        while e < 520
            invariant
                e <= 520,
                table.len() == e,
                forall|i: int| 0 <= i < 8 ==> #[trigger] directions[i] == direction_of(i),
                forall|j: int, t: int|
                    #![trigger table[j].has(t)]
                    0 <= j < e ==> table[j].has(t) == (j < 512 && ray_reach(
                        j / 8,
                        direction_of(j % 8),
                        t,
                    )),
            decreases 520 - e,
        {
            if e < 512 {
                let sq = Square::new((e / 8) as u8);
                let dir = directions[e % 8];
                let ray = ray_attacks(sq, SquareSet::empty(), dir);
                proof {
                    assert forall|t: int| #[trigger] ray.has(t) == ray_reach(sq.idx(), dir, t) by {
                        lemma_ray_is_open_slide(sq.idx(), dir, t);
                    }
                }
                table.push(ray);
            } else {
                table.push(SquareSet::empty());
            }
            e += 1;
        }
        let rt = RayTable { table };
        proof {
            assert forall|s: int, dir: Direction, t: int|
                #![trigger rt.held(s, dir).has(t)]
                0 <= s <= 64 implies rt.held(s, dir).has(t) == (s < 64 && ray_reach(s, dir, t)) by {
                let e = s * 8 + dir.ordinal();
                assert(e / 8 == s && e % 8 == dir.ordinal());
                assert(direction_of(dir.ordinal()) == dir);
                assert(table[e].has(t) == (e < 512 && ray_reach(e / 8, direction_of(e % 8), t)));
            }
        }
        rt
    }

    /// The ray from the square with index `sq` in the given direction; no
    /// square for the index 64.
    pub fn attacks(&self, sq: usize, dir: Direction) -> (r: SquareSet)
        requires
            sq <= 64,
        ensures
            r == self.held(sq as int, dir),
            forall|t: int| #[trigger] r.has(t) == (sq < 64 && ray_reach(sq as int, dir, t)),
    {
        proof {
            use_type_invariant(self);
        }
        let e = sq * 8 + dir.index();
        let r = self.table[e];
        assert forall|t: int| #[trigger] r.has(t) == (sq < 64 && ray_reach(sq as int, dir, t)) by {
            assert(self.table[e as int].has(t) == (e < 512 && ray_reach(
                e as int / 8,
                direction_of(e as int % 8),
                t,
            )));
        }
        r
    }

    /// The squares that a slider on `sq` attacks along a direction of rising
    /// index: the ray from `sq`, less the ray from the nearest occupied square
    /// of it, which is the one of lowest index.
    pub fn positive_ray_attacks(&self, sq: Square, occupancy: SquareSet, dir: Direction) -> (r:
        SquareSet)
        requires
            dir.vector() > 0,
        ensures
            forall|t: int| #[trigger] r.has(t) == slide_reach(sq.idx(), dir, occupancy@, t),
    {
        let ray = self.attacks(sq.as_u8() as usize, dir);
        let blockers = ray.and(occupancy);
        let blocking_square = blockers.lowest();
        let blocking_ray = self.attacks(blocking_square, dir);
        let r = ray.xor(blocking_ray);
        proof {
            let b = blocking_square as int;
            assert forall|t: int| blockers.has(t) == (ray_reach(sq.idx(), dir, t)
                && occupancy.has(t)) by {
                assert(ray.has(t) == ray_reach(sq.idx(), dir, t));
            }
            assert(b == 64 <==> forall|t: int|
                !(ray_reach(sq.idx(), dir, t) && occupancy.has(t))) by {
                if b == 64 {
                    assert forall|t: int| !(ray_reach(sq.idx(), dir, t) && occupancy.has(t)) by {
                        assert(!blockers.has(t));
                    }
                } else {
                    assert(blockers.has(b));
                }
            }
            assert forall|t: int| (dir.vector() > 0 && t < b) || (dir.vector() < 0 && b < 64 && t
                > b) implies !(ray_reach(sq.idx(), dir, t) && occupancy.has(t)) by {
                assert(!blockers.has(t));
            }
            lemma_nearest_blocker(sq.idx(), dir, occupancy, b);
            assert forall|t: int| #[trigger] r.has(t) == slide_reach(
                sq.idx(),
                dir,
                occupancy@,
                t,
            ) by {
                lemma_ray_blocking(sq.idx(), dir, occupancy@, blocking_square as int, t);
            }
        }
        r
    }

    /// The squares that a slider on `sq` attacks along a direction of falling
    /// index: the ray from `sq`, less the ray from the nearest occupied square
    /// of it, which is the one of highest index.
    pub fn negative_ray_attacks(&self, sq: Square, occupancy: SquareSet, dir: Direction) -> (r:
        SquareSet)
        requires
            dir.vector() < 0,
        ensures
            forall|t: int| #[trigger] r.has(t) == slide_reach(sq.idx(), dir, occupancy@, t),
    {
        let ray = self.attacks(sq.as_u8() as usize, dir);
        let blockers = ray.and(occupancy);
        let blocking_square = blockers.highest();
        let blocking_ray = self.attacks(blocking_square, dir);
        let r = ray.xor(blocking_ray);
        proof {
            let b = blocking_square as int;
            assert forall|t: int| blockers.has(t) == (ray_reach(sq.idx(), dir, t)
                && occupancy.has(t)) by {
                assert(ray.has(t) == ray_reach(sq.idx(), dir, t));
            }
            assert(b == 64 <==> forall|t: int|
                !(ray_reach(sq.idx(), dir, t) && occupancy.has(t))) by {
                if b == 64 {
                    assert forall|t: int| !(ray_reach(sq.idx(), dir, t) && occupancy.has(t)) by {
                        assert(!blockers.has(t));
                    }
                } else {
                    assert(blockers.has(b));
                }
            }
            assert forall|t: int| (dir.vector() > 0 && t < b) || (dir.vector() < 0 && b < 64 && t
                > b) implies !(ray_reach(sq.idx(), dir, t) && occupancy.has(t)) by {
                assert(!blockers.has(t));
            }
            lemma_nearest_blocker(sq.idx(), dir, occupancy, b);
            assert forall|t: int| #[trigger] r.has(t) == slide_reach(
                sq.idx(),
                dir,
                occupancy@,
                t,
            ) by {
                lemma_ray_blocking(sq.idx(), dir, occupancy@, blocking_square as int, t);
            }
        }
        r
    }

    /// The squares that a bishop on `sq` attacks, by the rays of the table.
    pub fn bishop_attacks(&self, sq: Square, occupancy: SquareSet) -> (r: SquareSet)
        ensures
            forall|t: int| #[trigger] r.has(t) == bishop_reach(sq.idx(), occupancy@, t),
    {
        let nw = self.positive_ray_attacks(sq, occupancy, Direction::NorthWest);
        let se = self.negative_ray_attacks(sq, occupancy, Direction::SouthEast);
        let ne = self.positive_ray_attacks(sq, occupancy, Direction::NorthEast);
        let sw = self.negative_ray_attacks(sq, occupancy, Direction::SouthWest);
        nw.or(se).or(ne.or(sw))
    }

    /// The squares that a rook on `sq` attacks, by the rays of the table.
    pub fn rook_attacks(&self, sq: Square, occupancy: SquareSet) -> (r: SquareSet)
        ensures
            forall|t: int| #[trigger] r.has(t) == rook_reach(sq.idx(), occupancy@, t),
    {
        let n = self.positive_ray_attacks(sq, occupancy, Direction::North);
        let s = self.negative_ray_attacks(sq, occupancy, Direction::South);
        let e = self.positive_ray_attacks(sq, occupancy, Direction::East);
        let w = self.negative_ray_attacks(sq, occupancy, Direction::West);
        n.or(s).or(e.or(w))
    }

    /// The squares that a queen on `sq` attacks, by the rays of the table.
    pub fn queen_attacks(&self, sq: Square, occupancy: SquareSet) -> (r: SquareSet)
        ensures
            forall|t: int| #[trigger] r.has(t) == queen_reach(sq.idx(), occupancy@, t),
    {
        self.bishop_attacks(sq, occupancy).or(self.rook_attacks(sq, occupancy))
    }
}

/// Whether `b` is the occupied square of the ray that is nearest to `s`;
/// 64 stands for a ray without an occupied square.
pub open spec fn nearest_blocker(s: int, d: Direction, occ: Set<int>, b: int) -> bool {
    if b == 64 {
        forall|t: int| ray_reach(s, d, t) ==> !occ.contains(t)
    } else {
        exists|k: int|
            1 <= k < 8 && on_ray(s, d, k) && b == #[trigger] ray_square(s, d, k) && occ.contains(b)
                && clear_before(s, d, occ, k)
    }
}

/// The steps along a ray lead to squares of rising index where the
/// direction's vector is positive, of falling index where it is negative, and
/// never twice to the same square.
pub proof fn lemma_ray_order(s: int, d: Direction, j: int, k: int)
    requires
        0 <= j < k,
    ensures
        d.vector() > 0 ==> ray_square(s, d, j) < ray_square(s, d, k),
        d.vector() < 0 ==> ray_square(s, d, j) > ray_square(s, d, k),
        ray_square(s, d, j) != ray_square(s, d, k),
{
}

/// The ray from a square of a ray goes on where the steps to that square
/// end: it holds the squares of the ray that lie beyond it.
pub proof fn lemma_ray_beyond(s: int, d: Direction, k: int, t: int)
    requires
        1 <= k < 8,
        on_ray(s, d, k),
    ensures
        ray_reach(ray_square(s, d, k), d, t) == (exists|n: int|
            k < n < 8 && on_ray(s, d, n) && t == #[trigger] ray_square(s, d, n)),
{
    let b = ray_square(s, d, k);
    lemma_ray_square(s, d, k);
    if ray_reach(b, d, t) {
        let m = choose|m: int| 1 <= m < 8 && on_ray(b, d, m) && t == #[trigger] ray_square(b, d, m);
        let n = k + m;
        assert(on_ray(s, d, n));
        assert(n < 8);
        assert(t == ray_square(s, d, n));
    }
    if exists|n: int| k < n < 8 && on_ray(s, d, n) && t == #[trigger] ray_square(s, d, n) {
        let n = choose|n: int| k < n < 8 && on_ray(s, d, n) && t == #[trigger] ray_square(s, d, n);
        let m = n - k;
        assert(on_ray(b, d, m));
        assert(t == ray_square(b, d, m));
    }
}

/// The square of lowest index among the occupied squares of a ray of
/// rising index is the nearest, and so is the square of highest index among
/// those of a ray of falling index.
pub proof fn lemma_nearest_blocker(s: int, d: Direction, occupancy: SquareSet, b: int)
    requires
        0 <= s < 64,
        0 <= b <= 64,
        b == 64 <==> forall|t: int| !(ray_reach(s, d, t) && occupancy.has(t)),
        b < 64 ==> ray_reach(s, d, b) && occupancy.has(b),
        d.vector() > 0 ==> forall|t: int| t < b ==> !(ray_reach(s, d, t) && occupancy.has(t)),
        d.vector() < 0 ==> forall|t: int|
            b < 64 && t > b ==> !(ray_reach(s, d, t) && occupancy.has(t)),
        d.vector() != 0,
    ensures
        nearest_blocker(s, d, occupancy@, b),
{
    if b < 64 {
        let k = choose|k: int| 1 <= k < 8 && on_ray(s, d, k) && b == #[trigger] ray_square(s, d, k);
        assert forall|j: int| 1 <= j < k implies !occupancy@.contains(
            #[trigger] ray_square(s, d, j),
        ) by {
            lemma_on_ray_prefix(s, d, k, j);
            lemma_ray_order(s, d, j, k);
            let t = ray_square(s, d, j);
            assert(ray_reach(s, d, t));
        }
        assert(clear_before(s, d, occupancy@, k));
    }
}

/// What a slider attacks along a ray is the ray less the ray from the
/// nearest occupied square; the whole ray where no square of it is occupied.
pub proof fn lemma_ray_blocking(s: int, d: Direction, occ: Set<int>, b: int, t: int)
    requires
        nearest_blocker(s, d, occ, b),
    ensures
        slide_reach(s, d, occ, t) == (ray_reach(s, d, t) != (b != 64 && ray_reach(b, d, t))),
{
    if b == 64 {
        if ray_reach(s, d, t) {
            let k = choose|k: int| 1 <= k < 8 && on_ray(s, d, k) && t == #[trigger] ray_square(s, d, k);
            assert forall|j: int| 1 <= j < k implies !occ.contains(#[trigger] ray_square(s, d, j)) by {
                lemma_on_ray_prefix(s, d, k, j);
                assert(ray_reach(s, d, ray_square(s, d, j)));
            }
            assert(clear_before(s, d, occ, k));
        }
    } else {
        let kb = choose|k: int|
            1 <= k < 8 && on_ray(s, d, k) && b == #[trigger] ray_square(s, d, k) && occ.contains(b)
                && clear_before(s, d, occ, k);
        lemma_ray_square(s, d, kb);
        lemma_ray_beyond(s, d, kb, t);
        if slide_reach(s, d, occ, t) {
            let k = choose|k: int|
                1 <= k < 8 && on_ray(s, d, k) && t == #[trigger] ray_square(s, d, k)
                    && clear_before(s, d, occ, k);
            // The occupied square does not lie before `t`.
            if k > kb {
                assert(!occ.contains(ray_square(s, d, kb)));
            }
            if ray_reach(b, d, t) {
                let n = choose|n: int|
                    kb < n < 8 && on_ray(s, d, n) && t == #[trigger] ray_square(s, d, n);
                lemma_ray_order(s, d, k, n);
            }
        }
        if ray_reach(s, d, t) && !ray_reach(b, d, t) {
            let k = choose|k: int| 1 <= k < 8 && on_ray(s, d, k) && t == #[trigger] ray_square(s, d, k);
            if k > kb {
                assert(kb < k < 8 && on_ray(s, d, k) && t == ray_square(s, d, k));
            }
            assert forall|j: int| 1 <= j < k implies !occ.contains(#[trigger] ray_square(s, d, j)) by {
                assert(j < kb);
            }
            assert(clear_before(s, d, occ, k));
        }
    }
}

} // verus!
