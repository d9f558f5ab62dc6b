//! Sets of squares, held as 64-bit boards: bit `i` is set exactly when
//! square `i` is in the set.

use crate::bits::{
    bit, lemma_bit_masks, lemma_bit_ops, lemma_bit_shifts, lemma_bit_single, lemma_low_bit,
    lemma_lowest_bit, lemma_test_bit, single, FIRST_FILE, FIRST_RANK,
};
use crate::types::{Direction, File, Rank, Square};
use vstd::prelude::*;
use vstd::std_specs::bits::*;

verus! {

/// A set of squares of the chessboard.
#[derive(Copy, Clone, Debug, PartialEq, Eq, Hash, Structural)]
pub struct SquareSet {
    bits: u64,
}

/// Gives out the squares of a [`SquareSet`], lowest index first.
#[derive(Copy, Clone, Debug)]
pub struct SquareSetIterator {
    bits: u64,
}

/// How many of the bits of `a` below bit `n` are set.
pub open spec fn count_below(a: u64, n: int) -> nat
    decreases n,
{
    if n <= 0 {
        0
    } else {
        count_below(a, n - 1) + if bit(a, n - 1) {
            1nat
        } else {
            0nat
        }
    }
}

/// The indices below `n` of the set bits of `a`.
pub open spec fn bits_below(a: u64, n: int) -> Set<int> {
    Set::new(|i: int| i < n && bit(a, i))
}

/// The set bits below `n` are as many as are counted.
pub proof fn lemma_count_is_cardinality(a: u64, n: int)
    requires
        0 <= n <= 64,
    ensures
        bits_below(a, n).finite(),
        bits_below(a, n).len() == count_below(a, n),
        count_below(a, n) <= n,
    decreases n,
{
    if n == 0 {
        assert(bits_below(a, 0) =~= Set::<int>::empty());
    } else {
        lemma_count_is_cardinality(a, n - 1);
        if bit(a, n - 1) {
            assert(bits_below(a, n) =~= bits_below(a, n - 1).insert(n - 1));
        } else {
            assert(bits_below(a, n) =~= bits_below(a, n - 1));
        }
    }
}

/// How many of the numbers below `n` the predicate holds of.
pub open spec fn count_where(pred: spec_fn(int) -> bool, n: int) -> nat
    decreases n,
{
    if n <= 0 {
        0
    } else {
        count_where(pred, n - 1) + if pred(n - 1) {
            1nat
        } else {
            0nat
        }
    }
}

/// Counting the set bits counts the indices of which a predicate holds
/// that holds of exactly the indices of the set bits.
pub proof fn lemma_count_where(a: u64, pred: spec_fn(int) -> bool, n: int)
    requires
        0 <= n <= 64,
        forall|i: int| 0 <= i < n ==> (bit(a, i) <==> #[trigger] pred(i)),
    ensures
        count_below(a, n) == count_where(pred, n),
        count_where(pred, n) <= n,
    decreases n,
{
    if n > 0 {
        lemma_count_where(a, pred, n - 1);
    }
}

/// Two predicates that hold of the same numbers below `n` count the same.
pub proof fn lemma_count_where_same(p: spec_fn(int) -> bool, q: spec_fn(int) -> bool, n: int)
    requires
        forall|i: int| 0 <= i < n ==> (#[trigger] p(i) <==> #[trigger] q(i)),
    ensures
        count_where(p, n) == count_where(q, n),
        count_where(p, n) <= if n < 0 { 0 } else { n },
    decreases n,
{
    if n > 0 {
        lemma_count_where_same(p, q, n - 1);
    }
}

/// A predicate that holds of one number more than another counts one more.
pub proof fn lemma_count_where_one_more(
    p: spec_fn(int) -> bool,
    q: spec_fn(int) -> bool,
    k: int,
    n: int,
)
    requires
        0 <= k < n,
        p(k),
        !q(k),
        forall|i: int| 0 <= i < n && i != k ==> (#[trigger] p(i) <==> #[trigger] q(i)),
    ensures
        count_where(p, n) == count_where(q, n) + 1,
    decreases n,
{
    if n - 1 == k {
        lemma_count_where_same(p, q, n - 1);
    } else {
        lemma_count_where_one_more(p, q, k, n - 1);
    }
}

/// A predicate that holds of no number below `n` counts nothing.
pub proof fn lemma_count_where_none(p: spec_fn(int) -> bool, n: int)
    requires
        forall|i: int| 0 <= i < n ==> !#[trigger] p(i),
    ensures
        count_where(p, n) == 0,
    decreases n,
{
    if n > 0 {
        lemma_count_where_none(p, n - 1);
    }
}

impl View for SquareSet {
    type V = Set<int>;

    /// The indices of the squares in the set.
    open spec fn view(&self) -> Set<int> {
        Set::new(|i: int| self.has(i))
    }
}

impl SquareSet {
    /// The board of bits that holds the set.
    pub closed spec fn raw(self) -> u64 {
        self.bits
    }

    /// The set held by a board of bits, in specifications.
    pub closed spec fn of_raw(bits: u64) -> SquareSet {
        SquareSet { bits }
    }

    /// Whether the square with index `i` is in the set.
    pub open spec fn has(self, i: int) -> bool {
        bit(self.raw(), i)
    }

    /// Whether no square is in the set.
    pub open spec fn none(self) -> bool {
        forall|i: int| !self.has(i)
    }

    /// The set is finite and has at most 64 members, all of them indices of squares.
    pub proof fn lemma_view(self)
        ensures
            self@.finite(),
            self@.len() <= 64,
            self@.len() == count_below(self.raw(), 64),
            forall|i: int| self@.contains(i) <==> self.has(i),
            forall|i: int| self.has(i) ==> 0 <= i < 64,
            self.raw() == 0 <==> self.none(),
    {
        lemma_count_is_cardinality(self.raw(), 64);
        assert(self@ =~= bits_below(self.raw(), 64));
        if self.raw() != 0 {
            broadcast use axiom_u64_trailing_zeros;

            let t = u64_trailing_zeros(self.raw());
            assert(self.has(t as int));
        } else {
            assert forall|i: int| !self.has(i) by {
                if 0 <= i < 64 {
                    lemma_bit_ops(0, 0, i as u64);
                }
            }
        }
    }

    /// The number of squares in the set is the number of squares of which
    /// a predicate holds that holds of exactly the squares in the set.
    pub proof fn lemma_len_counts(self, pred: spec_fn(int) -> bool)
        requires
            forall|i: int| 0 <= i < 64 ==> (self.has(i) <==> #[trigger] pred(i)),
        ensures
            self@.len() == count_where(pred, 64),
    {
        self.lemma_view();
        lemma_count_where(self.raw(), pred, 64);
    }

    /// Sets that hold the same squares are the same set.
    pub proof fn lemma_same_squares(self, other: SquareSet)
        requires
            forall|i: int| 0 <= i < 64 ==> self.has(i) == other.has(i),
        ensures
            self == other,
    {
        assert forall|i: int| 0 <= i < 64 implies bit(self.bits, i) == bit(other.bits, i) by {
            assert(self.has(i) == other.has(i));
        }
        crate::bits::lemma_same_bits(self.bits, other.bits);
    }

    /// The set of no squares.
    pub fn empty() -> (s: SquareSet)
        ensures
            s.raw() == 0,
            s.none(),
            s@ == Set::<int>::empty(),
    {
        let s = SquareSet { bits: 0 };
        proof {
            s.lemma_view();
            assert(s@ =~= Set::<int>::empty());
        }
        s
    }

    /// The set of all 64 squares.
    pub fn all() -> (s: SquareSet)
        ensures
            s.raw() == 0xFFFF_FFFF_FFFF_FFFF,
            forall|i: int| s.has(i) <==> 0 <= i < 64,
    {
        let s = SquareSet { bits: 0xFFFF_FFFF_FFFF_FFFF };
        proof {
            assert forall|i: int| s.has(i) <==> 0 <= i < 64 by {
                if 0 <= i < 64 {
                    lemma_bit_ops(0, 0, i as u64);
                }
            }
        }
        s
    }

    /// The set held by the given board of bits.
    pub fn from_bits(bits: u64) -> (s: SquareSet)
        ensures
            s.raw() == bits,
            s == SquareSet::of_raw(bits),
    {
        SquareSet { bits }
    }

    /// Whether the square is in the set.
    pub fn contains(&self, square: Square) -> (r: bool)
        ensures
            r == self.has(square.idx()),
            r == self@.contains(square.idx()),
    {
        let s = square.as_u8();
        proof {
            lemma_test_bit(self.bits, s as u64);
        }
        self.bits & (1u64 << s) != 0
    }

    /// Puts the square into the set.
    pub fn insert(&mut self, square: Square)
        ensures
            final(self).raw() == old(self).raw() | single(square.idx() as u64),
            forall|i: int| final(self).has(i) == (old(self).has(i) || i == square.idx()),
            final(self)@ == old(self)@.insert(square.idx()),
    {
        let s = square.as_u8();
        let ghost before = *self;
        self.bits |= 1u64 << s;
        proof {
            let after = *self;
            assert forall|i: int| after.has(i) == (before.has(i) || i == square.idx()) by {
                if 0 <= i < 64 {
                    lemma_bit_ops(before.bits, single(s as u64), i as u64);
                    lemma_bit_single(s as u64, i as u64);
                }
            }
            assert(after@ =~= before@.insert(square.idx()));
        }
    }

    /// Takes the square out of the set.
    pub fn remove(&mut self, square: Square)
        ensures
            final(self).raw() == old(self).raw() & !single(square.idx() as u64),
            forall|i: int| final(self).has(i) == (old(self).has(i) && i != square.idx()),
            final(self)@ == old(self)@.remove(square.idx()),
    {
        let s = square.as_u8();
        let ghost before = *self;
        self.bits &= !(1u64 << s);
        proof {
            let after = *self;
            assert forall|i: int| after.has(i) == (before.has(i) && i != square.idx()) by {
                if 0 <= i < 64 {
                    lemma_bit_ops(before.bits, !single(s as u64), i as u64);
                    lemma_bit_ops(single(s as u64), 0, i as u64);
                    lemma_bit_single(s as u64, i as u64);
                }
            }
            assert(after@ =~= before@.remove(square.idx()));
        }
    }

    /// The number of squares in the set.
    pub fn len(&self) -> (n: u32)
        ensures
            n == self@.len(),
            n <= 64,
    {
        let mut n: u32 = 0;
        let mut i: u32 = 0;
        while i < 64
            invariant
                i <= 64,
                n == count_below(self.bits, i as int),
                n <= i,
            decreases 64 - i,
        {
            if (self.bits >> i) & 1 == 1 {
                n += 1;
            }
            i += 1;
        }
        proof {
            self.lemma_view();
        }
        n
    }

    /// Whether no square is in the set.
    pub fn is_empty(&self) -> (r: bool)
        ensures
            r == (self.raw() == 0),
            r == self.none(),
            r == (self@ == Set::<int>::empty()),
    {
        proof {
            self.lemma_view();
            if self.none() {
                assert(self@ =~= Set::<int>::empty());
            }
        }
        self.bits == 0
    }

    /// The squares that are in both sets.
    pub fn and(self, other: SquareSet) -> (r: SquareSet)
        ensures
            r.raw() == self.raw() & other.raw(),
            forall|i: int| #[trigger] r.has(i) == (self.has(i) && other.has(i)),
            r@ == self@.intersect(other@),
    {
        let r = SquareSet { bits: self.bits & other.bits };
        proof {
            assert forall|i: int| #[trigger] r.has(i) == (self.has(i) && other.has(i)) by {
                if 0 <= i < 64 {
                    lemma_bit_ops(self.bits, other.bits, i as u64);
                }
            }
            assert(r@ =~= self@.intersect(other@));
        }
        r
    }

    /// The squares that are in either set.
    pub fn or(self, other: SquareSet) -> (r: SquareSet)
        ensures
            r.raw() == self.raw() | other.raw(),
            forall|i: int| #[trigger] r.has(i) == (self.has(i) || other.has(i)),
            r@ == self@.union(other@),
    {
        let r = SquareSet { bits: self.bits | other.bits };
        proof {
            assert forall|i: int| #[trigger] r.has(i) == (self.has(i) || other.has(i)) by {
                if 0 <= i < 64 {
                    lemma_bit_ops(self.bits, other.bits, i as u64);
                }
            }
            assert(r@ =~= self@.union(other@));
        }
        r
    }

    /// The squares of the board that are not in the set.
    pub fn not(self) -> (r: SquareSet)
        ensures
            r.raw() == !self.raw(),
            forall|i: int| #[trigger] r.has(i) == (0 <= i < 64 && !self.has(i)),
    {
        let r = SquareSet { bits: !self.bits };
        proof {
            assert forall|i: int| #[trigger] r.has(i) == (0 <= i < 64 && !self.has(i)) by {
                if 0 <= i < 64 {
                    lemma_bit_ops(self.bits, 0, i as u64);
                }
            }
        }
        r
    }

    /// The squares that are in exactly one of the two sets.
    pub fn xor(self, other: SquareSet) -> (r: SquareSet)
        ensures
            r.raw() == self.raw() ^ other.raw(),
            forall|i: int| #[trigger] r.has(i) == (self.has(i) != other.has(i)),
    {
        let r = SquareSet { bits: self.bits ^ other.bits };
        proof {
            assert forall|i: int| #[trigger] r.has(i) == (self.has(i) != other.has(i)) by {
                if 0 <= i < 64 {
                    lemma_bit_ops(self.bits, other.bits, i as u64);
                }
            }
        }
        r
    }

    /// The squares of the set that lie on the given rank.
    pub fn rank(self, rank: Rank) -> (r: SquareSet)
        ensures
            forall|i: int| #[trigger] r.has(i) == (self.has(i) && i / 8 == rank.idx()),
    {
        let k = rank.as_u8();
        let mask: u64 = FIRST_RANK << (8 * k);
        let r = SquareSet { bits: self.bits & mask };
        proof {
            assert forall|i: int| #[trigger] r.has(i) == (self.has(i) && i / 8 == rank.idx()) by {
                if 0 <= i < 64 {
                    lemma_bit_ops(self.bits, mask, i as u64);
                    lemma_bit_masks(k as u64, i as u64);
                }
            }
        }
        r
    }

    /// The squares of the set that lie on the given file.
    pub fn file(self, file: File) -> (r: SquareSet)
        ensures
            forall|i: int| #[trigger] r.has(i) == (self.has(i) && i % 8 == file.idx()),
    {
        let k = file.as_u8();
        let mask: u64 = FIRST_FILE << k;
        let r = SquareSet { bits: self.bits & mask };
        proof {
            assert forall|i: int| #[trigger] r.has(i) == (self.has(i) && i % 8 == file.idx()) by {
                if 0 <= i < 64 {
                    lemma_bit_ops(self.bits, mask, i as u64);
                    lemma_bit_masks(k as u64, i as u64);
                }
            }
        }
        r
    }

    /// Whether the square with index `i` is where a square of the set comes
    /// to lie after one step in the given direction.
    pub open spec fn shifted_has(self, direction: Direction, i: int) -> bool {
        let from = i - direction.vector();
        &&& 0 <= i < 64
        &&& self.has(from)
        &&& 0 <= from / 8 + direction.rank_step() < 8
        &&& 0 <= from % 8 + direction.file_step() < 8
    }

    /// Moves every square of the set one step in the given direction; the
    /// squares that would leave the board are dropped.
    pub fn shift(self, direction: Direction) -> (r: SquareSet)
        ensures
            forall|i: int| #[trigger] r.has(i) == self.shifted_has(direction, i),
    {
        let not_a: u64 = !FIRST_FILE;
        let not_h: u64 = !(FIRST_FILE << 7);
        let r = match direction {
            Direction::North => SquareSet { bits: self.bits << 8 },
            Direction::NorthEast => SquareSet { bits: (self.bits & not_h) << 9 },
            Direction::East => SquareSet { bits: (self.bits & not_h) << 1 },
            Direction::SouthEast => SquareSet { bits: (self.bits & not_h) >> 7 },
            Direction::South => SquareSet { bits: self.bits >> 8 },
            Direction::SouthWest => SquareSet { bits: (self.bits & not_a) >> 9 },
            Direction::West => SquareSet { bits: (self.bits & not_a) >> 1 },
            Direction::NorthWest => SquareSet { bits: (self.bits & not_a) << 7 },
        };
        proof {
            let v = direction.vector();
            let k: u64 = if v < 0 {
                (-v) as u64
            } else {
                v as u64
            };
            let masked: u64 = if direction.file_step() == 1 {
                self.bits & not_h
            } else if direction.file_step() == -1 {
                self.bits & not_a
            } else {
                self.bits
            };
            assert(FIRST_FILE << 0 == FIRST_FILE) by (bit_vector);
            assert forall|i: int| #[trigger] r.has(i) == self.shifted_has(direction, i) by {
                if 0 <= i < 64 {
                    lemma_bit_shifts(masked, k, i as u64);
                    let from = i - v;
                    if 0 <= from < 64 {
                        lemma_bit_ops(self.bits, not_h, from as u64);
                        lemma_bit_ops(self.bits, not_a, from as u64);
                        lemma_bit_ops(FIRST_FILE << 7, 0, from as u64);
                        lemma_bit_ops(FIRST_FILE, 0, from as u64);
                        lemma_bit_masks(7, from as u64);
                        lemma_bit_masks(0, from as u64);
                    }
                }
            }
        }
        r
    }

    /// The board of bits that holds the set.
    pub fn bits(self) -> (b: u64)
        ensures
            b == self.raw(),
    {
        self.bits
    }

    /// The lowest index of a square in the set; 64 where the set is empty.
    pub fn lowest(&self) -> (r: usize)
        ensures
            r <= 64,
            r == 64 <==> self.none(),
            r < 64 ==> self.has(r as int),
            forall|i: int| i < r ==> !self.has(i),
    {
        broadcast use axiom_u64_trailing_zeros;

        let t = self.bits.trailing_zeros();
        proof {
            self.lemma_view();
            if self.bits != 0 {
                assert(self.bits << ((64 - t) as u64) == 0);
                assert forall|i: int| i < t implies !self.has(i) by {
                    if 0 <= i {
                        lemma_lowest_bit(self.bits, t as u64, i as u64);
                    }
                }
            }
        }
        t as usize
    }

    /// The highest index of a square in the set; 64 where the set is empty.
    pub fn highest(&self) -> (r: usize)
        ensures
            r <= 64,
            r == 64 <==> self.none(),
            r < 64 ==> self.has(r as int),
            forall|i: int| r < 64 && i > r ==> !self.has(i),
    {
        broadcast use axiom_u64_leading_zeros;

        let z = self.bits.leading_zeros();
        proof {
            self.lemma_view();
        }
        if z >= 64 {
            64
        } else {
            let top = 63 - z;
            proof {
                lemma_low_bit(self.bits >> (top as u64));
                assert forall|i: int| i > top implies !self.has(i) by {
                    if i < 64 {
                        let j = i as u64;
                        assert((self.bits >> j) & 1u64 == 0u64);
                    }
                }
            }
            top as usize
        }
    }

    /// An iterator over the squares of the set, lowest index first.
    pub fn into_iter(self) -> (it: SquareSetIterator)
        ensures
            it.remaining() == self,
    {
        SquareSetIterator { bits: self.bits }
    }

    /// The squares of the set, lowest index first.
    pub fn to_vec(self) -> (v: Vec<Square>)
        ensures
            forall|k: int| 0 <= k < v.len() ==> self.has(#[trigger] v[k].idx()),
            forall|j: int, k: int| 0 <= j < k < v.len() ==> v[j].idx() < v[k].idx(),
            forall|i: int| self.has(i) ==> exists|k: int| 0 <= k < v.len() && v[k].idx() == i,
            v.len() <= 64,
    {
        let mut v: Vec<Square> = Vec::new();
        let mut it = self.into_iter();
        let ghost mut floor: int = 0;
        loop
            invariant
                0 <= floor <= 64,
                v.len() <= floor,
                forall|i: int|
                    #![trigger it.remaining().has(i)]
                    #![trigger self.has(i)]
                    it.remaining().has(i) == (self.has(i) && i >= floor),
                forall|k: int| 0 <= k < v.len() ==> self.has(#[trigger] v[k].idx()),
                forall|k: int| 0 <= k < v.len() ==> (#[trigger] v[k]).idx() < floor,
                forall|j: int, k: int| 0 <= j < k < v.len() ==> v[j].idx() < v[k].idx(),
                forall|i: int|
                    self.has(i) && i < floor ==> exists|k: int|
                        0 <= k < v.len() && v[k].idx() == i,
            ensures
                forall|k: int| 0 <= k < v.len() ==> self.has(#[trigger] v[k].idx()),
                forall|j: int, k: int| 0 <= j < k < v.len() ==> v[j].idx() < v[k].idx(),
                forall|i: int|
                    self.has(i) ==> exists|k: int| 0 <= k < v.len() && v[k].idx() == i,
                v.len() <= 64,
            decreases 64 - floor,
        {
            let ghost before = it.remaining();
            let ghost old_v = v@;
            let got = it.next();
            match got {
                None => {
                    assert forall|i: int| self.has(i) implies exists|k: int|
                        0 <= k < v.len() && v[k].idx() == i by {
                        assert(!before.has(i));
                    }
                    break ;
                },
                Some(sq) => {
                    v.push(sq);
                    proof {
                        let s = sq.idx();
                        assert(before.has(s));
                        assert(0 <= s < 64);
                        assert(s >= floor);
                        assert(v@ == old_v.push(sq));
                        assert forall|i: int| self.has(i) && i < s + 1 implies exists|k: int|
                            0 <= k < v.len() && v[k].idx() == i by {
                            if i < floor {
                                let k = choose|k: int| 0 <= k < old_v.len() && old_v[k].idx() == i;
                                assert(v[k].idx() == i);
                            } else {
                                assert(before.has(i));
                                assert(i == s);
                                assert(v[v.len() - 1].idx() == i);
                            }
                        }
                        floor = s + 1;
                    }
                },
            }
        }
        v
    }
}

impl SquareSetIterator {
    /// The squares that the iterator has yet to give out.
    pub closed spec fn remaining(self) -> SquareSet {
        SquareSet { bits: self.bits }
    }

    /// Gives out the square of lowest index that is left, if one is left.
    pub fn next(&mut self) -> (r: Option<Square>)
        ensures
            match r {
                None => old(self).remaining().none() && *final(self) == *old(self),
                Some(sq) => {
                    &&& old(self).remaining().has(sq.idx())
                    &&& forall|i: int|
                        i < sq.idx() ==> !#[trigger] old(self).remaining().has(i)
                    &&& forall|i: int|
                        #![trigger final(self).remaining().has(i)]
                        #![trigger old(self).remaining().has(i)]
                        final(self).remaining().has(i) == (old(self).remaining().has(i) && i
                            != sq.idx())
                },
            },
    {
        if self.bits == 0 {
            proof {
                self.remaining().lemma_view();
            }
            None
        } else {
            broadcast use axiom_u64_trailing_zeros;

            let ghost before = self.bits;
            let t: u32 = self.bits.trailing_zeros();
            assert(t < 64);
            self.bits = self.bits & (self.bits - 1);
            let sq = Square::new(t as u8);
            proof {
                assert(before << ((64 - t) as u64) == 0);
                assert forall|i: int|
                    self.remaining().has(i) == (SquareSet { bits: before }.has(i) && i
                        != sq.idx()) by {
                    if 0 <= i < 64 {
                        lemma_lowest_bit(before, t as u64, i as u64);
                    }
                }
                assert forall|i: int| i < sq.idx() implies !(SquareSet { bits: before }).has(i) by {
                    if 0 <= i < 64 {
                        lemma_lowest_bit(before, t as u64, i as u64);
                    }
                }
            }
            Some(sq)
        }
    }
}

/// The bits of the eight ranks and of the eight files.
pub const SS_RANK_1: u64 = 0x0000_0000_0000_00FF;
pub const SS_RANK_2: u64 = 0x0000_0000_0000_FF00;
pub const SS_RANK_3: u64 = 0x0000_0000_00FF_0000;
pub const SS_RANK_4: u64 = 0x0000_0000_FF00_0000;
pub const SS_RANK_5: u64 = 0x0000_00FF_0000_0000;
pub const SS_RANK_6: u64 = 0x0000_FF00_0000_0000;
pub const SS_RANK_7: u64 = 0x00FF_0000_0000_0000;
pub const SS_RANK_8: u64 = 0xFF00_0000_0000_0000;
pub const SS_FILE_A: u64 = 0x0101_0101_0101_0101;
pub const SS_FILE_B: u64 = 0x0202_0202_0202_0202;
pub const SS_FILE_C: u64 = 0x0404_0404_0404_0404;
pub const SS_FILE_D: u64 = 0x0808_0808_0808_0808;
pub const SS_FILE_E: u64 = 0x1010_1010_1010_1010;
pub const SS_FILE_F: u64 = 0x2020_2020_2020_2020;
pub const SS_FILE_G: u64 = 0x4040_4040_4040_4040;
pub const SS_FILE_H: u64 = 0x8080_8080_8080_8080;

} // verus!
