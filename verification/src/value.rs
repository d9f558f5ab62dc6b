//! Scores: centipawns in the middle of the range, and beyond them, towards
//! either end, the distances to a forced mate.

use crate::text::{push_decimal, string_of};
use core::cmp::Ordering;
use core::ops::{Add, Neg, Sub};
use vstd::prelude::*;
use vstd::std_specs::cmp::{PartialEqSpecImpl, PartialOrdSpecImpl};
use vstd::std_specs::ops::{AddSpecImpl, NegSpecImpl, SubSpecImpl};

verus! {

/// The lowest score that is not a mate score lies just above this.
pub const VALUE_MATED: i16 = -16383;

/// The highest score that is not a mate score lies just below this.
pub const VALUE_MATE: i16 = 16383;

/// Mates further away than this many plies are not told apart.
pub const MATE_DISTANCE_MAX: i16 = 50;

/// The score of a position. A score strictly between [`VALUE_MATED`] and
/// [`VALUE_MATE`] counts centipawns; a score above [`VALUE_MATE`] says that
/// the side it is given for mates, sooner the higher it is; a score below
/// [`VALUE_MATED`] that it is mated, sooner the lower it is.
#[derive(Copy, Clone, Debug, Eq, Hash)]
pub struct Value {
    score: i16,
}

/// A score taken apart.
#[derive(Copy, Clone, Debug, PartialEq, Eq, Structural)]
pub enum UnpackedValue {
    /// Mate in this many plies.
    MateIn(u16),
    /// Mated in this many plies.
    MatedIn(u16),
    /// A score in centipawns.
    Value(i16),
}

/// The number nearest to `x` that is no mate: `x` itself from the lowest
/// to the highest such number.
pub open spec fn plain_score(x: int) -> int {
    if x < VALUE_MATED {
        VALUE_MATED as int
    } else if x > VALUE_MATE {
        VALUE_MATE as int
    } else {
        x
    }
}

/// The number nearest to `x` that a sum of scores may be: what lies at or
/// beyond the two bounds gives the number next to the bound.
pub open spec fn clamp_centipawns(x: int) -> int {
    if x <= VALUE_MATED {
        VALUE_MATED + 1
    } else if x >= VALUE_MATE {
        VALUE_MATE - 1
    } else {
        x
    }
}

impl Value {
    /// Every score lies between the furthest mates.
    #[verifier::type_invariant]
    pub open spec fn in_range(self) -> bool {
        VALUE_MATED - MATE_DISTANCE_MAX <= self.raw() <= VALUE_MATE + MATE_DISTANCE_MAX
    }

    /// The score as a number.
    pub closed spec fn raw(self) -> int {
        self.score as int
    }

    /// The score with the given number, in specifications.
    pub closed spec fn of_raw(x: int) -> Value {
        Value { score: x as i16 }
    }

    /// The score with a number has that number.
    pub broadcast proof fn lemma_of_raw(x: int)
        requires
            -32768 <= x <= 32767,
        ensures
            #[trigger] Value::of_raw(x).raw() == x,
    {
    }

    /// A score is the score of its number, which fits in sixteen bits.
    pub broadcast proof fn lemma_raw_of(v: Value)
        ensures
            Value::of_raw(#[trigger] v.raw()) == v,
            -32768 <= v.raw() <= 32767,
    {
    }

    /// The score that says: mate in `ply` plies.
    pub open spec fn mate_score(ply: int) -> int {
        VALUE_MATE + MATE_DISTANCE_MAX - ply
    }

    /// The score that says: mated in `ply` plies.
    pub open spec fn mated_score(ply: int) -> int {
        VALUE_MATED - MATE_DISTANCE_MAX + ply
    }

    /// The score taken apart, in specifications.
    pub open spec fn unpacked(self) -> UnpackedValue {
        if self.raw() > VALUE_MATE {
            UnpackedValue::MateIn((VALUE_MATE + MATE_DISTANCE_MAX - self.raw()) as u16)
        } else if self.raw() < VALUE_MATED {
            UnpackedValue::MatedIn((self.raw() - VALUE_MATED + MATE_DISTANCE_MAX) as u16)
        } else {
            UnpackedValue::Value(self.raw() as i16)
        }
    }

    /// The score one ply further from the mate, in specifications: a mate
    /// score moves one step towards the centipawns, but stays a mate score;
    /// a score in centipawns stays as it is.
    pub open spec fn stepped(self) -> int {
        if self.raw() > VALUE_MATE + 1 {
            self.raw() - 1
        } else if self.raw() < VALUE_MATED - 1 {
            self.raw() + 1
        } else {
            self.raw()
        }
    }

    /// The score that says: the side it is given for mates in `ply` plies.
    pub fn mate_in(ply: i16) -> (v: Value)
        requires
            0 <= ply < MATE_DISTANCE_MAX,
        ensures
            v.raw() == Value::mate_score(ply as int),
            v == Value::of_raw(Value::mate_score(ply as int)),
            v.unpacked() == UnpackedValue::MateIn(ply as u16),
    {
        Value { score: VALUE_MATE + MATE_DISTANCE_MAX - ply }
    }

    /// The score that says: the side it is given for is mated in `ply` plies.
    pub fn mated_in(ply: i16) -> (v: Value)
        requires
            0 <= ply < MATE_DISTANCE_MAX,
        ensures
            v.raw() == Value::mated_score(ply as int),
            v == Value::of_raw(Value::mated_score(ply as int)),
            v.unpacked() == UnpackedValue::MatedIn(ply as u16),
    {
        Value { score: VALUE_MATED - MATE_DISTANCE_MAX + ply }
    }

    /// The score with the given number: the number itself from the lowest
    /// to the highest number that is no mate, and beyond them the nearer of
    /// the two.
    pub fn new(evaluation: i16) -> (v: Value)
        ensures
            v.raw() == plain_score(evaluation as int),
            v == Value::of_raw(plain_score(evaluation as int)),
            VALUE_MATED <= evaluation <= VALUE_MATE ==> v.raw() == evaluation,
    {
        if evaluation < VALUE_MATED {
            Value { score: VALUE_MATED }
        } else if evaluation > VALUE_MATE {
            Value { score: VALUE_MATE }
        } else {
            Value { score: evaluation }
        }
    }

    /// The score as a number.
    pub fn as_i16(self) -> (r: i16)
        ensures
            r == self.raw(),
            VALUE_MATED - MATE_DISTANCE_MAX <= r <= VALUE_MATE + MATE_DISTANCE_MAX,
    {
        proof {
            use_type_invariant(&self);
        }
        self.score
    }

    /// The score seen from one ply earlier: a mate is one ply further away,
    /// so that of two mates the shorter is preferred. The furthest mate that
    /// can be told stays as it is.
    pub fn step(self) -> (v: Value)
        ensures
            v.raw() == self.stepped(),
            v == Value::of_raw(self.stepped()),
    {
        proof {
            use_type_invariant(&self);
        }
        if self.score > VALUE_MATE + 1 {
            Value { score: self.score - 1 }
        } else if self.score < VALUE_MATED - 1 {
            Value { score: self.score + 1 }
        } else {
            self
        }
    }

    /// Takes the score apart.
    pub fn unpack(self) -> (u: UnpackedValue)
        ensures
            u == self.unpacked(),
    {
        proof {
            use_type_invariant(&self);
        }
        if self.score > VALUE_MATE {
            UnpackedValue::MateIn((VALUE_MATE + MATE_DISTANCE_MAX - self.score) as u16)
        } else if self.score < VALUE_MATED {
            UnpackedValue::MatedIn((self.score - VALUE_MATED + MATE_DISTANCE_MAX) as u16)
        } else {
            UnpackedValue::Value(self.score)
        }
    }

    /// The text of the score in the Universal Chess Interface, in specifications.
    pub open spec fn uci_text(self) -> Seq<char> {
        match self.unpacked() {
            UnpackedValue::MateIn(moves) => seq!['m', 'a', 't', 'e', ' '] + crate::text::decimal(
                moves as nat,
            ),
            UnpackedValue::MatedIn(moves) => seq!['m', 'a', 't', 'e', ' ', '-']
                + crate::text::decimal(moves as nat),
            UnpackedValue::Value(value) => if value < 0 {
                seq!['c', 'p', ' ', '-'] + crate::text::decimal((-value) as nat)
            } else {
                seq!['c', 'p', ' '] + crate::text::decimal(value as nat)
            },
        }
    }

    /// The text of the score in the Universal Chess Interface: `mate N`,
    /// `mate -N` or `cp N`.
    pub fn as_uci(self) -> (s: String)
        ensures
            s@ == self.uci_text(),
    {
        let mut out: Vec<char> = Vec::new();
        match self.unpack() {
            UnpackedValue::MateIn(moves) => {
                out.push('m');
                out.push('a');
                out.push('t');
                out.push('e');
                out.push(' ');
                push_decimal(&mut out, moves);
            },
            UnpackedValue::MatedIn(moves) => {
                out.push('m');
                out.push('a');
                out.push('t');
                out.push('e');
                out.push(' ');
                out.push('-');
                push_decimal(&mut out, moves);
            },
            UnpackedValue::Value(value) => {
                out.push('c');
                out.push('p');
                out.push(' ');
                if value < 0 {
                    out.push('-');
                    push_decimal(&mut out, (0 - value) as u16);
                } else {
                    push_decimal(&mut out, value as u16);
                }
            },
        }
        assert(out@ =~= self.uci_text());
        string_of(&out)
    }

    /// The sum of two scores, kept within the centipawn scores.
    pub fn plus(self, other: Value) -> (v: Value)
        ensures
            v.raw() == clamp_centipawns(self.raw() + other.raw()),
    {
        proof {
            use_type_invariant(&self);
            use_type_invariant(&other);
        }
        let next: i32 = self.score as i32 + other.score as i32;
        if next <= VALUE_MATED as i32 {
            Value { score: VALUE_MATED + 1 }
        } else if next >= VALUE_MATE as i32 {
            Value { score: VALUE_MATE - 1 }
        } else {
            Value { score: next as i16 }
        }
    }

    /// The score with the given number of centipawns added, kept within
    /// the centipawn scores.
    pub fn plus_centipawns(self, centipawns: i32) -> (v: Value)
        ensures
            v.raw() == clamp_centipawns(self.raw() + centipawns),
    {
        proof {
            use_type_invariant(&self);
        }
        let next: i64 = self.score as i64 + centipawns as i64;
        if next <= VALUE_MATED as i64 {
            Value { score: VALUE_MATED + 1 }
        } else if next >= VALUE_MATE as i64 {
            Value { score: VALUE_MATE - 1 }
        } else {
            Value { score: next as i16 }
        }
    }

    /// The score seen from the other side: mate becomes mated.
    pub fn negated(self) -> (v: Value)
        ensures
            v.raw() == -self.raw(),
            v == Value::of_raw(-self.raw()),
    {
        proof {
            use_type_invariant(&self);
        }
        Value { score: 0 - self.score }
    }
}

impl PartialEq for Value {
    fn eq(&self, other: &Value) -> (r: bool) {
        self.score == other.score
    }
}

impl PartialEqSpecImpl for Value {
    open spec fn obeys_eq_spec() -> bool {
        true
    }

    open spec fn eq_spec(&self, other: &Value) -> bool {
        self.raw() == other.raw()
    }
}

impl PartialOrd for Value {
    fn partial_cmp(&self, other: &Value) -> (r: Option<Ordering>) {
        if self.score < other.score {
            Some(Ordering::Less)
        } else if self.score > other.score {
            Some(Ordering::Greater)
        } else {
            Some(Ordering::Equal)
        }
    }
}

impl PartialOrdSpecImpl for Value {
    open spec fn obeys_partial_cmp_spec() -> bool {
        true
    }

    open spec fn partial_cmp_spec(&self, other: &Value) -> Option<Ordering> {
        if self.raw() < other.raw() {
            Some(Ordering::Less)
        } else if self.raw() > other.raw() {
            Some(Ordering::Greater)
        } else {
            Some(Ordering::Equal)
        }
    }
}

impl Neg for Value {
    type Output = Value;

    fn neg(self) -> (r: Value) {
        self.negated()
    }
}

impl NegSpecImpl for Value {
    open spec fn obeys_neg_spec() -> bool {
        true
    }

    open spec fn neg_req(self) -> bool {
        true
    }

    open spec fn neg_spec(self) -> Value {
        Value::of_raw(-self.raw())
    }
}

impl Add<Value> for Value {
    type Output = Value;

    fn add(self, rhs: Value) -> (r: Value) {
        self.plus(rhs)
    }
}

impl AddSpecImpl<Value> for Value {
    open spec fn obeys_add_spec() -> bool {
        true
    }

    open spec fn add_req(self, rhs: Value) -> bool {
        true
    }

    open spec fn add_spec(self, rhs: Value) -> Value {
        Value::of_raw(clamp_centipawns(self.raw() + rhs.raw()))
    }
}

impl Sub<Value> for Value {
    type Output = Value;

    fn sub(self, rhs: Value) -> (r: Value) {
        self.plus(rhs.negated())
    }
}

impl SubSpecImpl<Value> for Value {
    open spec fn obeys_sub_spec() -> bool {
        true
    }

    open spec fn sub_req(self, rhs: Value) -> bool {
        true
    }

    open spec fn sub_spec(self, rhs: Value) -> Value {
        Value::of_raw(clamp_centipawns(self.raw() - rhs.raw()))
    }
}

impl Add<i16> for Value {
    type Output = Value;

    fn add(self, rhs: i16) -> (r: Value) {
        self.plus_centipawns(rhs as i32)
    }
}

impl AddSpecImpl<i16> for Value {
    open spec fn obeys_add_spec() -> bool {
        true
    }

    open spec fn add_req(self, rhs: i16) -> bool {
        true
    }

    open spec fn add_spec(self, rhs: i16) -> Value {
        Value::of_raw(clamp_centipawns(self.raw() + rhs))
    }
}

impl Sub<i16> for Value {
    type Output = Value;

    fn sub(self, rhs: i16) -> (r: Value) {
        self.plus_centipawns(0 - rhs as i32)
    }
}

impl SubSpecImpl<i16> for Value {
    open spec fn obeys_sub_spec() -> bool {
        true
    }

    open spec fn sub_req(self, rhs: i16) -> bool {
        true
    }

    open spec fn sub_spec(self, rhs: i16) -> Value {
        Value::of_raw(clamp_centipawns(self.raw() - rhs))
    }
}

} // verus!
