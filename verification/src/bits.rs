//! Facts about the bits of a 64-bit word, on which the square sets rest.

use vstd::prelude::*;

verus! {

/// Whether bit `i` of `a` is set, for a bit number below 64.
pub open spec fn bit_at(a: u64, i: u64) -> bool {
    (a >> i) & 1 == 1
}

/// Whether bit `i` of `a` is set; false for every `i` outside `0..64`.
pub open spec fn bit(a: u64, i: int) -> bool {
    0 <= i < 64 && bit_at(a, i as u64)
}

/// The word whose only set bit is bit `s`.
pub open spec fn single(s: u64) -> u64 {
    1u64 << s
}

/// The bits of rank 0, which shifted left by `8 * r` give those of rank `r`.
pub const FIRST_RANK: u64 = 0xFF;

/// The bits of file 0, which shifted left by `f` give those of file `f`.
pub const FIRST_FILE: u64 = 0x0101_0101_0101_0101;

/// The bits of a conjunction, a disjunction, an exclusive or and a
/// complement, and of the words without and with all bits.
pub proof fn lemma_bit_ops(a: u64, b: u64, i: u64)
    by (bit_vector)
    requires
        i < 64,
    ensures
        bit_at(a & b, i) == (bit_at(a, i) && bit_at(b, i)),
        bit_at(a | b, i) == (bit_at(a, i) || bit_at(b, i)),
        bit_at(a ^ b, i) == (bit_at(a, i) != bit_at(b, i)),
        bit_at(!a, i) == !bit_at(a, i),
        !bit_at(0, i),
        bit_at(0xFFFF_FFFF_FFFF_FFFF, i),
{
}

/// The word of one bit has that bit and no other.
pub proof fn lemma_bit_single(s: u64, i: u64)
    by (bit_vector)
    requires
        s < 64,
        i < 64,
    ensures
        bit_at(single(s), i) == (i == s),
        single(s) != 0,
{
}

/// A shift moves each bit up or down by the number of places.
pub proof fn lemma_bit_shifts(a: u64, k: u64, i: u64)
    by (bit_vector)
    requires
        k < 64,
        i < 64,
    ensures
        bit_at(a << k, i) == (i >= k && bit_at(a, (i - k) as u64)),
        bit_at(a >> k, i) == (i + k < 64 && bit_at(a, (i + k) as u64)),
{
}

/// The bits of a rank are those of its squares, and so are the bits of a file.
pub proof fn lemma_bit_masks(k: u64, i: u64)
    by (bit_vector)
    requires
        k < 8,
        i < 64,
    ensures
        bit_at(FIRST_RANK << (8 * k) as u64, i) == (i / 8 == k),
        bit_at(FIRST_FILE << k, i) == (i % 8 == k),
{
}

/// A word that is not zero has a lowest set bit, and clearing it leaves the others.
pub proof fn lemma_lowest_bit(a: u64, t: u64, i: u64)
    by (bit_vector)
    requires
        t < 64,
        i < 64,
        bit_at(a, t),
        a << (64 - t) as u64 == 0,
    ensures
        a != 0,
        bit_at(a & (a - 1) as u64, i) == (bit_at(a, i) && i != t),
        i < t ==> !bit_at(a, i),
{
}

/// A bit is set exactly if the word has something in common with the word of that bit.
pub proof fn lemma_test_bit(a: u64, s: u64)
    by (bit_vector)
    requires
        s < 64,
    ensures
        (a & single(s) != 0) == bit_at(a, s),
{
}

/// The lowest bit of a word is one or nothing.
pub proof fn lemma_low_bit(x: u64)
    by (bit_vector)
    ensures
        (x & 1 != 0) == (x & 1 == 1),
{
}

/// Setting a bit that was clear and clearing it again, or toggling anything
/// twice, gives the first word back.
pub proof fn lemma_undo(a: u64, m: u64)
    by (bit_vector)
    ensures
        a & m == 0 ==> (a | m) & !m == a,
        a & m == m ==> (a & !m) | m == a,
        (a ^ m) ^ m == a,
        a ^ 0 == a,
{
}

/// How two words that agree above bit `n` and in bit `n` agree from bit `n` on.
pub proof fn lemma_same_bits_step(a: u64, b: u64, n: u64)
    by (bit_vector)
    requires
        n < 64,
        n < 63 ==> a >> (n + 1) as u64 == b >> (n + 1) as u64,
        bit_at(a, n) == bit_at(b, n),
    ensures
        a >> n == b >> n,
{
}

/// Shifting by nothing changes nothing.
pub proof fn lemma_shift_zero(a: u64, b: u64)
    by (bit_vector)
    ensures
        a >> 0 == a,
        b >> 0 == b,
{
}

/// Words that agree in the bits from bit `n` on agree when shifted right by `n`.
pub proof fn lemma_same_bits_from(a: u64, b: u64, n: u64)
    requires
        n < 64,
        forall|i: int| n <= i < 64 ==> bit(a, i) == bit(b, i),
    ensures
        a >> n == b >> n,
    decreases 64 - n,
{
    if n < 63 {
        lemma_same_bits_from(a, b, (n + 1) as u64);
    }
    assert(bit(a, n as int) == bit(b, n as int));
    lemma_same_bits_step(a, b, n);
}

/// Words with the same bits are the same word.
pub proof fn lemma_same_bits(a: u64, b: u64)
    requires
        forall|i: int| 0 <= i < 64 ==> bit(a, i) == bit(b, i),
    ensures
        a == b,
{
    lemma_same_bits_from(a, b, 0);
    lemma_shift_zero(a, b);
}

} // verus!