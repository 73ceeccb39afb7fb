//! Bit-level helpers shared by the board model: a popcount spec function,
//! the height of a one-hot column slot, and the lemmas connecting them.

use vstd::prelude::*;

verus! {

/// Number of set bits in a 64-bit word.
pub open spec fn pc64(x: u64) -> nat
    decreases x,
{
    if x == 0 {
        0
    } else {
        (x % 2) as nat + pc64(x / 2)
    }
}

/// Row index of the single set bit of a one-hot column slot; on a slot
/// holding `1 << r` this is `r`, the number of occupied cells below the bit.
pub open spec fn slot_height(s: u64) -> nat
    decreases s,
{
    if s <= 1 {
        0
    } else {
        1 + slot_height(s / 2)
    }
}

/// A column slot with exactly one bit set among its eight bits.
pub open spec fn is_one_hot8(s: u64) -> bool {
    s != 0 && s < 256 && s & ((s - 1) as u64) == 0
}

/// Popcount distributes over a disjoint union of bits.
pub proof fn lemma_pc64_disjoint(a: u64, b: u64)
    requires
        a & b == 0,
    ensures
        pc64(a | b) == pc64(a) + pc64(b),
    decreases a | b,
{
    if a | b == 0 {
        assert(a == 0 && b == 0) by (bit_vector)
            requires
                a | b == 0,
        ;
    } else {
        assert((a / 2) & (b / 2) == 0 && (a | b) / 2 == (a / 2) | (b / 2) && (a | b) % 2 == a % 2 + b
            % 2 && (a / 2) | (b / 2) < (a | b)) by (bit_vector)
            requires
                a & b == 0,
                a | b != 0,
        ;
        lemma_pc64_disjoint(a / 2, b / 2);
        assert(pc64(a) == a % 2 + pc64(a / 2));
        assert(pc64(b) == b % 2 + pc64(b / 2));
    }
}

/// The bits strictly below a one-hot slot bit number exactly the bit's row.
pub proof fn lemma_pc64_below_one_hot(s: u64)
    requires
        s != 0,
        s & ((s - 1) as u64) == 0,
    ensures
        pc64((s - 1) as u64) == slot_height(s),
    decreases s,
{
    assert((s - 1) as u64 == vstd::prelude::sub(s, 1));
    if s == 1 {
    } else {
        assert(s % 2 == 0 && s / 2 != 0 && (s / 2) & vstd::prelude::sub(s / 2, 1) == 0
            && vstd::prelude::sub(s, 1) % 2 == 1 && vstd::prelude::sub(s, 1) / 2
            == vstd::prelude::sub(s / 2, 1) && vstd::prelude::sub(s, 1) != 0) by (bit_vector)
            requires
                s != 0,
                s != 1,
                s & vstd::prelude::sub(s, 1) == 0,
        ;
        assert((s / 2 - 1) as u64 == vstd::prelude::sub(s / 2, 1));
        lemma_pc64_below_one_hot(s / 2);
    }
}

/// A one-hot word has exactly one set bit.
pub proof fn lemma_pc64_one_hot(s: u64)
    requires
        s != 0,
        s & ((s - 1) as u64) == 0,
    ensures
        pc64(s) == 1,
    decreases s,
{
    assert((s - 1) as u64 == vstd::prelude::sub(s, 1));
    if s == 1 {
        assert(pc64(0) == 0);
        assert(pc64(1u64) == 1u64 % 2 + pc64(1u64 / 2));
    } else {
        assert(s % 2 == 0 && s / 2 != 0 && (s / 2) & vstd::prelude::sub(s / 2, 1) == 0)
            by (bit_vector)
            requires
                s != 0,
                s != 1,
                s & vstd::prelude::sub(s, 1) == 0,
        ;
        assert((s / 2 - 1) as u64 == vstd::prelude::sub(s / 2, 1));
        lemma_pc64_one_hot(s / 2);
        assert(pc64(s) == s % 2 + pc64(s / 2));
    }
}

/// A word below `1 << k` has slot height at most `k - 1`.
pub proof fn lemma_slot_height_below(s: u64, k: u64)
    requires
        1 <= k <= 63,
        s < (1u64 << k),
    ensures
        slot_height(s) <= k - 1,
    decreases k,
{
    if s <= 1 {
        assert(slot_height(s) == 0);
    } else {
        assert(k >= 2 && s / 2 < (1u64 << vstd::prelude::sub(k, 1))) by (bit_vector)
            requires
                1 <= k <= 63,
                s < (1u64 << k),
                s > 1,
        ;
        assert((k - 1) as u64 == vstd::prelude::sub(k, 1));
        lemma_slot_height_below(s / 2, (k - 1) as u64);
    }
}

/// Doubling a nonzero slot raises its height by one.
pub proof fn lemma_slot_height_double(s: u64)
    requires
        1 <= s < 0x8000_0000_0000_0000,
    ensures
        slot_height((2 * s) as u64) == slot_height(s) + 1,
{
    assert((2 * s) as u64 == vstd::prelude::mul(2, s));
    assert(vstd::prelude::mul(2, s) / 2 == s && vstd::prelude::mul(2, s) > 1) by (bit_vector)
        requires
            1 <= s < 0x8000_0000_0000_0000,
    ;
}

/// Popcount splits at any bit boundary: low `k` bits plus the rest.
pub proof fn lemma_pc64_split(x: u64, k: u64)
    requires
        k <= 63,
    ensures
        pc64(x) == pc64(x & (((1u64 << k) - 1) as u64)) + pc64(x >> k),
    decreases k,
{
    if k == 0 {
        assert(1u64 << 0u64 == 1 && x >> 0u64 == x && x & 0 == 0) by (bit_vector);
        assert(pc64(0) == 0);
    } else {
        let m = ((1u64 << k) - 1) as u64;
        let m1 = ((1u64 << ((k - 1) as u64)) - 1) as u64;
        let lo = x & m;
        assert(m == vstd::prelude::sub(1u64 << k, 1));
        assert(m1 == vstd::prelude::sub(1u64 << vstd::prelude::sub(k, 1), 1));
        assert(x >> 1 == x / 2 && (x >> 1) >> vstd::prelude::sub(k, 1) == x >> k && (x >> 1) & m1
            == lo / 2 && lo % 2 == x % 2) by (bit_vector)
            requires
                1 <= k <= 63,
                m1 == vstd::prelude::sub(1u64 << vstd::prelude::sub(k, 1), 1),
                lo == x & vstd::prelude::sub(1u64 << k, 1),
        ;
        lemma_pc64_split(x >> 1, (k - 1) as u64);
        assert(pc64(x) == x % 2 + pc64(x / 2));
        assert(pc64(lo) == lo % 2 + pc64(lo / 2));
    }
}

/// Popcount of a board word is the sum of the popcounts of its column slots.
pub proof fn lemma_pc64_slots(x: u64)
    requires
        x & 0x00FF_FFFF_FFFF_FFFF == x,
    ensures
        pc64(x) == pc64(x & 0xFF) + pc64((x >> 8) & 0xFF) + pc64((x >> 16) & 0xFF) + pc64((x >> 24)
            & 0xFF) + pc64((x >> 32) & 0xFF) + pc64((x >> 40) & 0xFF) + pc64((x >> 48) & 0xFF),
{
    assert(((1u64 << 8u64) - 1) as u64 == 0xFF && (x >> 8) >> 8 == x >> 16 && (x >> 16) >> 8 == x
        >> 24 && (x >> 24) >> 8 == x >> 32 && (x >> 32) >> 8 == x >> 40 && (x >> 40) >> 8 == x >> 48
        && ((x >> 48) & 0xFF) == (x >> 48) && (x >> 48) >> 8 == 0) by (bit_vector)
        requires
            x & 0x00FF_FFFF_FFFF_FFFF == x,
    ;
    lemma_pc64_split(x, 8);
    lemma_pc64_split(x >> 8, 8);
    lemma_pc64_split(x >> 16, 8);
    lemma_pc64_split(x >> 24, 8);
    lemma_pc64_split(x >> 32, 8);
    lemma_pc64_split(x >> 40, 8);
    assert(pc64(0) == 0);
}

/// Facts about the zero word that slot reasoning leans on.
pub proof fn lemma_zero_word()
    ensures
        forall|a: u64| (0u64 >> a) == 0,
        0u64 & 0u64 == 0,
        0u64 | 0u64 == 0,
        0u64 & 0x00FF_FFFF_FFFF_FFFF == 0,
        0u64 & 0xFF == 0,
        0u64 & 1u64 == 0,
        0u64 >> 56u64 == 0,
{
    assert(forall|a: u64| (0u64 >> a) == 0) by (bit_vector);
    assert(0u64 & 0u64 == 0 && 0u64 | 0u64 == 0 && 0u64 & 0x00FF_FFFF_FFFF_FFFF == 0 && 0u64 & 0xFF
        == 0 && 0u64 & 1u64 == 0 && 0u64 >> 56u64 == 0) by (bit_vector);
}

/// Small shift identities used throughout the board model.
pub proof fn lemma_shift_facts()
    ensures
        forall|x: u64| (x >> 0u64) == x,
        forall|x: u64, a: u64| ((x >> a) & 0xFF) < 256,
        1u64 << 0u64 == 1,
        1u64 << 7u64 == 128,
        1u64 << 8u64 == 256,
{
    assert(forall|x: u64| (x >> 0u64) == x) by (bit_vector);
    assert(forall|x: u64, a: u64| ((x >> a) & 0xFF) < 256) by (bit_vector);
    assert(1u64 << 0u64 == 1 && 1u64 << 7u64 == 128 && 1u64 << 8u64 == 256) by (bit_vector);
}

} // verus!
