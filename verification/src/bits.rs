//! Bit-level specifications for the little-endian integer views that the
//! multi-pin wrappers encode and decode.

use vstd::prelude::*;

use crate::bus::Signal;

verus! {

/// Bit `i` of `v`.
pub open spec fn u8_bit(v: u8, i: u8) -> bool {
    v >> i & 1u8 == 1u8
}

/// Bit `i` of `v`.
pub open spec fn u16_bit(v: u16, i: u16) -> bool {
    v >> i & 1u16 == 1u16
}

/// The signal encoding one bit: `ONE` for a set bit, `ZERO` for a clear one.
pub open spec fn bit_signal(b: bool) -> Signal {
    if b {
        Signal::ONE
    } else {
        Signal::ZERO
    }
}

pub proof fn lemma_u8_zero_bit(j: u8)
    requires
        j < 8,
    ensures
        !u8_bit(0u8, j),
{
    assert(0u8 >> j & 1u8 == 0u8) by (bit_vector);
}

/// Setting bit `i` leaves every other bit alone.
pub proof fn lemma_u8_or_bit(v: u8, i: u8, j: u8)
    requires
        i < 8,
        j < 8,
    ensures
        u8_bit(v | (1u8 << i), j) == (i == j || u8_bit(v, j)),
{
    assert((v | (1u8 << i)) >> j & 1u8 == (if i == j {
        1u8
    } else {
        v >> j & 1u8
    })) by (bit_vector)
        requires
            i < 8,
            j < 8,
    ;
}

/// The masked test the wrappers run agrees with the bit view.
pub proof fn lemma_u8_test_bit(v: u8, i: u8)
    requires
        i < 8,
    ensures
        ((v & (1u8 << i)) != 0) == u8_bit(v, i),
{
    assert(((v & (1u8 << i)) != 0) == (v >> i & 1u8 == 1u8)) by (bit_vector)
        requires
            i < 8,
    ;
}

pub proof fn lemma_u16_zero_bit(j: u16)
    requires
        j < 16,
    ensures
        !u16_bit(0u16, j),
{
    assert(0u16 >> j & 1u16 == 0u16) by (bit_vector);
}

/// Setting bit `i` leaves every other bit alone.
pub proof fn lemma_u16_or_bit(v: u16, i: u16, j: u16)
    requires
        i < 16,
        j < 16,
    ensures
        u16_bit(v | (1u16 << i), j) == (i == j || u16_bit(v, j)),
{
    assert((v | (1u16 << i)) >> j & 1u16 == (if i == j {
        1u16
    } else {
        v >> j & 1u16
    })) by (bit_vector)
        requires
            i < 16,
            j < 16,
    ;
}

/// The masked test the wrappers run agrees with the bit view.
pub proof fn lemma_u16_test_bit(v: u16, i: u16)
    requires
        i < 16,
    ensures
        ((v & (1u16 << i)) != 0) == u16_bit(v, i),
{
    assert(((v & (1u16 << i)) != 0) == (v >> i & 1u16 == 1u16)) by (bit_vector)
        requires
            i < 16,
    ;
}

/// A NAND gate, bit by bit.
pub proof fn lemma_u8_nand_bit(a: u8, b: u8, i: u8)
    requires
        i < 8,
    ensures
        u8_bit(!(a & b), i) == !(u8_bit(a, i) && u8_bit(b, i)),
{
    assert((!(a & b)) >> i & 1u8 == (if (a >> i & 1u8 == 1u8) && (b >> i & 1u8 == 1u8) {
        0u8
    } else {
        1u8
    })) by (bit_vector)
        requires
            i < 8,
    ;
}

/// An inverter, bit by bit.
pub proof fn lemma_u8_not_bit(a: u8, i: u8)
    requires
        i < 8,
    ensures
        u8_bit(!a, i) == !u8_bit(a, i),
{
    assert((!a) >> i & 1u8 == (if a >> i & 1u8 == 1u8 {
        0u8
    } else {
        1u8
    })) by (bit_vector)
        requires
            i < 8,
    ;
}

/// A one-hot decoder output: bit `i` of `1 << a` is set exactly for `i == a`.
pub proof fn lemma_u8_onehot_bit(a: u8, i: u8)
    requires
        a < 8,
        i < 8,
    ensures
        u8_bit(1u8 << a, i) == (i == a),
{
    assert((1u8 << a) >> i & 1u8 == (if i == a {
        1u8
    } else {
        0u8
    })) by (bit_vector)
        requires
            a < 8,
            i < 8,
    ;
}

/// A value whose bits above `k` are all clear is below `2^k`; stated for
/// the three-bit addresses the decoder reads.
pub proof fn lemma_u8_low3(v: u8)
    requires
        !u8_bit(v, 3),
        !u8_bit(v, 4),
        !u8_bit(v, 5),
        !u8_bit(v, 6),
        !u8_bit(v, 7),
    ensures
        v < 8,
{
    assert(v < 8 || v >> 3 & 1u8 == 1u8 || v >> 4 & 1u8 == 1u8 || v >> 5 & 1u8 == 1u8 || v >> 6
        & 1u8 == 1u8 || v >> 7 & 1u8 == 1u8) by (bit_vector);
}

/// Two three-bit values are equal exactly when their three bits agree.
pub proof fn lemma_u8_eq3(g: u8, v: u8)
    requires
        g < 8,
        v < 8,
    ensures
        (g == v) == (u8_bit(g, 0) == u8_bit(v, 0) && u8_bit(g, 1) == u8_bit(v, 1) && u8_bit(g, 2)
            == u8_bit(v, 2)),
{
    assert((g == v) == ((g >> 0 & 1u8 == 1u8) == (v >> 0 & 1u8 == 1u8) && (g >> 1 & 1u8 == 1u8)
        == (v >> 1 & 1u8 == 1u8) && (g >> 2 & 1u8 == 1u8) == (v >> 2 & 1u8 == 1u8)))
        by (bit_vector)
        requires
            g < 8,
            v < 8,
    ;
}

/// A 16-bit value whose top bit is clear fits in fifteen bits.
pub proof fn lemma_u16_low15(v: u16)
    requires
        !u16_bit(v, 15),
    ensures
        v < 32768,
{
    assert(v < 32768 || v >> 15 & 1u16 == 1u16) by (bit_vector);
}

/// Two 16-bit words agreeing on every bit are equal.
pub proof fn lemma_u16_bit_ext(a: u16, b: u16)
    requires
        forall|i: u16| i < 16 ==> u16_bit(a, i) == u16_bit(b, i),
    ensures
        a == b,
{
    assert forall|i: u16| i < 16 implies (a >> i & 1u16 == 1u16) == (b >> i & 1u16 == 1u16) by {
        assert(u16_bit(a, i) == u16_bit(b, i));
    }
    assert(a == b || !((a >> 0 & 1u16 == 1u16) == (b >> 0 & 1u16 == 1u16)) || !((a >> 1 & 1u16 == 1u16) == (b >> 1 & 1u16 == 1u16)) || !((a >> 2 & 1u16 == 1u16) == (b >> 2 & 1u16 == 1u16)) || !((a >> 3 & 1u16 == 1u16) == (b >> 3 & 1u16 == 1u16)) || !((a >> 4 & 1u16 == 1u16) == (b >> 4 & 1u16 == 1u16)) || !((a >> 5 & 1u16 == 1u16) == (b >> 5 & 1u16 == 1u16)) || !((a >> 6 & 1u16 == 1u16) == (b >> 6 & 1u16 == 1u16)) || !((a >> 7 & 1u16 == 1u16) == (b >> 7 & 1u16 == 1u16)) || !((a >> 8 & 1u16 == 1u16) == (b >> 8 & 1u16 == 1u16)) || !((a >> 9 & 1u16 == 1u16) == (b >> 9 & 1u16 == 1u16)) || !((a >> 10 & 1u16 == 1u16) == (b >> 10 & 1u16 == 1u16)) || !((a >> 11 & 1u16 == 1u16) == (b >> 11 & 1u16 == 1u16)) || !((a >> 12 & 1u16 == 1u16) == (b >> 12 & 1u16 == 1u16)) || !((a >> 13 & 1u16 == 1u16) == (b >> 13 & 1u16 == 1u16)) || !((a >> 14 & 1u16 == 1u16) == (b >> 14 & 1u16 == 1u16)) || !((a >> 15 & 1u16 == 1u16) == (b >> 15 & 1u16 == 1u16))) by (bit_vector);
}

} // verus!
