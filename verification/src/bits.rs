//! Facts about the bits of a byte, as far as a mask of up to eight vertices needs them.

use vstd::prelude::*;

verus! {

/// Whether bit `i` of `b` is set.
pub open spec fn bit_at(b: u8, i: int) -> bool {
    (b >> (i as u8)) & 1 != 0
}

/// The byte whose `n` lowest bits are set and whose other bits are clear.
pub open spec fn low_ones(n: int) -> u8 {
    0xffu8 >> ((8 - n) as u8)
}

/// The largest byte of `n` bits is one less than the `n`th power of two.
pub proof fn lemma_low_ones_values()
    ensures
        low_ones(1) == 1,
        low_ones(2) == 3,
        low_ones(3) == 7,
        low_ones(4) == 15,
        low_ones(5) == 31,
        low_ones(6) == 63,
        low_ones(7) == 127,
        low_ones(8) == 255,
{
    assert(0xffu8 >> 7u8 == 1 && 0xffu8 >> 6u8 == 3 && 0xffu8 >> 5u8 == 7 && 0xffu8 >> 4u8 == 15
        && 0xffu8 >> 3u8 == 31 && 0xffu8 >> 2u8 == 63 && 0xffu8 >> 1u8 == 127 && 0xffu8 >> 0u8
        == 255) by (bit_vector);
}

/// A byte is zero exactly when each of its eight bits is clear.
proof fn lemma_zero_byte(b: u8)
    by (bit_vector)
    ensures
        b == 0 <==> ((b >> 0u8) & 1 == 0 && (b >> 1u8) & 1 == 0 && (b >> 2u8) & 1 == 0 && (b >> 3u8)
            & 1 == 0 && (b >> 4u8) & 1 == 0 && (b >> 5u8) & 1 == 0 && (b >> 6u8) & 1 == 0 && (b
            >> 7u8) & 1 == 0),
{
}

/// A byte is no more than the largest byte of `n` bits exactly when each of
/// its bits from `n` upwards is clear.
proof fn lemma_high_bits(b: u8, n: u8)
    by (bit_vector)
    requires
        1 <= n <= 8,
    ensures
        b <= 0xffu8 >> (8 - n) as u8 <==> ((n <= 1 ==> (b >> 1u8) & 1 == 0) && (n <= 2 ==> (b
            >> 2u8) & 1 == 0) && (n <= 3 ==> (b >> 3u8) & 1 == 0) && (n <= 4 ==> (b >> 4u8) & 1
            == 0) && (n <= 5 ==> (b >> 5u8) & 1 == 0) && (n <= 6 ==> (b >> 6u8) & 1 == 0) && (n
            <= 7 ==> (b >> 7u8) & 1 == 0)),
{
}

/// A byte of `n` bits is the largest such byte exactly when each of its `n`
/// lowest bits is set.
proof fn lemma_low_ones_byte(b: u8, n: u8)
    by (bit_vector)
    requires
        1 <= n <= 8,
        b <= 0xffu8 >> (8 - n) as u8,
    ensures
        b == 0xffu8 >> (8 - n) as u8 <==> ((b >> 0u8) & 1 != 0 && (n > 1 ==> (b >> 1u8) & 1 != 0)
            && (n > 2 ==> (b >> 2u8) & 1 != 0) && (n > 3 ==> (b >> 3u8) & 1 != 0) && (n > 4 ==> (b
            >> 4u8) & 1 != 0) && (n > 5 ==> (b >> 5u8) & 1 != 0) && (n > 6 ==> (b >> 6u8) & 1 != 0)
            && (n > 7 ==> (b >> 7u8) & 1 != 0)),
{
}

/// A byte fits in `n` bits exactly when none of its bits from `n` upwards is set.
pub proof fn lemma_fits_iff_high_clear(b: u8, n: int)
    requires
        1 <= n <= 8,
    ensures
        b <= low_ones(n) <==> (forall|i: int| n <= i < 8 ==> !bit_at(b, i)),
{
    lemma_high_bits(b, n as u8);
    if forall|i: int| n <= i < 8 ==> !bit_at(b, i) {
        assert(n <= 1 ==> !bit_at(b, 1));
        assert(n <= 2 ==> !bit_at(b, 2));
        assert(n <= 3 ==> !bit_at(b, 3));
        assert(n <= 4 ==> !bit_at(b, 4));
        assert(n <= 5 ==> !bit_at(b, 5));
        assert(n <= 6 ==> !bit_at(b, 6));
        assert(n <= 7 ==> !bit_at(b, 7));
    }
}

/// A byte that fits in `n` bits is zero exactly when none of its `n` lowest bits is set.
pub proof fn lemma_zero_iff_low_clear(b: u8, n: int)
    requires
        1 <= n <= 8,
        b <= low_ones(n),
    ensures
        b == 0 <==> (forall|i: int| 0 <= i < n ==> !bit_at(b, i)),
{
    lemma_zero_byte(b);
    lemma_fits_iff_high_clear(b, n);
    if forall|i: int| 0 <= i < n ==> !bit_at(b, i) {
        assert forall|i: int| 0 <= i < 8 implies !bit_at(b, i) by {}
        assert(!bit_at(b, 0) && !bit_at(b, 1) && !bit_at(b, 2) && !bit_at(b, 3));
        assert(!bit_at(b, 4) && !bit_at(b, 5) && !bit_at(b, 6) && !bit_at(b, 7));
    }
}

/// A byte that fits in `n` bits is the largest such byte exactly when all of
/// its `n` lowest bits are set.
pub proof fn lemma_low_ones_iff_low_set(b: u8, n: int)
    requires
        1 <= n <= 8,
        b <= low_ones(n),
    ensures
        b == low_ones(n) <==> (forall|i: int| 0 <= i < n ==> bit_at(b, i)),
{
    lemma_low_ones_byte(b, n as u8);
    if forall|i: int| 0 <= i < n ==> bit_at(b, i) {
        assert(bit_at(b, 0));
        assert(n > 1 ==> bit_at(b, 1));
        assert(n > 2 ==> bit_at(b, 2));
        assert(n > 3 ==> bit_at(b, 3));
        assert(n > 4 ==> bit_at(b, 4));
        assert(n > 5 ==> bit_at(b, 5));
        assert(n > 6 ==> bit_at(b, 6));
        assert(n > 7 ==> bit_at(b, 7));
    }
}

} // verus!
