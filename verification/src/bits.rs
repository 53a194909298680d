//! Bits of words, as they go over a serial wire.

use vstd::arithmetic::power2::{lemma2_to64, lemma_pow2_unfold, pow2};
use vstd::prelude::*;

verus! {

/// Bit `k` of `data`.
pub open spec fn bit_of(data: u32, k: int) -> bool {
    (data >> (k as u32)) & 1 == 1
}

/// `data` with the bit `bit` shifted in from the right.
pub open spec fn shifted(data: u16, bit: bool) -> u16 {
    if bit {
        (data << 1) | 1
    } else {
        data << 1
    }
}

/// The bit that a mask of one bit selects is the bit at its position.
pub proof fn lemma_mask(data: u32, mask: u32, k: u32)
    requires
        k < 32,
        mask == 1u32 << k,
    ensures
        (data & mask > 0) == bit_of(data, k as int),
        mask != 0,
{
    assert((data & mask > 0) == ((data >> k) & 1 == 1) && mask != 0) by (bit_vector)
        requires
            k < 32,
            mask == 1u32 << k,
    ;
}

/// A mask of one bit moves down one position when halved, and off the end from position zero.
pub proof fn lemma_mask_down(mask: u32, k: u32)
    requires
        k < 32,
        mask == 1u32 << k,
    ensures
        k == 0 ==> mask >> 1 == 0,
        k > 0 ==> mask >> 1 == 1u32 << ((k - 1) as u32),
{
    assert((k == 0 ==> mask >> 1 == 0) && (k > 0 ==> mask >> 1 == 1u32 << ((k - 1) as u32)))
        by (bit_vector)
        requires
            k < 32,
            mask == 1u32 << k,
    ;
}

/// The number that `bits` spell, highest bit first.
pub open spec fn number(bits: Seq<bool>) -> nat
    decreases bits.len(),
{
    if bits.len() == 0 {
        0
    } else {
        2 * number(bits.drop_last()) + if bits.last() {
            1nat
        } else {
            0nat
        }
    }
}

/// Shifting a bit in doubles the number, modulo the width.
pub proof fn lemma_shifted(data: u16, bits: Seq<bool>, bit: bool)
    requires
        data == number(bits) % 0x1_0000,
    ensures
        shifted(data, bit) == number(bits.push(bit)) % 0x1_0000,
{
    assert((data << 1) == (2 * data) % 0x1_0000 && ((data << 1) | 1) == (2 * data + 1) % 0x1_0000)
        by (bit_vector);
    assert(bits.push(bit).drop_last() =~= bits);
}

/// A word shifted in has no more bits than it has places, so its number is whole.
pub proof fn lemma_number_bound(bits: Seq<bool>)
    ensures
        number(bits) < pow2(bits.len()),
    decreases bits.len(),
{
    if bits.len() == 0 {
        lemma2_to64();
    } else {
        lemma_number_bound(bits.drop_last());
        lemma_pow2_unfold(bits.len());
    }
}

/// What setting and clearing the bits `m` of `x` does to them and to other bits `k`.
pub proof fn lemma_set_clear(x: u32, m: u32, k: u32)
    ensures
        (x | m) & m == m,
        (x & !m) & m == 0,
        (x | m) | m == x | m,
        (x & !m) | m == x | m,
        m & k == 0 ==> (x | m) & k == x & k && (x & !m) & k == x & k,
{
    assert((x | m) & m == m && (x & !m) & m == 0 && (x | m) | m == x | m && (x & !m) | m == x | m
        && (m & k == 0 ==> (x | m) & k == x & k && (x & !m) & k == x & k)) by (bit_vector);
}

/// One more bit of `word`, from the top, makes it longer by that bit.
pub proof fn lemma_next_bit(word: u16, left: u16)
    requires
        1 <= left <= 16,
    ensures
        shifted(word >> left, bit_of(word as u32, left - 1)) == word >> ((left - 1) as u16),
        word >> 0 == word,
        word >> 16 == 0,
{
    let down = (left - 1) as u16;
    assert((word >> down) == (if (word as u32 >> (down as u32)) & 1 == 1 {
        ((word >> left) << 1) | 1
    } else {
        (word >> left) << 1
    }) && word >> 0 == word && word >> 16 == 0) by (bit_vector)
        requires
            1 <= left <= 16,
            down == left - 1,
    ;
}

/// Setting or clearing bits `m` that lie within `k` changes nothing outside `k`.
pub proof fn lemma_within(x: u32, m: u32, k: u32)
    requires
        m | k == k,
    ensures
        (x | m) | k == x | k,
        (x & !m) | k == x | k,
{
    assert((x | m) | k == x | k && (x & !m) | k == x | k) by (bit_vector)
        requires
            m | k == k,
    ;
}

} // verus!
