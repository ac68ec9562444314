//! Bit-level helpers used by the instrument drivers.
use vstd::prelude::*;

verus! {

/// The value of bit `position` of `word`, as a boolean.
pub open spec fn bit_of(word: u16, position: u16) -> bool {
    (word >> position) & 1u16 == 1u16
}

/// Sets bit `position` of `*dest` when `val` is non-zero and clears it otherwise;
/// every other bit of `*dest` is left as it was.
pub fn write_bit_16(dest: &mut u16, position: u16, val: u16)
    requires
        position < 16,
    ensures
        bit_of(*final(dest), position) == (val != 0),
        forall|p: u16| p < 16 && p != position ==> bit_of(*final(dest), p) == bit_of(*old(dest), p),
        val != 0 ==> *final(dest) == *old(dest) | (1u16 << position),
        val == 0 ==> *final(dest) == *old(dest) & !(1u16 << position),
{
    let ghost d0 = *dest;
    if val != 0 {
        *dest = *dest | (1u16 << position);
        assert(bit_of(d0 | (1u16 << position), position)) by (bit_vector)
            requires position < 16;
        assert(forall|p: u16| p < 16 && p != position ==>
            bit_of(d0 | (1u16 << position), p) == bit_of(d0, p)) by (bit_vector)
            requires position < 16;
    } else {
        *dest = *dest & !(1u16 << position);
        assert(!bit_of(d0 & !(1u16 << position), position)) by (bit_vector)
            requires position < 16;
        assert(forall|p: u16| p < 16 && p != position ==>
            bit_of(d0 & !(1u16 << position), p) == bit_of(d0, p)) by (bit_vector)
            requires position < 16;
    }
}

/// A 16-bit word with its two bytes exchanged: the low byte becomes the high byte.
pub open spec fn swapped(val: u16) -> int {
    (val % 256) * 256 + val / 256
}

/// Swaps the two bytes of a 16-bit word.
pub fn swap_u16(val: u16) -> (r: u16)
    ensures
        r == swapped(val),
{
    let r = (val << 8u16) | (val >> 8u16);
    assert(r == (val % 256) * 256 + val / 256) by (bit_vector)
        requires r == ((val << 8u16) | (val >> 8u16));
    r
}

/// Swapping the bytes of a word twice gives the word back.
pub proof fn lemma_swap_u16_involution(val: u16)
    ensures
        0 <= swapped(val) < 0x10000,
        swapped(swapped(val) as u16) == val,
{
    let s = swapped(val);
    assert(0 <= s < 0x10000 && ((s % 256) * 256 + s / 256) == val) by (nonlinear_arith)
        requires s == (val % 256) * 256 + val / 256, 0 <= val < 0x10000;
}

} // verus!
