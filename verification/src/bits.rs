//! Packed bits: a word of 128 bits read as a sequence of booleans, and the
//! facts about shifts and masks that the rest of the crate builds on.

use vstd::prelude::*;

verus! {

/// Bit `i` of `word`; bit 0 is the least significant one.
pub open spec fn bit_at(word: u128, i: u8) -> bool {
    (word >> i) & 1 == 1
}

/// The lowest `len` bits of `word`, the least significant one first.
pub open spec fn bits_of(word: u128, len: nat) -> Seq<bool> {
    Seq::new(len, |i: int| bit_at(word, i as u8))
}

/// The number that `bits` spell, the least significant bit first.
pub open spec fn value_of(bits: Seq<bool>) -> nat
    decreases bits.len(),
{
    if bits.len() == 0 {
        0
    } else {
        (if bits[0] { 1nat } else { 0nat }) + 2 * value_of(bits.drop_first())
    }
}

/// `word` has no bit set at position `len` or above.
pub open spec fn fits(word: u128, len: u8) -> bool {
    len <= 127 && word >> len == 0
}

/// The empty word fits in no bits at all.
pub proof fn lemma_fits_nothing()
    ensures
        fits(0, 0),
{
    assert(0u128 >> 0u8 == 0) by (bit_vector);
}

/// Testing a bit with a mask is reading it with a shift.
pub proof fn lemma_mask_reads_bit(word: u128, i: u8)
    requires
        i < 128,
    ensures
        ((1u128 << i) & word == 0) == !bit_at(word, i),
{
    assert(((1u128 << i) & word == 0) == !((word >> i) & 1 == 1)) by (bit_vector)
        requires
            i < 128,
    ;
}

/// Shifting a word up by one and setting its lowest bit to `bit` puts `bit`
/// in front of the bits it held.
pub proof fn lemma_shift_in_low(word: u128, len: u8, bit: bool)
    requires
        fits(word, len),
        len < 127,
    ensures
        fits(shifted_in_low(word, bit), (len + 1) as u8),
        bits_of(shifted_in_low(word, bit), (len + 1) as nat) == seq![bit] + bits_of(word, len as nat),
{
    let wider = shifted_in_low(word, bit);
    assert(wider >> ((len + 1) as u8) == 0 && bit_at(wider, 0) == bit) by (bit_vector)
        requires
            word >> len == 0,
            len < 127,
            wider == if bit { (word << 1) | 1 } else { word << 1 },
    ;
    let before = seq![bit] + bits_of(word, len as nat);
    assert forall|k: int| 0 <= k < len + 1 implies #[trigger] bits_of(wider, (len + 1) as nat)[k]
        == before[k] by {
        if k > 0 {
            let j = (k - 1) as u8;
            assert(bit_at(wider, (j + 1) as u8) == bit_at(word, j)) by (bit_vector)
                requires
                    j < 127,
                    wider == if bit { (word << 1) | 1 } else { word << 1 },
            ;
        }
    }
    assert(bits_of(wider, (len + 1) as nat) =~= before);
}

/// `word` moved up by one position, with `bit` in the position that frees.
pub open spec fn shifted_in_low(word: u128, bit: bool) -> u128 {
    if bit {
        (word << 1) | 1
    } else {
        word << 1
    }
}

/// `word` with `bit` in position `len`, which held none before.
pub open spec fn placed_on_top(word: u128, len: u8, bit: bool) -> u128 {
    if bit {
        word | (1u128 << len)
    } else {
        word
    }
}

/// Setting position `len` of a word that fits in `len` bits puts `bit`
/// behind the bits it held.
pub proof fn lemma_place_on_top(word: u128, len: u8, bit: bool)
    requires
        fits(word, len),
        len < 127,
    ensures
        fits(placed_on_top(word, len, bit), (len + 1) as u8),
        bits_of(placed_on_top(word, len, bit), (len + 1) as nat) == bits_of(word, len as nat).push(
            bit,
        ),
{
    let wider = placed_on_top(word, len, bit);
    assert(wider >> ((len + 1) as u8) == 0 && bit_at(wider, len) == bit) by (bit_vector)
        requires
            word >> len == 0,
            len < 127,
            wider == if bit { word | (1u128 << len) } else { word },
    ;
    let before = bits_of(word, len as nat).push(bit);
    assert forall|k: int| 0 <= k < len + 1 implies #[trigger] bits_of(wider, (len + 1) as nat)[k]
        == before[k] by {
        if k < len {
            let j = k as u8;
            assert(bit_at(wider, j) == bit_at(word, j)) by (bit_vector)
                requires
                    j < len,
                    len < 127,
                    wider == if bit { word | (1u128 << len) } else { word },
            ;
        }
    }
    assert(bits_of(wider, (len + 1) as nat) =~= before);
}

/// A word that fits in `len` bits is the number that its lowest `len` bits
/// spell.
pub proof fn lemma_value_of_bits(word: u128, len: u8)
    requires
        fits(word, len),
    ensures
        value_of(bits_of(word, len as nat)) == word,
    decreases len,
{
    if len == 0 {
        assert(word == 0) by (bit_vector)
            requires
                word >> 0u8 == 0,
        ;
    } else {
        let rest = word >> 1u8;
        let shorter = (len - 1) as u8;
        assert(rest >> shorter == 0) by (bit_vector)
            requires
                word >> len == 0,
                1 <= len <= 127,
                shorter == len - 1,
                rest == word >> 1u8,
        ;
        lemma_value_of_bits(rest, shorter);
        let tail = bits_of(word, len as nat).drop_first();
        assert forall|k: int| 0 <= k < shorter implies #[trigger] tail[k] == bits_of(
            rest,
            shorter as nat,
        )[k] by {
            let j = k as u8;
            assert(bit_at(word, (j + 1) as u8) == bit_at(rest, j)) by (bit_vector)
                requires
                    j < 127,
                    rest == word >> 1u8,
            ;
        }
        assert(tail =~= bits_of(rest, shorter as nat));
        assert(word == (if bit_at(word, 0) { 1u128 } else { 0u128 }) + 2 * rest) by (bit_vector)
            requires
                rest == word >> 1u8,
        ;
    }
}

} // verus!
