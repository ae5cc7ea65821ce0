//! Bits written as text: a `0` or a `1` for each bit, and any other
//! character in between to group them.

use vstd::prelude::*;
use vstd::utf8::{char_is_scalar, encode_scalar, encode_utf8};

verus! {

/// The byte that stands for a false bit in a text: the digit 0.
pub const DIGIT_ZERO: u8 = 0x30;

/// The byte that stands for a true bit in a text: the digit 1.
pub const DIGIT_ONE: u8 = 0x31;

/// The bit that one character spells: a false bit for `0`, a true bit for
/// `1`, and none for any other character.
pub open spec fn bit_of(sign: char) -> Seq<bool> {
    if sign == '0' {
        seq![false]
    } else if sign == '1' {
        seq![true]
    } else {
        Seq::empty()
    }
}

/// The bits that `text` spells: a false bit for each `0` in it and a true
/// bit for each `1`, in the order of the text. Every other character is
/// skipped.
pub open spec fn parse_bits(text: Seq<char>) -> Seq<bool>
    decreases text.len(),
{
    if text.len() == 0 {
        Seq::empty()
    } else {
        bit_of(text[0]) + parse_bits(text.drop_first())
    }
}

/// The bits that the bytes of a text spell: a false bit for each digit 0
/// among them and a true bit for each digit 1, in their order.
pub open spec fn parse_bytes(bytes: Seq<u8>) -> Seq<bool>
    decreases bytes.len(),
{
    if bytes.len() == 0 {
        Seq::empty()
    } else {
        let before = parse_bytes(bytes.drop_last());
        if bytes.last() == DIGIT_ZERO {
            before.push(false)
        } else if bytes.last() == DIGIT_ONE {
            before.push(true)
        } else {
            before
        }
    }
}

/// The beginning of a text spells no more bits than the whole of it.
pub proof fn lemma_parse_bytes_grows(bytes: Seq<u8>, i: int)
    requires
        0 <= i <= bytes.len(),
    ensures
        parse_bytes(bytes.take(i)).len() <= parse_bytes(bytes).len(),
    decreases bytes.len() - i,
{
    if i < bytes.len() {
        lemma_parse_bytes_grows(bytes, i + 1);
        assert(bytes.take(i + 1).drop_last() =~= bytes.take(i));
    } else {
        assert(bytes.take(i) =~= bytes);
    }
}

/// Two texts in a row spell the bits of the first and then those of the
/// second.
proof fn lemma_parse_bytes_concat(first: Seq<u8>, second: Seq<u8>)
    ensures
        parse_bytes(first + second) == parse_bytes(first) + parse_bytes(second),
    decreases second.len(),
{
    if second.len() == 0 {
        assert(first + second =~= first);
        assert(parse_bytes(first) + parse_bytes(second) =~= parse_bytes(first));
    } else {
        lemma_parse_bytes_concat(first, second.drop_last());
        assert((first + second).drop_last() =~= first + second.drop_last());
        let before = parse_bytes(first) + parse_bytes(second.drop_last());
        assert(before.push(false) =~= parse_bytes(first) + parse_bytes(second.drop_last()).push(
            false,
        ));
        assert(before.push(true) =~= parse_bytes(first) + parse_bytes(second.drop_last()).push(
            true,
        ));
    }
}

/// Bytes that are no digits spell nothing.
proof fn lemma_parse_bytes_skips(bytes: Seq<u8>)
    requires
        forall|i: int| 0 <= i < bytes.len() ==> bytes[i] >= 0x80,
    ensures
        parse_bytes(bytes) == Seq::<bool>::empty(),
    decreases bytes.len(),
{
    if bytes.len() > 0 {
        lemma_parse_bytes_skips(bytes.drop_last());
    }
}

/// The bytes of one character spell what the character spells: the digits
/// 0 and 1 have one byte each, and all bytes of a character of more than
/// one byte lie above the digits.
proof fn lemma_parse_bytes_of_char(sign: char)
    ensures
        parse_bytes(encode_scalar(sign as u32)) == bit_of(sign),
{
    let scalar = sign as u32;
    let bytes = encode_scalar(scalar);
    char_is_scalar(sign);
    if scalar <= 0x7F {
        assert((scalar & 0x7F) as u8 == scalar) by (bit_vector)
            requires
                scalar <= 0x7F,
        ;
        assert(bytes.drop_last() =~= Seq::<u8>::empty());
        assert(parse_bytes(Seq::<u8>::empty()) =~= Seq::<bool>::empty());
        assert(parse_bytes(bytes) =~= bit_of(sign));
    } else {
        assert forall|i: int| 0 <= i < bytes.len() implies bytes[i] >= 0x80 by {
            assert(0xC0 | ((scalar >> 6) & 0x1F) as u8 >= 0x80) by (bit_vector);
            assert(0xE0 | ((scalar >> 12) & 0x0F) as u8 >= 0x80) by (bit_vector);
            assert(0xF0 | ((scalar >> 18) & 0x7) as u8 >= 0x80) by (bit_vector);
            assert(0x80 | (scalar & 0x3F) as u8 >= 0x80) by (bit_vector);
            assert(0x80 | ((scalar >> 6) & 0x3F) as u8 >= 0x80) by (bit_vector);
            assert(0x80 | ((scalar >> 12) & 0x3F) as u8 >= 0x80) by (bit_vector);
        }
        lemma_parse_bytes_skips(bytes);
    }
}

/// The bytes of a text spell the bits that its characters spell.
pub proof fn lemma_parse_bytes_of_text(text: Seq<char>)
    ensures
        parse_bytes(encode_utf8(text)) == parse_bits(text),
    decreases text.len(),
{
    if text.len() > 0 {
        let others = text.drop_first();
        lemma_parse_bytes_of_text(others);
        lemma_parse_bytes_of_char(text[0]);
        lemma_parse_bytes_concat(encode_scalar(text[0] as u32), encode_utf8(others));
    }
}

} // verus!
