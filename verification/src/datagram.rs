//! The datagram: a short run of bits, packed into one machine word.

use crate::bits::{
    bits_of, fits, lemma_fits_nothing, lemma_mask_reads_bit, lemma_place_on_top,
    lemma_shift_in_low, lemma_value_of_bits, shifted_in_low, value_of,
};
use crate::text::{
    lemma_parse_bytes_grows, lemma_parse_bytes_of_text, parse_bits, parse_bytes, DIGIT_ONE,
    DIGIT_ZERO,
};
use vstd::prelude::*;
use vstd::string::StringSliceAdditionalSpecFns;

verus! {

/// The most bits that a datagram holds.
pub const CAPACITY: u8 = 127;

/// Ordering of the bits of a datagram during transmission.
///
/// Big endian: the most significant bit travels first.
/// Little endian: the least significant bit travels first.
#[derive(Copy, Clone, Debug, PartialEq, Eq, Structural)]
pub enum BitOrder {
    BigEndian,
    LittleEndian,
}

/// A bit was offered to a datagram that is filled to its capacity.
#[derive(Copy, Clone, Debug, PartialEq, Eq, Structural)]
pub struct Error;

/// A datagram of up to 127 bits.
///
/// Its bits are numbered from 0, the least significant one, upwards, and
/// its view is the sequence of them in that numbering. A datagram that is
/// made by default is empty.
#[derive(Copy, Clone, Debug, PartialEq, Eq, Structural)]
pub struct Datagram {
    length_in_bit: u8,
    buffer: u128,
}

impl View for Datagram {
    type V = Seq<bool>;

    closed spec fn view(&self) -> Seq<bool> {
        bits_of(self.buffer, self.length_in_bit as nat)
    }
}

/// `bits` with one more bit, which has just been received.
///
/// The bits of a big endian transmission arrive from the most significant
/// one down, so each new bit takes number 0 and moves the others up by one.
/// Those of a little endian transmission arrive from the least significant
/// one up, so each new bit takes the next free number.
pub open spec fn appended(bits: Seq<bool>, bit: bool, order: BitOrder) -> Seq<bool> {
    match order {
        BitOrder::BigEndian => seq![bit] + bits,
        BitOrder::LittleEndian => bits.push(bit),
    }
}

/// The text that shows `bits` to a reader: the most significant bit first,
/// in groups of four, each group behind a hyphen.
pub open spec fn grouped_text(bits: Seq<bool>) -> Seq<char> {
    Seq::new(
        bits.len() + (bits.len() + 3) / 4,
        |p: int|
            if p % 5 == 0 {
                '-'
            } else if bits[bits.len() - (p / 5 * 4 + p % 5)] {
                '1'
            } else {
                '0'
            },
    )
}

impl Datagram {
    /// The length stays within the capacity, and no bit is set beyond it.
    #[verifier::type_invariant]
    pub closed spec fn well_formed(self) -> bool {
        fits(self.buffer, self.length_in_bit)
    }

    /// The word that holds the bits.
    pub closed spec fn packed(self) -> u128 {
        self.buffer
    }

    /// A well-formed datagram holds at most 127 bits, and its word is the
    /// number that they spell.
    pub proof fn lemma_packed_is_value(self)
        requires
            self.well_formed(),
        ensures
            self@.len() <= CAPACITY,
            self.packed() == value_of(self@),
    {
        lemma_value_of_bits(self.buffer, self.length_in_bit);
    }

    /// Two well-formed datagrams are equal if and only if they have the same
    /// length and the same bits.
    pub proof fn lemma_equal_iff_same_bits(self, other: Datagram)
        requires
            self.well_formed(),
            other.well_formed(),
        ensures
            (self == other) <==> (self@ == other@),
    {
        self.lemma_packed_is_value();
        other.lemma_packed_is_value();
        if self@ == other@ {
            assert(self@.len() == other@.len());
            assert(self.length_in_bit == other.length_in_bit);
        }
    }

    /// Adds a bit that has just been received.
    ///
    /// Fails, and leaves the datagram as it is, if it holds 127 bits already.
    pub fn add_bit(&mut self, bit: bool, order: BitOrder) -> (result: Result<(), Error>)
        ensures
            result is Ok <==> old(self)@.len() < CAPACITY,
            result is Ok ==> final(self)@ == appended(old(self)@, bit, order),
            result is Err ==> *final(self) == *old(self),
    {
        proof {
            use_type_invariant(&*self);
        }
        if self.length_in_bit == CAPACITY {
            Err(Error)
        } else {
            let length = self.length_in_bit;
            let buffer = match order {
                BitOrder::BigEndian => {
                    proof {
                        lemma_shift_in_low(self.buffer, length, bit);
                    }
                    if bit {
                        (self.buffer << 1) | 1
                    } else {
                        self.buffer << 1
                    }
                },
                BitOrder::LittleEndian => {
                    proof {
                        lemma_place_on_top(self.buffer, length, bit);
                    }
                    if bit {
                        self.buffer | (1 << length)
                    } else {
                        self.buffer
                    }
                },
            };
            *self = Datagram { length_in_bit: length + 1, buffer };
            Ok(())
        }
    }

    /// The number of bits.
    pub fn len(&self) -> (n: u8)
        ensures
            n == self@.len(),
            n <= CAPACITY,
    {
        proof {
            use_type_invariant(self);
        }
        self.length_in_bit
    }

    /// Whether the datagram holds no bit.
    pub fn is_empty(&self) -> (empty: bool)
        ensures
            empty == (self@.len() == 0),
    {
        0 == self.length_in_bit
    }

    /// The number that the bits from `min` up to, and without, `max` spell.
    pub fn extract_data(&self, min: u8, max: u8) -> (value: u128)
        requires
            min < max <= self@.len(),
        ensures
            value == value_of(self@.subrange(min as int, max as int)),
    {
        proof {
            use_type_invariant(self);
            lemma_fits_nothing();
        }
        let mut value = 0_u128;
        for index in min..max
            invariant
                min < max <= self@.len() <= CAPACITY,
                fits(value, (index - min) as u8),
                value == value_of(self@.subrange(max + min - index, max as int)),
        {
            let place = max + min - index - 1;
            let mask: u128 = 1 << place;
            let bit = mask & self.buffer != 0;
            proof {
                let seen = (index - min) as u8;
                let found = self@.subrange(place as int, max as int);
                lemma_mask_reads_bit(self.buffer, place);
                lemma_value_of_bits(value, seen);
                lemma_shift_in_low(value, seen, bit);
                lemma_value_of_bits(shifted_in_low(value, bit), (seen + 1) as u8);
                assert((seq![bit] + bits_of(value, seen as nat)).drop_first() =~= bits_of(
                    value,
                    seen as nat,
                ));
                assert(found.drop_first() =~= self@.subrange(place + 1, max as int));
            }
            value <<= 1;
            if bit {
                value |= 1;
            }
        }
        value
    }

    /// The datagram that `bit_repr` spells, its most significant bit first.
    ///
    /// Every `0` and every `1` is a bit; all other characters are skipped, so
    /// that they can serve to group the bits. Fails if the text spells more
    /// bits than a datagram holds.
    pub fn parse(bit_repr: &str) -> (result: Result<Self, Error>)
        ensures
            result is Ok <==> parse_bits(bit_repr@).len() <= CAPACITY,
            result matches Ok(datagram) ==> datagram@ == parse_bits(bit_repr@).reverse(),
    {
        let text = bit_repr.as_bytes();
        proof {
            lemma_parse_bytes_of_text(bit_repr@);
        }
        let mut datagram = Datagram::default();
        for i in 0..text.len()
            invariant
                parse_bytes(text@) == parse_bits(bit_repr@),
                datagram@ == parse_bytes(text@.take(i as int)).reverse(),
        {
            proof {
                lemma_parse_bytes_grows(text@, i + 1);
                assert(text@.take(i + 1).drop_last() =~= text@.take(i as int));
                let before = parse_bytes(text@.take(i as int));
                assert(before.push(false).reverse() =~= seq![false] + before.reverse());
                assert(before.push(true).reverse() =~= seq![true] + before.reverse());
            }
            let sign = text[i];
            if sign == DIGIT_ZERO || sign == DIGIT_ONE {
                if datagram.add_bit(sign == DIGIT_ONE, BitOrder::BigEndian).is_err() {
                    return Err(Error);
                }
            }
        }
        proof {
            use_type_invariant(&datagram);
            datagram.lemma_packed_is_value();
            assert(text@.take(text@.len() as int) =~= text@);
        }
        Ok(datagram)
    }

    /// The datagram that `bit_repr` spells, its most significant bit first.
    ///
    /// Every `0` and every `1` is a bit; all other characters are skipped, so
    /// that they can serve to group the bits. The text may spell no more
    /// bits than a datagram holds.
    pub fn new(bit_repr: &str) -> (datagram: Self)
        requires
            parse_bits(bit_repr@).len() <= CAPACITY,
        ensures
            datagram@ == parse_bits(bit_repr@).reverse(),
    {
        Self::parse(bit_repr).unwrap()
    }

    /// The bits as a text for a reader: the most significant bit first, in
    /// groups of four, each group behind a hyphen.
    pub fn format(&self) -> (text: String)
        ensures
            text@ == grouped_text(self@),
    {
        proof {
            use_type_invariant(self);
        }
        let mut text = String::new();
        for index in 0..self.length_in_bit
            invariant
                self@.len() == self.length_in_bit <= CAPACITY,
                text@ == grouped_text(self@).take(index + (index + 3) / 4),
        {
            proof {
                reveal_strlit("-");
                reveal_strlit("1");
                reveal_strlit("0");
            }
            if 0 == index % 4 {
                text.append("-");
            }
            if 1 == self[self.length_in_bit - 1 - index] {
                text.append("1");
            } else {
                text.append("0");
            }
            assert(text@ =~= grouped_text(self@).take(index + 1 + (index + 4) / 4));
        }
        assert(grouped_text(self@).take(grouped_text(self@).len() as int) =~= grouped_text(self@));
        text
    }

    /// The bits as one number: bit 0 counts 1, bit 1 counts 2, and so on.
    pub fn bits(&self) -> (word: u128)
        ensures
            word == value_of(self@),
    {
        proof {
            use_type_invariant(self);
            self.lemma_packed_is_value();
        }
        self.buffer
    }
}

impl Default for Datagram {
    /// The empty datagram.
    fn default() -> (datagram: Self)
        ensures
            datagram@ == Seq::<bool>::empty(),
    {
        proof {
            lemma_fits_nothing();
        }
        Datagram { length_in_bit: 0, buffer: 0 }
    }
}

impl core::ops::Index<u8> for Datagram {
    type Output = u128;

    /// Bit number `index`, as 0 or 1.
    fn index(&self, index: u8) -> (output: &u128)
        ensures
            *output == if self@[index as int] { 1u128 } else { 0u128 },
    {
        proof {
            use_type_invariant(self);
            lemma_mask_reads_bit(self.buffer, index);
        }
        let mask: u128 = 1 << index;
        if mask & self.buffer == 0 {
            &0
        } else {
            &1
        }
    }
}

impl vstd::std_specs::core::IndexSpecImpl<u8> for Datagram {
    open spec fn index_req(&self, index: &u8) -> bool {
        *index < self@.len()
    }
}

} // verus!
