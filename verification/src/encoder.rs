//! The encoder: from a datagram to the levels of its half bits.

use crate::datagram::{BitOrder, Datagram};
use crate::iter::{
    transmission_order, BitIterator, DatagramBigEndianIterator, DatagramLittleEndianIterator,
};
use vstd::prelude::*;

verus! {

/// The Manchester code of `bits`: two half bits per bit, the first the
/// inverse of the bit and the second the bit itself.
pub open spec fn half_bits(bits: Seq<bool>) -> Seq<bool> {
    Seq::new(
        2 * bits.len(),
        |i: int|
            if i % 2 == 0 {
                !bits[i / 2]
            } else {
                bits[i / 2]
            },
    )
}

/// The code of a run of bits is the two half bits of its first bit, and
/// then the code of the others.
pub proof fn lemma_half_bits_unfold(bits: Seq<bool>)
    requires
        bits.len() > 0,
    ensures
        half_bits(bits) == seq![!bits[0], bits[0]] + half_bits(bits.drop_first()),
{
    let unfolded = seq![!bits[0], bits[0]] + half_bits(bits.drop_first());
    assert forall|i: int| 0 <= i < 2 * bits.len() implies #[trigger] half_bits(bits)[i]
        == unfolded[i] by {
        if i >= 2 {
            assert((i - 2) / 2 == i / 2 - 1);
            assert((i - 2) % 2 == i % 2);
        }
    }
    assert(half_bits(bits) =~= unfolded);
}

/// Encodes a datagram to Manchester code, one half bit per call of `next`.
#[derive(Debug)]
pub struct Encoder<I> {
    datagram_iter: I,
    first_half_bit: bool,
    last_value: Option<bool>,
}

impl Encoder<DatagramBigEndianIterator> {
    /// An encoder that sends `d` from its most significant bit down.
    pub fn new(d: Datagram) -> (encoder: Self)
        ensures
            encoder.remaining() == half_bits(transmission_order(d@, BitOrder::BigEndian)),
    {
        let mut datagram_iter = d.into_big_endian_iter();
        let last_value = datagram_iter.next();
        proof {
            let bits = transmission_order(d@, BitOrder::BigEndian);
            if bits.len() > 0 {
                lemma_half_bits_unfold(bits);
            }
        }
        Encoder::<DatagramBigEndianIterator> { datagram_iter, first_half_bit: true, last_value }
    }
}

impl Encoder<DatagramLittleEndianIterator> {
    /// An encoder that sends `d` from its least significant bit up.
    pub fn new(d: Datagram) -> (encoder: Self)
        ensures
            encoder.remaining() == half_bits(transmission_order(d@, BitOrder::LittleEndian)),
    {
        let mut datagram_iter = d.into_little_endian_iter();
        let last_value = datagram_iter.next();
        proof {
            let bits = transmission_order(d@, BitOrder::LittleEndian);
            if bits.len() > 0 {
                lemma_half_bits_unfold(bits);
            }
        }
        Encoder::<DatagramLittleEndianIterator> { datagram_iter, first_half_bit: true, last_value }
    }
}

impl<I: BitIterator> BitIterator for Encoder<I> {
    /// The half bits that are still to come, the next one first.
    closed spec fn remaining(&self) -> Seq<bool> {
        match self.last_value {
            Some(bit) => (if self.first_half_bit {
                seq![!bit, bit]
            } else {
                seq![bit]
            }) + half_bits(self.datagram_iter.remaining()),
            None => Seq::empty(),
        }
    }

    fn next(&mut self) -> (half_bit: Option<bool>) {
        match self.last_value {
            Some(bit) => {
                if self.first_half_bit {
                    self.first_half_bit = false;
                    assert(self.remaining() =~= old(self).remaining().drop_first());
                    Some(!bit)
                } else {
                    self.first_half_bit = true;
                    self.last_value = self.datagram_iter.next();
                    proof {
                        let bits = old(self).datagram_iter.remaining();
                        if bits.len() > 0 {
                            lemma_half_bits_unfold(bits);
                        }
                        assert(self.remaining() =~= old(self).remaining().drop_first());
                    }
                    Some(bit)
                }
            },
            None => None,
        }
    }
}

} // verus!
