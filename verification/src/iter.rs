//! The bits of a datagram, handed out one by one in one of two orders.

use crate::datagram::{appended, BitOrder, Datagram};
use vstd::prelude::*;

verus! {

/// The first of `bits`, if there is one.
pub open spec fn first_of(bits: Seq<bool>) -> Option<bool> {
    if bits.len() > 0 {
        Some(bits[0])
    } else {
        None
    }
}

/// `bits` without the first of them.
pub open spec fn rest_of(bits: Seq<bool>) -> Seq<bool> {
    if bits.len() > 0 {
        bits.drop_first()
    } else {
        bits
    }
}

/// The bits of a datagram in the order in which they travel.
pub open spec fn transmission_order(bits: Seq<bool>, order: BitOrder) -> Seq<bool> {
    match order {
        BitOrder::BigEndian => bits.reverse(),
        BitOrder::LittleEndian => bits,
    }
}

/// The number, within a datagram of `len` bits, of the bit that travels as
/// the `k`-th, counted from 0.
pub open spec fn number_of(k: int, len: int, order: BitOrder) -> int {
    match order {
        BitOrder::BigEndian => len - 1 - k,
        BitOrder::LittleEndian => k,
    }
}

/// The bits of a datagram to which the bits `sent` have been added one by
/// one, as they arrived.
pub open spec fn collected(sent: Seq<bool>, order: BitOrder) -> Seq<bool>
    decreases sent.len(),
{
    if sent.len() == 0 {
        Seq::empty()
    } else {
        appended(collected(sent.drop_last(), order), sent.last(), order)
    }
}

/// Bits that are added to an empty datagram one by one are read back as
/// they were added, whatever the order: the order decides where a bit is
/// kept, not which bit is read as the first, the second and so on.
pub proof fn lemma_collected_reads_back(sent: Seq<bool>, order: BitOrder)
    ensures
        collected(sent, order).len() == sent.len(),
        transmission_order(collected(sent, order), order) == sent,
        forall|k: int|
            0 <= k < sent.len() ==> collected(sent, order)[number_of(k, sent.len() as int, order)]
                == #[trigger] sent[k],
    decreases sent.len(),
{
    if sent.len() > 0 {
        let earlier = sent.drop_last();
        lemma_collected_reads_back(earlier, order);
        assert(sent =~= earlier.push(sent.last()));
        let held = collected(earlier, order);
        assert(transmission_order(appended(held, sent.last(), order), order)
            =~= transmission_order(held, order).push(sent.last()));
        assert forall|k: int| 0 <= k < sent.len() implies collected(sent, order)[number_of(
            k,
            sent.len() as int,
            order,
        )] == #[trigger] sent[k] by {
            if k < earlier.len() {
                assert(earlier[k] == sent[k]);
                assert(held[number_of(k, earlier.len() as int, order)] == earlier[k]);
            }
        }
    } else {
        assert(transmission_order(collected(sent, order), order) =~= sent);
    }
}

/// A datagram is what its receiver collects from the bits in their order of
/// travel.
pub proof fn lemma_collected_from_transmission(bits: Seq<bool>, order: BitOrder)
    ensures
        collected(transmission_order(bits, order), order) == bits,
{
    let sent = transmission_order(bits, order);
    lemma_collected_reads_back(sent, order);
    let held = collected(sent, order);
    assert(held =~= bits) by {
        assert(held.len() == bits.len());
        assert forall|i: int| 0 <= i < bits.len() implies held[i] == bits[i] by {
            let k = number_of(i, bits.len() as int, order);
            assert(number_of(k, bits.len() as int, order) == i);
            assert(held[i] == sent[k]);
        }
    }
}

/// A finite run of bits that is handed out once, bit by bit.
pub trait BitIterator {
    /// The bits that are still to come, the next one first.
    spec fn remaining(&self) -> Seq<bool>;

    /// Hands out the next bit, or nothing when none is left.
    fn next(&mut self) -> (bit: Option<bool>)
        ensures
            bit == first_of(old(self).remaining()),
            final(self).remaining() == rest_of(old(self).remaining()),
    ;
}

/// Hands out the bits of a datagram from the most significant one down.
#[derive(Debug)]
pub struct DatagramBigEndianIterator {
    datagram: Datagram,
    index: u8,
}

impl DatagramBigEndianIterator {
    /// The bits below `index` are still to come.
    #[verifier::type_invariant]
    spec fn well_formed(self) -> bool {
        self.index <= self.datagram@.len()
    }
}

impl BitIterator for DatagramBigEndianIterator {
    closed spec fn remaining(&self) -> Seq<bool> {
        self.datagram@.subrange(0, self.index as int).reverse()
    }

    fn next(&mut self) -> (bit: Option<bool>) {
        proof {
            use_type_invariant(&*self);
        }
        if 0 < self.index {
            self.index -= 1;
            assert(self.remaining() =~= old(self).remaining().drop_first());
            Some(1 == self.datagram[self.index])
        } else {
            None
        }
    }
}

/// Hands out the bits of a datagram from the least significant one up.
#[derive(Debug)]
pub struct DatagramLittleEndianIterator {
    datagram: Datagram,
    index: u8,
}

impl DatagramLittleEndianIterator {
    /// The bits from `index` up are still to come.
    #[verifier::type_invariant]
    spec fn well_formed(self) -> bool {
        self.index <= self.datagram@.len()
    }
}

impl BitIterator for DatagramLittleEndianIterator {
    closed spec fn remaining(&self) -> Seq<bool> {
        self.datagram@.subrange(self.index as int, self.datagram@.len() as int)
    }

    fn next(&mut self) -> (bit: Option<bool>) {
        proof {
            use_type_invariant(&*self);
        }
        if self.datagram.len() > self.index {
            self.index += 1;
            assert(self.remaining() =~= old(self).remaining().drop_first());
            Some(1 == self.datagram[self.index - 1])
        } else {
            None
        }
    }
}

impl Datagram {
    /// The bit that travels as the `position`-th, counted from 0, when the
    /// datagram is sent in `order`; it is also the one that was added as the
    /// `position`-th when the datagram was received in `order`.
    pub fn nth_bit(&self, position: u8, order: BitOrder) -> (bit: bool)
        requires
            position < self@.len(),
        ensures
            bit == transmission_order(self@, order)[position as int],
            bit == self@[number_of(position as int, self@.len() as int, order)],
    {
        let number = match order {
            BitOrder::BigEndian => self.len() - 1 - position,
            BitOrder::LittleEndian => position,
        };
        1 == self[number]
    }

    /// The bits in the order of a big endian transmission.
    pub fn into_big_endian_iter(self) -> (iter: DatagramBigEndianIterator)
        ensures
            iter.remaining() == transmission_order(self@, BitOrder::BigEndian),
    {
        let iter = DatagramBigEndianIterator { datagram: self, index: self.len() };
        assert(self@.subrange(0, self@.len() as int) =~= self@);
        iter
    }

    /// The bits in the order of a little endian transmission.
    pub fn into_little_endian_iter(self) -> (iter: DatagramLittleEndianIterator)
        ensures
            iter.remaining() == transmission_order(self@, BitOrder::LittleEndian),
    {
        let iter = DatagramLittleEndianIterator { datagram: self, index: 0 };
        assert(self@.subrange(0, self@.len() as int) =~= self@);
        iter
    }
}

} // verus!
