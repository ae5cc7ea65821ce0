//! The emitter: sends datagrams half bit by half bit, and keeps the line
//! free for a while after each of them.
//!
//! The emitter decides; it does not touch the modulator. Whoever calls it
//! once per half bit period carries out what it returns.

use crate::datagram::{BitOrder, Datagram};
use crate::encoder::{half_bits, Encoder};
use crate::iter::{
    transmission_order, BitIterator, DatagramBigEndianIterator, DatagramLittleEndianIterator,
};
use vstd::prelude::*;

verus! {

/// The greatest sending power, in percent of the modulator's full duty.
pub const MAX_SENDING_POWER: u8 = 25;

/// What is to be done with the modulator for the coming half bit period.
#[derive(Copy, Clone, Debug, PartialEq, Eq, Structural)]
pub enum Modulation {
    /// Switch the carrier on.
    Enable,
    /// Switch the carrier off.
    Disable,
    /// Leave the modulator as it is: off, between two datagrams.
    Keep,
}

/// What an emitter knows between two half bit periods.
pub struct EmitterState {
    /// The half bits of the datagram in progress that are still to be sent,
    /// or nothing between two datagrams.
    pub sending: Option<Seq<bool>>,
    /// The half bit periods for which the line is left free after a datagram.
    pub max_pause_cycles: nat,
    /// The half bit periods since the last datagram ended, held at 255.
    pub current_pause_cycles: nat,
    /// The sending power of the last datagram, in percent.
    pub sending_power: nat,
}

impl EmitterState {
    /// A new datagram may begin: none is in progress and the pause is over.
    pub open spec fn ready(self) -> bool {
        self.sending is None && self.current_pause_cycles >= self.max_pause_cycles
    }

    /// The order for the modulator in the coming half bit period.
    pub open spec fn modulation(self) -> Modulation {
        match self.sending {
            Some(rest) => if rest.len() > 0 && rest[0] {
                Modulation::Enable
            } else {
                Modulation::Disable
            },
            None => Modulation::Keep,
        }
    }

    /// The state after a half bit period.
    ///
    /// A datagram in progress moves on by one half bit; when none of them is
    /// left it ends, and the pause begins. Between two datagrams the pause
    /// grows by one.
    pub open spec fn tick(self) -> EmitterState {
        match self.sending {
            Some(rest) => if rest.len() > 0 {
                EmitterState { sending: Some(rest.drop_first()), ..self }
            } else {
                EmitterState { sending: None, current_pause_cycles: 0, ..self }
            },
            None => EmitterState {
                current_pause_cycles: if self.current_pause_cycles < u8::MAX {
                    self.current_pause_cycles + 1
                } else {
                    u8::MAX as nat
                },
                ..self
            },
        }
    }

    /// The state after the sending of `bits`, given in the order in which
    /// they travel, has begun with `sending_power`.
    pub open spec fn begin(self, bits: Seq<bool>, sending_power: u8) -> EmitterState {
        EmitterState {
            sending: Some(half_bits(bits)),
            sending_power: if sending_power > MAX_SENDING_POWER {
                MAX_SENDING_POWER as nat
            } else {
                sending_power as nat
            },
            ..self
        }
    }
}

impl EmitterState {
    /// The state after `n` half bit periods.
    pub open spec fn ticks(self, n: nat) -> EmitterState
        decreases n,
    {
        if n == 0 {
            self
        } else {
            self.ticks((n - 1) as nat).tick()
        }
    }

    /// A datagram in progress, `n` half bit periods on.
    ///
    /// One period for each of its half bits, in which the modulator follows
    /// that half bit; one more in which the datagram ends; and from then on
    /// the pause, which counts the periods up to 255. The emitter is ready
    /// for the next datagram when the pause has lasted for the periods that
    /// it was made with, and not before.
    pub proof fn lemma_sending_then_pause(self, n: nat)
        requires
            self.sending is Some,
            self.max_pause_cycles <= u8::MAX,
        ensures
            n < self.sending->0.len() ==> self.ticks(n).modulation() == if self.sending->0[n as int] {
                Modulation::Enable
            } else {
                Modulation::Disable
            },
            n <= self.sending->0.len() ==> self.ticks(n).sending == Some(
                self.sending->0.skip(n as int),
            ),
            n > self.sending->0.len() ==> self.ticks(n).sending is None && self.ticks(
                n,
            ).current_pause_cycles == if n - self.sending->0.len() - 1 < u8::MAX {
                n - self.sending->0.len() - 1
            } else {
                u8::MAX as int
            },
            self.ticks(n).ready() <==> n >= self.sending->0.len() + 1 + self.max_pause_cycles,
            self.ticks(n).sending_power == self.sending_power,
            self.ticks(n).max_pause_cycles == self.max_pause_cycles,
        decreases n,
    {
        let levels = self.sending->0;
        if n == 0 {
            assert(levels.skip(0) =~= levels);
        } else {
            let before = (n - 1) as nat;
            self.lemma_sending_then_pause(before);
            if n <= levels.len() {
                assert(levels.skip(before as int).drop_first() =~= levels.skip(n as int));
            }
        }
    }
}

/// Controls the sending of datagrams, and leaves a pause between them.
#[derive(Debug)]
pub struct InfraredEmitter<I> {
    encoder: Option<Encoder<I>>,
    max_pause_cycles: u8,
    current_pause_cycles: u8,
    sending_power: u8,
}

impl<I: BitIterator> View for InfraredEmitter<I> {
    type V = EmitterState;

    closed spec fn view(&self) -> EmitterState {
        EmitterState {
            sending: match self.encoder {
                Some(encoder) => Some(encoder.remaining()),
                None => None,
            },
            max_pause_cycles: self.max_pause_cycles as nat,
            current_pause_cycles: self.current_pause_cycles as nat,
            sending_power: self.sending_power as nat,
        }
    }
}

impl<I: BitIterator> InfraredEmitter<I> {
    /// An emitter that leaves `pause_cycles` half bit periods between two
    /// datagrams, and before the first.
    pub fn new(pause_cycles: u8) -> (emitter: Self)
        ensures
            emitter@ == (EmitterState {
                sending: None,
                max_pause_cycles: pause_cycles as nat,
                current_pause_cycles: 0,
                sending_power: 0,
            }),
    {
        InfraredEmitter {
            encoder: None,
            max_pause_cycles: pause_cycles,
            current_pause_cycles: 0,
            sending_power: 0,
        }
    }

    /// Moves on by one half bit period, and returns what is to be done with
    /// the modulator for it.
    pub fn send_half_bit(&mut self) -> (modulation: Modulation)
        ensures
            modulation == old(self)@.modulation(),
            final(self)@ == old(self)@.tick(),
    {
        match &mut self.encoder {
            Some(encoder) => match encoder.next() {
                Some(half_bit) => {
                    if half_bit {
                        Modulation::Enable
                    } else {
                        Modulation::Disable
                    }
                },
                None => {
                    self.encoder = None;
                    self.current_pause_cycles = 0;
                    Modulation::Disable
                },
            },
            None => {
                if self.current_pause_cycles < u8::MAX {
                    self.current_pause_cycles += 1;
                }
                Modulation::Keep
            },
        }
    }

    /// The sending power of the last datagram that was begun, in percent of
    /// the modulator's full duty.
    pub fn sending_power(&self) -> (percent: u8)
        ensures
            percent == self@.sending_power,
    {
        self.sending_power
    }
}

impl InfraredEmitter<DatagramBigEndianIterator> {
    /// Begins to send `datagram`, from its most significant bit down, if no
    /// datagram is in progress and the pause after the last one is over.
    ///
    /// A `sending_power` above 25 percent is reduced to 25. Returns whether
    /// the sending has begun; if not, nothing has changed.
    pub fn send_if_possible(&mut self, datagram: Datagram, sending_power: u8) -> (begun: bool)
        ensures
            begun == old(self)@.ready(),
            final(self)@ == if begun {
                old(self)@.begin(transmission_order(datagram@, BitOrder::BigEndian), sending_power)
            } else {
                old(self)@
            },
    {
        if self.encoder.is_some() || self.current_pause_cycles < self.max_pause_cycles {
            false
        } else {
            self.sending_power = if sending_power > MAX_SENDING_POWER {
                MAX_SENDING_POWER
            } else {
                sending_power
            };
            self.encoder = Some(Encoder::<DatagramBigEndianIterator>::new(datagram));
            true
        }
    }
}

impl InfraredEmitter<DatagramLittleEndianIterator> {
    /// Begins to send `datagram`, from its least significant bit up, if no
    /// datagram is in progress and the pause after the last one is over.
    ///
    /// A `sending_power` above 25 percent is reduced to 25. Returns whether
    /// the sending has begun; if not, nothing has changed.
    pub fn send_if_possible(&mut self, datagram: Datagram, sending_power: u8) -> (begun: bool)
        ensures
            begun == old(self)@.ready(),
            final(self)@ == if begun {
                old(self)@.begin(
                    transmission_order(datagram@, BitOrder::LittleEndian),
                    sending_power,
                )
            } else {
                old(self)@
            },
    {
        if self.encoder.is_some() || self.current_pause_cycles < self.max_pause_cycles {
            false
        } else {
            self.sending_power = if sending_power > MAX_SENDING_POWER {
                MAX_SENDING_POWER
            } else {
                sending_power
            };
            self.encoder = Some(Encoder::<DatagramLittleEndianIterator>::new(datagram));
            true
        }
    }
}

} // verus!
