//! Manchester code as the Philips RC5 infrared protocol uses it, on a stream
//! of periodically taken binary samples.
//!
//! * [`Datagram`] holds up to 127 bits in one machine word.
//! * [`Encoder`] turns a datagram into the levels of its half bits.
//! * [`Decoder`] recovers datagrams from samples, three per half bit. All
//!   that it knows of time is the count of the samples.
//! * [`InfraredEmitter`] paces the sending of datagrams: it says, once per
//!   half bit, what the modulator is to do.
//!
//! The modules `silence` and `round_trip` hold what is proved of whole runs
//! of samples: what a still line leads to, and that the decoder reads what
//! the encoder sends.

pub mod bits;
pub mod datagram;
pub mod decoder;
pub mod emitter;
pub mod encoder;
pub mod iter;
pub mod round_trip;
pub mod silence;
pub mod text;

pub use datagram::{BitOrder, Datagram, Error};
pub use decoder::{ActivityLevel, Decoder, SyncOnTurningEdge};
pub use emitter::{InfraredEmitter, Modulation};
pub use encoder::Encoder;
pub use iter::{BitIterator, DatagramBigEndianIterator, DatagramLittleEndianIterator};
