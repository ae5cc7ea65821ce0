//! The decoder: from periodically taken samples to datagrams.
//!
//! The line is sampled three times per half bit. Every bit of a Manchester
//! coded signal has an edge in its middle, and the sample that follows this
//! edge is where the decoder reads the bit: the record marker. A datagram
//! begins with the first record marker after a silence, and it ends when
//! the line has shown no edge for more than one and a half bits.

use crate::datagram::{appended, BitOrder, Datagram, CAPACITY};
use vstd::prelude::*;

verus! {

/// The samples that span half a bit.
pub const SAMPLES_PER_HALF_BIT_PERIOD: u8 = 3;

/// The samples by which an edge may come early or late.
pub const TOLERANCE: u8 = 1;

/// The least distance between two record markers.
pub const LOWER_BARRIER: u8 = 2 * SAMPLES_PER_HALF_BIT_PERIOD - TOLERANCE;

/// The greatest distance between two record markers.
pub const UPPER_BARRIER: u8 = 2 * SAMPLES_PER_HALF_BIT_PERIOD + TOLERANCE;

/// The samples without an edge after which a datagram is over.
pub const NO_EDGE_EXIT_LIMIT: u8 = 3 * SAMPLES_PER_HALF_BIT_PERIOD;

/// The level of the line while a datagram makes itself heard: the opposite
/// of the level at which the line rests.
#[derive(Copy, Clone, Debug, PartialEq, Eq, Structural)]
pub enum ActivityLevel {
    High,
    Low,
}

/// Which edge after a silence sits in the middle of the first bit.
///
/// Together with the activity level this fixes the first bit of every
/// datagram that the decoder can read:
///
/// | Activity level | Sync on turning edge | First bit |
/// |----------------|----------------------|-----------|
/// | High           | First                | 0         |
/// | High           | Second               | 1         |
/// | Low            | First                | 1         |
/// | Low            | Second               | 0         |
#[derive(Copy, Clone, Debug, PartialEq, Eq, Structural)]
pub enum SyncOnTurningEdge {
    First,
    Second,
}

/// The level at which the line rests between datagrams: high is `true`.
pub open spec fn idle_level(activity_level: ActivityLevel) -> bool {
    activity_level is Low
}

/// What a decoder knows between two samples.
pub struct DecoderState {
    pub activity_level: ActivityLevel,
    pub sync_on_turning_edge: SyncOnTurningEdge,
    pub bit_order: BitOrder,
    /// The bits of the datagram that is being received.
    pub accumulator: Seq<bool>,
    pub previous_sample: bool,
    /// The samples since the last edge, that edge's own sample counted.
    pub edge_distance: nat,
    /// The samples since the last record marker, the marker counted.
    pub recording_distance: nat,
    pub receiving_started: bool,
}

impl DecoderState {
    /// The datagram is within its capacity, and both distances are counted
    /// from 1 and held at the exit limit.
    pub open spec fn valid(self) -> bool {
        &&& self.accumulator.len() <= CAPACITY
        &&& 1 <= self.edge_distance <= NO_EDGE_EXIT_LIMIT
        &&& 1 <= self.recording_distance <= NO_EDGE_EXIT_LIMIT
    }

    /// The state of a decoder that has not seen a sample yet.
    pub open spec fn initial(
        activity_level: ActivityLevel,
        sync_on_turning_edge: SyncOnTurningEdge,
        bit_order: BitOrder,
    ) -> DecoderState {
        DecoderState {
            activity_level,
            sync_on_turning_edge,
            bit_order,
            accumulator: Seq::empty(),
            previous_sample: idle_level(activity_level),
            edge_distance: NO_EDGE_EXIT_LIMIT as nat,
            recording_distance: NO_EDGE_EXIT_LIMIT as nat,
            receiving_started: false,
        }
    }

    /// The sample differs from the one before it.
    pub open spec fn is_edge(self, sample: bool) -> bool {
        sample != self.previous_sample
    }

    /// The sample follows the edge with which the reception of a datagram
    /// begins: the first edge after a silence, or the one that comes within
    /// half a bit of it.
    pub open spec fn starts_reception(self, sample: bool) -> bool {
        &&& self.is_edge(sample)
        &&& !self.receiving_started
        &&& match self.sync_on_turning_edge {
            SyncOnTurningEdge::First => true,
            SyncOnTurningEdge::Second => self.edge_distance <= SAMPLES_PER_HALF_BIT_PERIOD
                + TOLERANCE,
        }
    }

    /// The sample is a record marker: it follows an edge that begins the
    /// reception, or one that comes a bit after the last marker.
    pub open spec fn records_bit(self, sample: bool) -> bool {
        &&& self.is_edge(sample)
        &&& (self.starts_reception(sample) || LOWER_BARRIER <= self.recording_distance
            <= UPPER_BARRIER)
    }

    /// With this sample the line has been still for longer than the exit
    /// limit.
    pub open spec fn silence_elapsed(self, sample: bool) -> bool {
        !self.is_edge(sample) && self.edge_distance + 1 > NO_EDGE_EXIT_LIMIT
    }

    /// The sample is a record marker for which the datagram has no room.
    pub open spec fn overflows(self, sample: bool) -> bool {
        self.records_bit(sample) && self.accumulator.len() >= CAPACITY
    }

    /// The datagram that this sample completes, if it completes one: the
    /// silence has lasted long enough, bits have been recorded, and the line
    /// is back at rest.
    pub open spec fn completed(self, sample: bool) -> Option<Seq<bool>> {
        if self.silence_elapsed(sample) && self.accumulator.len() > 0 && sample == idle_level(
            self.activity_level,
        ) {
            Some(self.accumulator)
        } else {
            None
        }
    }

    /// The state after the sample.
    ///
    /// A record marker adds the inverse of its level to the datagram. A
    /// silence that has lasted long enough empties the datagram, whether it
    /// was handed out or not, and ends the reception.
    pub open spec fn step(self, sample: bool) -> DecoderState {
        DecoderState {
            accumulator: if self.silence_elapsed(sample) {
                Seq::empty()
            } else if self.records_bit(sample) {
                appended(self.accumulator, !sample, self.bit_order)
            } else {
                self.accumulator
            },
            previous_sample: sample,
            edge_distance: if self.is_edge(sample) {
                1
            } else if self.edge_distance < NO_EDGE_EXIT_LIMIT {
                self.edge_distance + 1
            } else {
                NO_EDGE_EXIT_LIMIT as nat
            },
            recording_distance: if self.records_bit(sample) {
                1
            } else if self.is_edge(sample) {
                self.recording_distance
            } else if self.recording_distance < NO_EDGE_EXIT_LIMIT {
                self.recording_distance + 1
            } else {
                NO_EDGE_EXIT_LIMIT as nat
            },
            receiving_started: if self.silence_elapsed(sample) {
                false
            } else {
                self.receiving_started || self.starts_reception(sample)
            },
            ..self
        }
    }
}

impl DecoderState {
    /// After a silence: both distances stand at the exit limit, and no
    /// datagram is being received.
    pub open spec fn at_rest(self) -> bool {
        &&& self.accumulator.len() == 0
        &&& self.edge_distance == NO_EDGE_EXIT_LIMIT
        &&& self.recording_distance == NO_EDGE_EXIT_LIMIT
        &&& !self.receiving_started
    }

    /// The state after `samples`, taken one by one.
    pub open spec fn run(self, samples: Seq<bool>) -> DecoderState
        decreases samples.len(),
    {
        if samples.len() == 0 {
            self
        } else {
            self.run(samples.drop_last()).step(samples.last())
        }
    }

    /// The datagrams that `samples` complete, the earliest first.
    pub open spec fn frames(self, samples: Seq<bool>) -> Seq<Seq<bool>>
        decreases samples.len(),
    {
        if samples.len() == 0 {
            Seq::empty()
        } else {
            let earlier = self.frames(samples.drop_last());
            match self.run(samples.drop_last()).completed(samples.last()) {
                Some(frame) => earlier.push(frame),
                None => earlier,
            }
        }
    }

    /// The datagram has room for every bit that `samples` record.
    pub open spec fn accepts(self, samples: Seq<bool>) -> bool
        decreases samples.len(),
    {
        if samples.len() == 0 {
            true
        } else {
            &&& self.accepts(samples.drop_last())
            &&& !self.run(samples.drop_last()).overflows(samples.last())
        }
    }

    /// A sample for which the datagram has room leaves a valid state.
    pub proof fn lemma_step_keeps_valid(self, sample: bool)
        requires
            self.valid(),
            !self.overflows(sample),
        ensures
            self.step(sample).valid(),
    {
    }

    /// Samples for which the datagram has room leave a valid state.
    pub proof fn lemma_run_keeps_valid(self, samples: Seq<bool>)
        requires
            self.valid(),
            self.accepts(samples),
        ensures
            self.run(samples).valid(),
        decreases samples.len(),
    {
        if samples.len() > 0 {
            self.lemma_run_keeps_valid(samples.drop_last());
            self.run(samples.drop_last()).lemma_step_keeps_valid(samples.last());
        }
    }

    /// One more sample: the run, its datagrams and its demand for room go
    /// on from where the samples before it have led.
    pub proof fn lemma_run_push(self, samples: Seq<bool>, sample: bool)
        ensures
            self.run(samples.push(sample)) == self.run(samples).step(sample),
            self.frames(samples.push(sample)) == match self.run(samples).completed(sample) {
                Some(frame) => self.frames(samples).push(frame),
                None => self.frames(samples),
            },
            self.accepts(samples.push(sample)) == (self.accepts(samples) && !self.run(
                samples,
            ).overflows(sample)),
    {
        assert(samples.push(sample).drop_last() =~= samples);
    }

    /// Samples that follow others are taken from the state in which those
    /// have left the decoder.
    pub proof fn lemma_run_concat(self, first: Seq<bool>, second: Seq<bool>)
        ensures
            self.run(first + second) == self.run(first).run(second),
            self.frames(first + second) == self.frames(first) + self.run(first).frames(second),
            self.accepts(first + second) == (self.accepts(first) && self.run(first).accepts(
                second,
            )),
        decreases second.len(),
    {
        if second.len() == 0 {
            assert(first + second =~= first);
            assert(self.frames(first) + self.run(first).frames(second) =~= self.frames(first));
        } else {
            let shorter = second.drop_last();
            self.lemma_run_concat(first, shorter);
            assert((first + second).drop_last() =~= first + shorter);
            let earlier = self.frames(first) + self.run(first).frames(shorter);
            match self.run(first + shorter).completed(second.last()) {
                Some(frame) => {
                    assert(earlier.push(frame) =~= self.frames(first) + self.run(first).frames(
                        shorter,
                    ).push(frame));
                },
                None => {},
            }
        }
    }
}

/// The bits of the datagram that a call of [`Decoder::next`] returned.
pub open spec fn bits_of_frame(frame: Option<Datagram>) -> Option<Seq<bool>> {
    match frame {
        Some(datagram) => Some(datagram@),
        None => None,
    }
}

/// Decodes a Manchester coded stream of periodically taken samples into
/// datagrams.
pub struct Decoder {
    activity_level: ActivityLevel,
    sync_on_turning_edge: SyncOnTurningEdge,
    bit_order: BitOrder,
    datagram: Datagram,
    previous_sample: bool,
    edge_distance: u8,
    recording_distance: u8,
    receiving_started: bool,
}

impl View for Decoder {
    type V = DecoderState;

    closed spec fn view(&self) -> DecoderState {
        DecoderState {
            activity_level: self.activity_level,
            sync_on_turning_edge: self.sync_on_turning_edge,
            bit_order: self.bit_order,
            accumulator: self.datagram@,
            previous_sample: self.previous_sample,
            edge_distance: self.edge_distance as nat,
            recording_distance: self.recording_distance as nat,
            receiving_started: self.receiving_started,
        }
    }
}

impl Decoder {
    /// The datagram in progress is well formed, and both distances are
    /// counted from 1 and held at the exit limit.
    #[verifier::type_invariant]
    pub closed spec fn well_formed(self) -> bool {
        &&& self.datagram.well_formed()
        &&& 1 <= self.edge_distance <= NO_EDGE_EXIT_LIMIT
        &&& 1 <= self.recording_distance <= NO_EDGE_EXIT_LIMIT
    }

    /// The state of a well-formed decoder is valid.
    pub proof fn lemma_view_is_valid(self)
        requires
            self.well_formed(),
        ensures
            self@.valid(),
    {
        self.datagram.lemma_packed_is_value();
    }

    /// A decoder for a line that rests at the opposite of `activity_level`.
    ///
    /// It begins as after a long silence.
    pub fn new(
        activity_level: ActivityLevel,
        sync_on_turning_edge: SyncOnTurningEdge,
        bit_order: BitOrder,
    ) -> (decoder: Self)
        ensures
            decoder@ == DecoderState::initial(activity_level, sync_on_turning_edge, bit_order),
    {
        let previous_sample = match activity_level {
            ActivityLevel::High => false,
            ActivityLevel::Low => true,
        };
        let datagram = Datagram::default();
        proof {
            use_type_invariant(&datagram);
        }
        Decoder {
            activity_level,
            sync_on_turning_edge,
            bit_order,
            datagram,
            previous_sample,
            edge_distance: NO_EDGE_EXIT_LIMIT,
            recording_distance: NO_EDGE_EXIT_LIMIT,
            receiving_started: false,
        }
    }

    /// Takes the next sample of the line, `true` for high, and returns the
    /// datagram that it completes, if it completes one.
    ///
    /// To be called once per sampling period, a third of a half bit. The
    /// datagram in progress must have room for the bit, if the sample
    /// records one: see [`Decoder::has_room_for`].
    pub fn next(&mut self, sample: bool) -> (frame: Option<Datagram>)
        requires
            !old(self)@.overflows(sample),
        ensures
            final(self)@ == old(self)@.step(sample),
            bits_of_frame(frame) == old(self)@.completed(sample),
    {
        proof {
            use_type_invariant(&*self);
        }
        let mut frame: Option<Datagram> = None;
        let mut datagram = self.datagram;
        let mut edge_distance = self.edge_distance;
        let mut recording_distance = self.recording_distance;
        let mut receiving_started = self.receiving_started;

        if sample != self.previous_sample {
            let mut record_marker_reached = false;
            if !receiving_started {
                match self.sync_on_turning_edge {
                    SyncOnTurningEdge::First => {
                        record_marker_reached = true;
                        receiving_started = true;
                    },
                    SyncOnTurningEdge::Second => {
                        if edge_distance <= SAMPLES_PER_HALF_BIT_PERIOD + TOLERANCE {
                            record_marker_reached = true;
                            receiving_started = true;
                        }
                    },
                }
            }
            if recording_distance >= LOWER_BARRIER && recording_distance <= UPPER_BARRIER {
                record_marker_reached = true;
            }
            if record_marker_reached {
                datagram.add_bit(!sample, self.bit_order).unwrap();
                recording_distance = 1;
            }
            edge_distance = 1;
        } else {
            edge_distance += 1;
            recording_distance += 1;
        }

        if edge_distance > NO_EDGE_EXIT_LIMIT {
            let at_rest = match self.activity_level {
                ActivityLevel::High => !sample,
                ActivityLevel::Low => sample,
            };
            if !datagram.is_empty() && at_rest {
                frame = Some(datagram);
            }
            receiving_started = false;
            datagram = Datagram::default();
            edge_distance -= 1;
        }
        if recording_distance > NO_EDGE_EXIT_LIMIT {
            recording_distance -= 1;
        }
        proof {
            use_type_invariant(&datagram);
        }
        *self = Decoder {
            activity_level: self.activity_level,
            sync_on_turning_edge: self.sync_on_turning_edge,
            bit_order: self.bit_order,
            datagram,
            previous_sample: sample,
            edge_distance,
            recording_distance,
            receiving_started,
        };
        frame
    }

    /// Whether `sample` can be taken: it is no record marker, or the datagram
    /// has room for one more bit.
    pub fn has_room_for(&self, sample: bool) -> (room: bool)
        ensures
            room == !self@.overflows(sample),
    {
        if self.datagram.len() < CAPACITY || sample == self.previous_sample {
            true
        } else {
            let starts = !self.receiving_started && match self.sync_on_turning_edge {
                SyncOnTurningEdge::First => true,
                SyncOnTurningEdge::Second => self.edge_distance <= SAMPLES_PER_HALF_BIT_PERIOD
                    + TOLERANCE,
            };
            let follows = self.recording_distance >= LOWER_BARRIER && self.recording_distance
                <= UPPER_BARRIER;
            !(starts || follows)
        }
    }

    /// The datagram that is being received.
    pub fn datagram(&self) -> (datagram: Datagram)
        ensures
            datagram@ == self@.accumulator,
    {
        self.datagram
    }

    /// The level of the last sample, or the rest level before the first.
    pub fn previous_sample(&self) -> (sample: bool)
        ensures
            sample == self@.previous_sample,
    {
        self.previous_sample
    }

    /// The samples since the last edge, up to the exit limit.
    pub fn edge_distance(&self) -> (distance: u8)
        ensures
            distance == self@.edge_distance,
    {
        self.edge_distance
    }

    /// The samples since the last record marker, up to the exit limit.
    pub fn recording_distance(&self) -> (distance: u8)
        ensures
            distance == self@.recording_distance,
    {
        self.recording_distance
    }
}

} // verus!
