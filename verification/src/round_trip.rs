//! From a datagram to the line and back: what the encoder sends, the
//! decoder reads.
//!
//! The line is sampled three times per half bit. The usual infrared
//! receiver pulls it low while it sees the carrier; on such a line every
//! datagram comes back whose first bit is the one that the decoder expects.
//! On a line that is high while the carrier is on, the edges in the middle
//! of the bits turn the wrong way, and only datagrams of which every bit
//! stands at the rest level come back.

use crate::datagram::{appended, CAPACITY};
use crate::decoder::{
    idle_level, ActivityLevel, DecoderState, SyncOnTurningEdge, LOWER_BARRIER,
    NO_EDGE_EXIT_LIMIT, SAMPLES_PER_HALF_BIT_PERIOD,
};
use crate::encoder::half_bits;
use crate::iter::{
    collected, lemma_collected_from_transmission, lemma_collected_reads_back, transmission_order,
};
use crate::silence::{lemma_silence, silence};
use vstd::prelude::*;

verus! {

/// The samples that the receiver takes while `levels` are sent, one level
/// per half bit: three for each, at `on_level` where the carrier is on and
/// at the inverse of it where the carrier is off.
pub open spec fn line_samples(levels: Seq<bool>, on_level: bool) -> Seq<bool> {
    Seq::new(
        SAMPLES_PER_HALF_BIT_PERIOD as nat * levels.len(),
        |i: int| levels[i / (SAMPLES_PER_HALF_BIT_PERIOD as int)] == on_level,
    )
}

/// Six samples: three at `level`, and three at the inverse of it.
pub open spec fn bit_samples(level: bool) -> Seq<bool> {
    seq![level, level, level, !level, !level, !level]
}

/// The first bit of every datagram that a decoder can read from a line
/// that is low while the carrier is on.
///
/// A decoder that synchronises on the first edge needs the line to rest
/// through the first half of the first bit; one that synchronises on the
/// second edge needs it to leave the rest level there.
pub open spec fn first_bit(
    activity_level: ActivityLevel,
    sync_on_turning_edge: SyncOnTurningEdge,
) -> bool {
    match sync_on_turning_edge {
        SyncOnTurningEdge::First => idle_level(activity_level),
        SyncOnTurningEdge::Second => !idle_level(activity_level),
    }
}

/// The state of a decoder in the course of a datagram, between two bits:
/// `held` is what it has recorded, the line stands at `level`, and the last
/// record marker is `marker` samples back.
pub open spec fn between_bits(
    state: DecoderState,
    held: Seq<bool>,
    level: bool,
    marker: nat,
) -> DecoderState {
    DecoderState {
        accumulator: held,
        previous_sample: level,
        edge_distance: SAMPLES_PER_HALF_BIT_PERIOD as nat,
        recording_distance: marker,
        receiving_started: true,
        ..state
    }
}

/// One more bit on the line is six more samples: the first three at the
/// level of the bit if the line is low while the carrier is on, and at the
/// inverse of it if the line is high then.
proof fn lemma_line_samples_push(sent: Seq<bool>, bit: bool, on_level: bool)
    ensures
        line_samples(half_bits(sent.push(bit)), on_level) == line_samples(
            half_bits(sent),
            on_level,
        ) + bit_samples(bit != on_level),
{
    let longer = line_samples(half_bits(sent.push(bit)), on_level);
    let joined = line_samples(half_bits(sent), on_level) + bit_samples(bit != on_level);
    assert forall|i: int| 0 <= i < longer.len() implies #[trigger] longer[i] == joined[i] by {
        let h = i / 3;
        if i < 6 * sent.len() {
            assert(h / 2 < sent.len());
        } else {
            let j = i - 6 * sent.len();
            assert(h == 2 * sent.len() + j / 3);
            assert(h / 2 == sent.len());
            assert(h % 2 == j / 3);
            assert(joined[i] == bit_samples(bit != on_level)[j]);
        }
    }
    assert(longer =~= joined);
}

/// Six samples, taken one by one: where they lead, and that they complete
/// nothing and find room if each of them does.
proof fn lemma_six_samples(state: DecoderState, level: bool)
    ensures
        ({
            let first = state.step(level);
            let second = first.step(level);
            let third = second.step(level);
            let fourth = third.step(!level);
            let fifth = fourth.step(!level);
            &&& state.run(bit_samples(level)) == fifth.step(!level)
            &&& state.frames(bit_samples(level)).len() == 0 <== {
                &&& state.completed(level) is None
                &&& first.completed(level) is None
                &&& second.completed(level) is None
                &&& third.completed(!level) is None
                &&& fourth.completed(!level) is None
                &&& fifth.completed(!level) is None
            }
            &&& state.accepts(bit_samples(level)) <== {
                &&& !state.overflows(level)
                &&& !first.overflows(level)
                &&& !second.overflows(level)
                &&& !third.overflows(!level)
                &&& !fourth.overflows(!level)
                &&& !fifth.overflows(!level)
            }
        }),
{
    let none = Seq::<bool>::empty();
    let one = none.push(level);
    let two = one.push(level);
    let three = two.push(level);
    let four = three.push(!level);
    let five = four.push(!level);
    assert(five.push(!level) =~= bit_samples(level));
    state.lemma_run_push(none, level);
    state.lemma_run_push(one, level);
    state.lemma_run_push(two, level);
    state.lemma_run_push(three, !level);
    state.lemma_run_push(four, !level);
    state.lemma_run_push(five, !level);
}

/// On a line that is low while the carrier is on, the six samples of a bit
/// record that bit and nothing else, be it the first bit after a silence or
/// a later one.
proof fn lemma_bit_is_recorded(state: DecoderState, bit: bool)
    requires
        state.valid(),
        state.accumulator.len() < CAPACITY,
        state == between_bits(
            state,
            state.accumulator,
            state.previous_sample,
            SAMPLES_PER_HALF_BIT_PERIOD as nat,
        ) || (state.at_rest() && state.previous_sample == idle_level(state.activity_level) && bit
            == first_bit(state.activity_level, state.sync_on_turning_edge)),
    ensures
        state.accepts(bit_samples(bit)),
        state.frames(bit_samples(bit)) == Seq::<Seq<bool>>::empty(),
        state.run(bit_samples(bit)) == between_bits(
            state,
            appended(state.accumulator, bit, state.bit_order),
            !bit,
            SAMPLES_PER_HALF_BIT_PERIOD as nat,
        ),
{
    lemma_six_samples(state, bit);
    let third = state.step(bit).step(bit).step(bit);
    assert(third.accumulator =~= state.accumulator);
    assert(state.run(bit_samples(bit)).accumulator =~= appended(
        state.accumulator,
        bit,
        state.bit_order,
    ));
    assert(state.frames(bit_samples(bit)) =~= Seq::<Seq<bool>>::empty());
}

/// On a line that is low while the carrier is on, the samples of the bits
/// `sent`, taken after a silence, record them all and complete nothing.
proof fn lemma_bits_are_recorded(state: DecoderState, sent: Seq<bool>)
    requires
        state.valid(),
        state.at_rest(),
        state.previous_sample == idle_level(state.activity_level),
        1 <= sent.len() <= CAPACITY,
        sent[0] == first_bit(state.activity_level, state.sync_on_turning_edge),
    ensures
        state.accepts(line_samples(half_bits(sent), false)),
        state.frames(line_samples(half_bits(sent), false)) == Seq::<Seq<bool>>::empty(),
        state.run(line_samples(half_bits(sent), false)) == between_bits(
            state,
            collected(sent, state.bit_order),
            !sent.last(),
            SAMPLES_PER_HALF_BIT_PERIOD as nat,
        ),
    decreases sent.len(),
{
    let earlier = sent.drop_last();
    let bit = sent.last();
    let before = line_samples(half_bits(earlier), false);
    assert(sent =~= earlier.push(bit));
    lemma_line_samples_push(earlier, bit, false);
    state.lemma_run_concat(before, bit_samples(bit));
    if earlier.len() == 0 {
        assert(before =~= Seq::<bool>::empty());
        assert(collected(earlier, state.bit_order) =~= state.accumulator);
    } else {
        lemma_bits_are_recorded(state, earlier);
        lemma_collected_reads_back(earlier, state.bit_order);
    }
    let reached = state.run(before);
    state.lemma_run_keeps_valid(before);
    lemma_bit_is_recorded(reached, bit);
    assert(state.frames(before) + reached.frames(bit_samples(bit)) =~= Seq::<Seq<bool>>::empty());
}

/// A datagram in progress ends with the silence that follows it: the line
/// goes to rest within the first sample and stays there beyond the exit
/// limit, the datagram is completed, and the decoder is at rest again.
proof fn lemma_rest_completes(state: DecoderState, rest: nat)
    requires
        state.valid(),
        state.accumulator.len() > 0,
        state.receiving_started,
        state.edge_distance == SAMPLES_PER_HALF_BIT_PERIOD,
        state.recording_distance < LOWER_BARRIER || state.previous_sample == idle_level(
            state.activity_level,
        ),
        rest > NO_EDGE_EXIT_LIMIT,
    ensures
        ({
            let idle = idle_level(state.activity_level);
            &&& state.accepts(silence(idle, rest))
            &&& state.frames(silence(idle, rest)) == seq![state.accumulator]
            &&& state.run(silence(idle, rest)).at_rest()
            &&& state.run(silence(idle, rest)).previous_sample == idle
        }),
{
    let idle = idle_level(state.activity_level);
    if state.previous_sample == idle {
        lemma_silence(state, rest);
    } else {
        let shorter = (rest - 1) as nat;
        let turned = state.step(idle);
        assert(silence(idle, rest) =~= seq![idle] + silence(idle, shorter));
        assert(seq![idle] =~= Seq::<bool>::empty().push(idle));
        state.lemma_run_concat(seq![idle], silence(idle, shorter));
        state.lemma_run_push(Seq::empty(), idle);
        state.lemma_step_keeps_valid(idle);
        lemma_silence(turned, shorter);
        assert(turned.accumulator =~= state.accumulator);
        assert(state.frames(seq![idle]) + turned.frames(silence(idle, shorter)) =~= seq![
            state.accumulator,
        ]);
    }
}

/// What the encoder sends, the decoder reads, on a line that is low while
/// the carrier is on.
///
/// A decoder at rest takes the samples of the datagram `bits`, sent in its
/// own bit order, and then those of a line that rests beyond the exit
/// limit. It has room for them all, completes that datagram and no other,
/// and is at rest again.
///
/// The first bit to travel has to be the one that the decoder's
/// configuration fixes, and the datagram has to hold a bit.
pub proof fn lemma_round_trip(state: DecoderState, bits: Seq<bool>, rest: nat)
    requires
        state.valid(),
        state.at_rest(),
        state.previous_sample == idle_level(state.activity_level),
        1 <= bits.len() <= CAPACITY,
        transmission_order(bits, state.bit_order)[0] == first_bit(
            state.activity_level,
            state.sync_on_turning_edge,
        ),
        rest > NO_EDGE_EXIT_LIMIT,
    ensures
        ({
            let line = line_samples(half_bits(transmission_order(bits, state.bit_order)), false)
                + silence(idle_level(state.activity_level), rest);
            &&& state.accepts(line)
            &&& state.frames(line) == seq![bits]
            &&& state.run(line).at_rest()
            &&& state.run(line).previous_sample == idle_level(state.activity_level)
        }),
{
    let idle = idle_level(state.activity_level);
    let sent = transmission_order(bits, state.bit_order);
    let signal = line_samples(half_bits(sent), false);
    lemma_bits_are_recorded(state, sent);
    lemma_collected_from_transmission(bits, state.bit_order);
    state.lemma_run_concat(signal, silence(idle, rest));
    state.lemma_run_keeps_valid(signal);
    lemma_rest_completes(state.run(signal), rest);
    assert(state.frames(signal) + state.run(signal).frames(silence(idle, rest)) =~= seq![bits]);
}

/// On a line that is high while the carrier is on, the six samples of a
/// bit at rest level record that bit and nothing else, if the decoder
/// synchronises on the first edge.
proof fn lemma_rest_bit_is_recorded(state: DecoderState)
    requires
        state.valid(),
        state.accumulator.len() < CAPACITY,
        state.previous_sample == idle_level(state.activity_level),
        state == between_bits(
            state,
            state.accumulator,
            state.previous_sample,
            LOWER_BARRIER as nat,
        ) || (state.at_rest() && state.sync_on_turning_edge is First),
    ensures
        state.accepts(bit_samples(!state.previous_sample)),
        state.frames(bit_samples(!state.previous_sample)) == Seq::<Seq<bool>>::empty(),
        state.run(bit_samples(!state.previous_sample)) == between_bits(
            state,
            appended(state.accumulator, state.previous_sample, state.bit_order),
            state.previous_sample,
            LOWER_BARRIER as nat,
        ),
{
    let level = !state.previous_sample;
    lemma_six_samples(state, level);
    assert(state.step(level).accumulator =~= appended(
        state.accumulator,
        state.previous_sample,
        state.bit_order,
    ));
    assert(state.run(bit_samples(level)).accumulator =~= appended(
        state.accumulator,
        state.previous_sample,
        state.bit_order,
    ));
    assert(state.frames(bit_samples(level)) =~= Seq::<Seq<bool>>::empty());
}

/// On a line that is high while the carrier is on, the samples of bits
/// that all stand at rest level, taken after a silence, record them all and
/// complete nothing, if the decoder synchronises on the first edge.
proof fn lemma_rest_bits_are_recorded(state: DecoderState, sent: Seq<bool>)
    requires
        state.valid(),
        state.at_rest(),
        state.previous_sample == idle_level(state.activity_level),
        state.sync_on_turning_edge is First,
        1 <= sent.len() <= CAPACITY,
        forall|i: int| 0 <= i < sent.len() ==> sent[i] == idle_level(state.activity_level),
    ensures
        state.accepts(line_samples(half_bits(sent), true)),
        state.frames(line_samples(half_bits(sent), true)) == Seq::<Seq<bool>>::empty(),
        state.run(line_samples(half_bits(sent), true)) == between_bits(
            state,
            collected(sent, state.bit_order),
            idle_level(state.activity_level),
            LOWER_BARRIER as nat,
        ),
    decreases sent.len(),
{
    let earlier = sent.drop_last();
    let bit = sent.last();
    let before = line_samples(half_bits(earlier), true);
    assert(sent =~= earlier.push(bit));
    lemma_line_samples_push(earlier, bit, true);
    state.lemma_run_concat(before, bit_samples(!bit));
    if earlier.len() == 0 {
        assert(before =~= Seq::<bool>::empty());
        assert(collected(earlier, state.bit_order) =~= state.accumulator);
    } else {
        lemma_rest_bits_are_recorded(state, earlier);
        lemma_collected_reads_back(earlier, state.bit_order);
    }
    let reached = state.run(before);
    state.lemma_run_keeps_valid(before);
    lemma_rest_bit_is_recorded(reached);
    assert(state.frames(before) + reached.frames(bit_samples(!bit)) =~= Seq::<Seq<bool>>::empty());
}

/// On a line that is high while the carrier is on, the decoder reads what
/// the encoder sends if it synchronises on the first edge and every bit of
/// the datagram stands at the level at which the line rests.
///
/// The record markers of such a datagram are the edges between its bits;
/// a datagram with a bit at the other level has no edge there.
pub proof fn lemma_round_trip_of_rest_bits(state: DecoderState, bits: Seq<bool>, rest: nat)
    requires
        state.valid(),
        state.at_rest(),
        state.previous_sample == idle_level(state.activity_level),
        state.sync_on_turning_edge is First,
        1 <= bits.len() <= CAPACITY,
        forall|i: int| 0 <= i < bits.len() ==> bits[i] == idle_level(state.activity_level),
        rest > NO_EDGE_EXIT_LIMIT,
    ensures
        ({
            let line = line_samples(half_bits(transmission_order(bits, state.bit_order)), true)
                + silence(idle_level(state.activity_level), rest);
            &&& state.accepts(line)
            &&& state.frames(line) == seq![bits]
            &&& state.run(line).at_rest()
            &&& state.run(line).previous_sample == idle_level(state.activity_level)
        }),
{
    let idle = idle_level(state.activity_level);
    let sent = transmission_order(bits, state.bit_order);
    let signal = line_samples(half_bits(sent), true);
    lemma_rest_bits_are_recorded(state, sent);
    lemma_collected_from_transmission(bits, state.bit_order);
    state.lemma_run_concat(signal, silence(idle, rest));
    state.lemma_run_keeps_valid(signal);
    lemma_rest_completes(state.run(signal), rest);
    assert(state.frames(signal) + state.run(signal).frames(silence(idle, rest)) =~= seq![bits]);
}

} // verus!
