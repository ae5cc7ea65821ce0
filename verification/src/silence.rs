//! What the decoder makes of a line that keeps its level.

use crate::decoder::{idle_level, DecoderState, NO_EDGE_EXIT_LIMIT};
use vstd::prelude::*;

verus! {

/// `n` samples of one level.
pub open spec fn silence(level: bool, n: nat) -> Seq<bool> {
    Seq::new(n, |i: int| level)
}

/// The state to which `n` samples without an edge lead: both distances have
/// grown by `n`, up to the exit limit, and once the edge distance has passed
/// the limit, the datagram is empty and the reception over.
pub open spec fn after_silence(state: DecoderState, n: nat) -> DecoderState {
    let over = state.edge_distance + n > NO_EDGE_EXIT_LIMIT;
    DecoderState {
        accumulator: if over {
            Seq::empty()
        } else {
            state.accumulator
        },
        edge_distance: if over {
            NO_EDGE_EXIT_LIMIT as nat
        } else {
            state.edge_distance + n
        },
        recording_distance: if state.recording_distance + n > NO_EDGE_EXIT_LIMIT {
            NO_EDGE_EXIT_LIMIT as nat
        } else {
            state.recording_distance + n
        },
        receiving_started: if over {
            false
        } else {
            state.receiving_started
        },
        ..state
    }
}

/// The datagrams that `n` samples without an edge complete: the one that
/// was being received, if the line rests and the silence lasts beyond the
/// exit limit, and none otherwise.
pub open spec fn frames_of_silence(state: DecoderState, n: nat) -> Seq<Seq<bool>> {
    if state.edge_distance + n > NO_EDGE_EXIT_LIMIT && state.accumulator.len() > 0
        && state.previous_sample == idle_level(state.activity_level) {
        seq![state.accumulator]
    } else {
        Seq::empty()
    }
}

/// A line that keeps its level for `n` samples: the decoder takes them all,
/// ends in the state that `after_silence` gives, and completes what
/// `frames_of_silence` gives. The datagram that is being received never
/// grows, and from the exit limit on the decoder is at rest.
pub proof fn lemma_silence(state: DecoderState, n: nat)
    requires
        state.valid(),
    ensures
        state.accepts(silence(state.previous_sample, n)),
        state.run(silence(state.previous_sample, n)) == after_silence(state, n),
        state.frames(silence(state.previous_sample, n)) == frames_of_silence(state, n),
        after_silence(state, n).accumulator.len() <= state.accumulator.len(),
        n >= NO_EDGE_EXIT_LIMIT ==> after_silence(state, n).at_rest(),
    decreases n,
{
    let level = state.previous_sample;
    if n == 0 {
        assert(after_silence(state, n).accumulator =~= state.accumulator);
    } else {
        let shorter = (n - 1) as nat;
        lemma_silence(state, shorter);
        assert(silence(level, n) =~= silence(level, shorter).push(level));
        state.lemma_run_push(silence(level, shorter), level);
        let before = after_silence(state, shorter);
        assert(before.step(level).accumulator =~= after_silence(state, n).accumulator);
        assert(state.frames(silence(level, n)) =~= frames_of_silence(state, n));
    }
}

/// A line that keeps its level completes no datagram, and the datagram that
/// is being received does not grow. Left out is the silence at rest level
/// that follows recorded bits and lasts beyond the exit limit: that one
/// completes the datagram.
pub proof fn lemma_silence_completes_nothing(state: DecoderState, n: nat)
    requires
        state.valid(),
        state.accumulator.len() == 0 || state.previous_sample != idle_level(state.activity_level)
            || state.edge_distance + n <= NO_EDGE_EXIT_LIMIT,
    ensures
        state.frames(silence(state.previous_sample, n)) == Seq::<Seq<bool>>::empty(),
        state.run(silence(state.previous_sample, n)).accumulator.len() <= state.accumulator.len(),
{
    lemma_silence(state, n);
}

/// A decoder that has not seen a sample yet completes no datagram on a
/// line that keeps one level, whichever it is.
pub proof fn lemma_constant_line_completes_nothing(state: DecoderState, level: bool, n: nat)
    requires
        state.valid(),
        state.at_rest(),
        state.previous_sample == idle_level(state.activity_level),
    ensures
        state.frames(silence(level, n)) == Seq::<Seq<bool>>::empty(),
{
    if level == state.previous_sample {
        lemma_silence(state, n);
    } else if n > 0 {
        let after_edge = state.step(level);
        let rest = (n - 1) as nat;
        assert(silence(level, n) =~= seq![level] + silence(level, rest));
        state.lemma_run_concat(seq![level], silence(level, rest));
        state.lemma_run_push(Seq::empty(), level);
        assert(seq![level] =~= Seq::<bool>::empty().push(level));
        state.lemma_step_keeps_valid(level);
        lemma_silence(after_edge, rest);
    }
}

/// One edge after a silence, and silence again for `n` samples: no datagram
/// is completed. Left out is the edge that leads to the rest level from a
/// line that was stuck at the other level, where the decoder takes the
/// first edge for a record marker and the silence lasts up to the exit
/// limit: there it hands out the one bit that it recorded.
pub proof fn lemma_lone_edge_completes_nothing(state: DecoderState, n: nat)
    requires
        state.valid(),
        state.at_rest(),
        state.sync_on_turning_edge is Second || state.previous_sample == idle_level(
            state.activity_level,
        ) || n < NO_EDGE_EXIT_LIMIT,
    ensures
        state.frames(seq![!state.previous_sample] + silence(!state.previous_sample, n)) == Seq::<
            Seq<bool>,
        >::empty(),
{
    let level = !state.previous_sample;
    let after_edge = state.step(level);
    state.lemma_run_concat(seq![level], silence(level, n));
    assert(seq![level] =~= Seq::<bool>::empty().push(level));
    state.lemma_run_push(Seq::empty(), level);
    state.lemma_step_keeps_valid(level);
    lemma_silence(after_edge, n);
}

} // verus!
