//! What holds of every run of the pipeline, proved over the orchestrator's
//! state machine.

use vstd::prelude::*;
use crate::control::{Command, Poll};
use crate::orchestrator::{Event, Pipeline};
use crate::rate::{lemma_due_is_monotone, lemma_offset_nonneg, NANOS_PER_SECOND};
use crate::schedule::{lemma_count_tracks_rate, lemma_wait_is_tight};
use crate::session::SessionView;
use crate::ticket::{ChunkTicket, Completion, FramePayload, FrameTicket};
use crate::unit::{lemma_ordered_push, ordered, CaptureUnit, MediaClass};

verus! {

/// A step leaves a well-formed pipeline well formed.
pub proof fn lemma_step_keeps_wf(p: Pipeline, now: u64, poll: Poll)
    requires
        p.wf(),
    ensures
        p.stepped(now as nat, poll).wf(),
{
    if p.frames.ticks > 0 && now > p.frames.clock {
        lemma_due_is_monotone(
            p.frames.rate,
            (p.frames.ticks - 1) as nat,
            p.frames.elapsed(),
            (now - p.frames.anchor) as nat,
        );
    }
}

/// So does a whole run.
pub proof fn lemma_run_keeps_wf(p: Pipeline, events: Seq<Event>)
    requires
        p.wf(),
    ensures
        p.run(events).wf(),
    decreases events.len(),
{
    if events.len() > 0 {
        lemma_run_keeps_wf(p, events.drop_last());
        lemma_step_keeps_wf(p.run(events.drop_last()), events.last().now, events.last().poll);
    }
}

/// A step moves the control state by the command it was shown and by
/// nothing else: a closed or empty channel changes nothing.
pub proof fn lemma_step_follows_control(p: Pipeline, now: u64, poll: Poll)
    ensures
        p.stepped(now as nat, poll).control == p.control.observed(poll),
        p.output(now as nat, poll).state == p.control.observed(poll),
        poll is Disconnected ==> p.stepped(now as nat, poll).control == p.control,
{
}

/// `Stopped` is terminal for the whole pipeline: once stopped, no run of
/// events changes the state or yields a ticket of either class.
pub proof fn lemma_stopped_pipeline_is_silent(p: Pipeline, events: Seq<Event>)
    requires
        p.control is Stopped,
    ensures
        p.run(events) == p,
        p.frames_issued(events) == Seq::<FrameTicket>::empty(),
        p.chunks_issued(events) == Seq::<ChunkTicket>::empty(),
    decreases events.len(),
{
    if events.len() > 0 {
        lemma_stopped_pipeline_is_silent(p, events.drop_last());
    }
}

/// The step that observes `Stop` triggers no frame; the only unit it may
/// yield is the audio chunk that was in progress. After it nothing is
/// produced, whatever events follow.
pub proof fn lemma_stop_ends_production(p: Pipeline, now: u64, later: Seq<Event>)
    ensures
        p.stepped(now as nat, Poll::Command(Command::Stop)).control is Stopped,
        p.output(now as nat, Poll::Command(Command::Stop)).frame is None,
        p.output(now as nat, Poll::Command(Command::Stop)).wake_at is None,
        p.stepped(now as nat, Poll::Command(Command::Stop)).frames_issued(later) == Seq::<
            FrameTicket,
        >::empty(),
        p.stepped(now as nat, Poll::Command(Command::Stop)).chunks_issued(later) == Seq::<
            ChunkTicket,
        >::empty(),
{
    lemma_stopped_pipeline_is_silent(p.stepped(now as nat, Poll::Command(Command::Stop)), later);
}

/// A step taken in `Paused` allocates no sequence number of either class
/// and yields no ticket.
pub proof fn lemma_paused_step_allocates_nothing(p: Pipeline, now: u64, poll: Poll)
    requires
        p.output(now as nat, poll).state is Paused,
    ensures
        p.output(now as nat, poll).frame is None,
        p.output(now as nat, poll).audio is None,
        p.stepped(now as nat, poll).frames.ticks == p.frames.ticks,
        p.audio matches Some(c) ==> p.stepped(now as nat, poll).audio matches Some(d) && d.finalized
            == c.finalized,
{
}

/// Time spent paused does not count. However long a paused pipeline waits
/// before it is resumed, the resuming step finds the frame cadence with the
/// running time it had when it was last seen, so a frame fires on resume
/// only if it was already due then: there is nothing to catch up on.
pub proof fn lemma_resume_picks_up_where_it_left_off(p: Pipeline, now: u64)
    requires
        p.wf(),
        p.control is Paused,
    ensures
        p.timed(now as nat).frames.elapsed() == p.frames.elapsed(),
        p.output(now as nat, Poll::Command(Command::Resume)).frame is Some <==> p.frames.fires(),
        p.audio matches Some(c) ==> p.timed(now as nat).audio matches Some(d) && d.recorded()
            == c.recorded(),
{
}

/// With audio disabled the pipeline yields no audio ticket, over any run.
pub proof fn lemma_disabled_audio_is_silent(p: Pipeline, events: Seq<Event>)
    requires
        p.audio is None,
    ensures
        p.run(events).audio is None,
        p.chunks_issued(events) == Seq::<ChunkTicket>::empty(),
    decreases events.len(),
{
    if events.len() > 0 {
        lemma_disabled_audio_is_silent(p, events.drop_last());
    }
}

/// Frame sequence numbers are allocated without gaps and in order: over any
/// run, the `i`-th frame ticket issued carries the number the pipeline
/// started at plus `i`, the count of frames triggered grows by exactly the
/// tickets issued, and no ticket is stamped later than the clock.
pub proof fn lemma_frame_ids_are_consecutive(p: Pipeline, events: Seq<Event>)
    requires
        p.wf(),
    ensures
        p.run(events).frames.first == p.frames.first,
        p.run(events).frames.clock >= p.frames.clock,
        p.run(events).frames.ticks == p.frames.ticks + p.frames_issued(events).len(),
        forall|i: int|
            0 <= i < p.frames_issued(events).len() ==> (#[trigger] p.frames_issued(events)[i]).sequence_id
                == p.frames.number() + i,
        forall|i: int|
            0 <= i < p.frames_issued(events).len() ==> (#[trigger] p.frames_issued(events)[i]).captured_at
                >= p.frames.clock,
        forall|i: int|
            0 <= i < p.frames_issued(events).len() ==> (#[trigger] p.frames_issued(events)[i]).captured_at
                <= p.run(events).frames.clock,
        forall|i: int, j: int|
            0 <= i < j < p.frames_issued(events).len() ==> (#[trigger] p.frames_issued(events)[i]).captured_at
                <= (#[trigger] p.frames_issued(events)[j]).captured_at,
    decreases events.len(),
{
    if events.len() > 0 {
        let front = events.drop_last();
        lemma_frame_ids_are_consecutive(p, front);
        lemma_run_keeps_wf(p, front);
        lemma_run_keeps_wf(p, events);
        let before = p.run(front);
        let issued = p.frames_issued(front);
        let now = events.last().now as nat;
        assert(before.stepped(now, events.last().poll).frames.clock >= before.frames.clock);
        assert forall|i: int| 0 <= i < p.frames_issued(events).len() implies (#[trigger] p.frames_issued(
            events,
        )[i]).captured_at <= p.run(events).frames.clock by {
            if i < issued.len() {
                assert(p.frames_issued(events)[i] == issued[i]);
            }
        }
        assert forall|i: int| 0 <= i < p.frames_issued(events).len() implies (#[trigger] p.frames_issued(
            events,
        )[i]).captured_at >= p.frames.clock by {
            if i < issued.len() {
                assert(p.frames_issued(events)[i] == issued[i]);
            } else {
                assert(before.timed(now).frames.clock >= before.frames.clock);
            }
        }
        assert forall|i: int, j: int| 0 <= i < j < p.frames_issued(events).len() implies (
        #[trigger] p.frames_issued(events)[i]).captured_at <= (#[trigger] p.frames_issued(
            events,
        )[j]).captured_at by {
            assert(p.frames_issued(events)[i] == issued[i]);
            if j < issued.len() {
                assert(p.frames_issued(events)[j] == issued[j]);
            }
        }
    }
}

/// The same for audio: chunk numbers are consecutive from where the
/// pipeline started, and every chunk issued ended no later than the chunk
/// in progress began.
pub proof fn lemma_chunk_ids_are_consecutive(p: Pipeline, events: Seq<Event>)
    requires
        p.wf(),
        p.audio is Some,
    ensures
        p.run(events).audio is Some,
        p.run(events).audio->0.started >= p.audio->0.started,
        p.run(events).audio->0.finalized == p.audio->0.finalized + p.chunks_issued(events).len(),
        forall|i: int|
            0 <= i < p.chunks_issued(events).len() ==> (#[trigger] p.chunks_issued(events)[i]).sequence_id
                == p.audio->0.finalized + i,
        forall|i: int|
            0 <= i < p.chunks_issued(events).len() ==> (#[trigger] p.chunks_issued(events)[i]).captured_at
                >= p.audio->0.started,
        forall|i: int|
            0 <= i < p.chunks_issued(events).len() ==> (#[trigger] p.chunks_issued(events)[i]).captured_at
                <= p.run(events).audio->0.started,
        forall|i: int, j: int|
            0 <= i < j < p.chunks_issued(events).len() ==> (#[trigger] p.chunks_issued(events)[i]).captured_at
                <= (#[trigger] p.chunks_issued(events)[j]).captured_at,
    decreases events.len(),
{
    if events.len() > 0 {
        let front = events.drop_last();
        lemma_chunk_ids_are_consecutive(p, front);
        lemma_run_keeps_wf(p, front);
        lemma_run_keeps_wf(p, events);
        let before = p.run(front);
        let issued = p.chunks_issued(front);
        let now = events.last().now as nat;
        let after = before.stepped(now, events.last().poll);
        assert(after.audio is Some);
        assert(after.audio->0.started >= before.audio->0.started);
        assert forall|i: int| 0 <= i < p.chunks_issued(events).len() implies (#[trigger] p.chunks_issued(
            events,
        )[i]).captured_at <= p.run(events).audio->0.started by {
            if i < issued.len() {
                assert(p.chunks_issued(events)[i] == issued[i]);
            }
        }
        assert forall|i: int| 0 <= i < p.chunks_issued(events).len() implies (#[trigger] p.chunks_issued(
            events,
        )[i]).captured_at >= p.audio->0.started by {
            if i < issued.len() {
                assert(p.chunks_issued(events)[i] == issued[i]);
            } else {
                assert(before.timed(now).audio->0.started >= before.audio->0.started);
            }
        }
        assert forall|i: int, j: int| 0 <= i < j < p.chunks_issued(events).len() implies (
        #[trigger] p.chunks_issued(events)[i]).captured_at <= (#[trigger] p.chunks_issued(
            events,
        )[j]).captured_at by {
            assert(p.chunks_issued(events)[i] == issued[i]);
            if j < issued.len() {
                assert(p.chunks_issued(events)[j] == issued[j]);
            } else {
                assert(before.timed(now).audio->0.started >= before.audio->0.started);
            }
        }
    }
}

/// Every chunk is exactly one chunk length long, except possibly the last
/// chunk of a run that has been stopped, which is shorter but not empty.
pub proof fn lemma_chunks_are_full_length(p: Pipeline, events: Seq<Event>)
    requires
        p.wf(),
        p.audio is Some,
    ensures
        p.run(events).audio is Some,
        p.run(events).audio->0.length == p.audio->0.length,
        forall|i: int|
            0 <= i < p.chunks_issued(events).len() ==> {
                let d = (#[trigger] p.chunks_issued(events)[i]).duration;
                d == p.audio->0.length || (i == p.chunks_issued(events).len() - 1 && p.run(
                    events,
                ).control is Stopped && 0 < d < p.audio->0.length)
            },
    decreases events.len(),
{
    if events.len() > 0 {
        let front = events.drop_last();
        lemma_chunks_are_full_length(p, front);
        lemma_run_keeps_wf(p, front);
        let before = p.run(front);
        let issued = p.chunks_issued(front);
        assert forall|i: int| 0 <= i < p.chunks_issued(events).len() implies {
            let d = (#[trigger] p.chunks_issued(events)[i]).duration;
            d == p.audio->0.length || (i == p.chunks_issued(events).len() - 1 && p.run(events).control is Stopped
                && 0 < d < p.audio->0.length)
        } by {
            if i < issued.len() {
                assert(p.chunks_issued(events)[i] == issued[i]);
            }
        }
    }
}

/// The frame count tracks the configured rate. At the end of any run that
/// leaves the frame cadence with nothing due, the number `n` of frames
/// triggered since the cadence began and its running time `T` (pauses left
/// out) satisfy `n - 1 <= rate * T < n`: the count is within one of
/// `rate * T`.
pub proof fn lemma_frame_count_tracks_rate(p: Pipeline, events: Seq<Event>)
    requires
        p.wf(),
        p.run(events).frames.number() < u64::MAX,
        !p.run(events).frames.fires(),
    ensures
        p.run(events).frames.rate == p.frames.rate,
        ({
            let s = p.run(events).frames;
            &&& s.ticks >= 1
            &&& (s.ticks - 1) * NANOS_PER_SECOND * s.rate.denom <= s.rate.numer * s.elapsed()
            &&& s.rate.numer * s.elapsed() < s.ticks * NANOS_PER_SECOND * s.rate.denom
        }),
{
    lemma_run_keeps_wf(p, events);
    lemma_count_tracks_rate(p.run(events).frames);
    lemma_rate_is_fixed(p, events);
}

/// The settings of a run never change: the rate and the chunk length at the
/// end of any run are those it began with.
pub proof fn lemma_rate_is_fixed(p: Pipeline, events: Seq<Event>)
    ensures
        p.run(events).frames.rate == p.frames.rate,
        p.run(events).audio is Some <==> p.audio is Some,
        p.audio matches Some(c) ==> p.run(events).audio matches Some(d) && d.length == c.length,
    decreases events.len(),
{
    if events.len() > 0 {
        lemma_rate_is_fixed(p, events.drop_last());
    }
}

/// Frames come out in an order the store accepts: of any two frame tickets
/// issued in one run, the unit made from the earlier one may stand before
/// the unit made from the later one, whatever their payloads are. Leaving
/// out the tickets whose capture failed cannot break this.
pub proof fn lemma_issued_frames_are_in_order(
    p: Pipeline,
    events: Seq<Event>,
    i: int,
    j: int,
    first: FramePayload,
    second: FramePayload,
)
    requires
        p.wf(),
        0 <= i < j < p.frames_issued(events).len(),
    ensures
        p.frames_issued(events)[i].completed(Ok(first)) matches Completion::Unit(a) && p.frames_issued(
            events,
        )[j].completed(Ok(second)) matches Completion::Unit(b) && a.precedes(b),
{
    lemma_frame_ids_are_consecutive(p, events);
}

/// The same for audio chunks.
pub proof fn lemma_issued_chunks_are_in_order(
    p: Pipeline,
    events: Seq<Event>,
    i: int,
    j: int,
    first: u64,
    second: u64,
)
    requires
        p.wf(),
        p.audio is Some,
        0 <= i < j < p.chunks_issued(events).len(),
    ensures
        p.chunks_issued(events)[i].completed(Ok(first)) matches Completion::Unit(a) && p.chunks_issued(
            events,
        )[j].completed(Ok(second)) matches Completion::Unit(b) && a.precedes(b),
{
    lemma_chunk_ids_are_consecutive(p, events);
}

/// Sleeping until the wake time misses nothing. After a running step that
/// took no command, a further step at any instant from the clock up to, but
/// not including, the wake time yields no ticket of either class, provided
/// no command arrives.
pub proof fn lemma_nothing_is_due_before_wake(p: Pipeline, now: u64, poll: Poll, then: u64)
    requires
        p.wf(),
        !(poll is Command),
        p.output(now as nat, poll).state is Running,
        p.stepped(now as nat, poll).frames.clock <= then,
        p.output(now as nat, poll).wake_at matches Some(wake) ==> then < wake,
    ensures
        p.stepped(now as nat, poll).output(then as nat, Poll::Empty).frame is None,
        p.stepped(now as nat, poll).output(then as nat, Poll::Empty).audio is None,
{
    lemma_step_keeps_wf(p, now, poll);
    let q = p.stepped(now as nat, poll);
    lemma_offset_nonneg(q.frames.rate, q.frames.ticks);
    if q.frames.number() < u64::MAX {
        lemma_wait_is_tight(q.frames, then as nat);
    }
}

/// The wake time is not late either: a step taken at the wake time yields a
/// ticket, unless the class whose turn it is has run out of sequence
/// numbers.
pub proof fn lemma_something_is_due_at_wake(p: Pipeline, now: u64, poll: Poll)
    requires
        p.wf(),
        !(poll is Command),
        p.output(now as nat, poll).state is Running,
        p.output(now as nat, poll).wake_at is Some,
        p.stepped(now as nat, poll).frames.clock <= p.output(now as nat, poll).wake_at->0,
        p.stepped(now as nat, poll).frames.number() < u64::MAX,
        p.stepped(now as nat, poll).audio matches Some(c) ==> c.finalized < u64::MAX,
    ensures
        ({
            let wake = p.output(now as nat, poll).wake_at->0;
            let next = p.stepped(now as nat, poll).output(wake as nat, Poll::Empty);
            next.frame is Some || next.audio is Some
        }),
{
    lemma_step_keeps_wf(p, now, poll);
    let q = p.stepped(now as nat, poll);
    let wake = p.output(now as nat, poll).wake_at->0;
    lemma_offset_nonneg(q.frames.rate, q.frames.ticks);
    lemma_wait_is_tight(q.frames, wake as nat);
}

/// A run that goes on from a store starts well formed.
pub proof fn lemma_resumed_is_wf(session: SessionView, now: u64, units: Seq<CaptureUnit>)
    requires
        session.wf(),
    ensures
        Pipeline::resumed(session, now, units).wf(),
{
    assert(session.audio_chunk_seconds * NANOS_PER_SECOND <= u64::MAX) by (nonlinear_arith)
        requires
            session.audio_chunk_seconds <= 18_446_744_073,
            NANOS_PER_SECOND == 1_000_000_000,
    ;
    assert(session.audio_chunk_seconds * NANOS_PER_SECOND > 0) by (nonlinear_arith)
        requires
            session.audio_chunk_seconds > 0,
            NANOS_PER_SECOND == 1_000_000_000,
    ;
}

/// A run that goes on from a store never offers it a frame out of order:
/// whatever the store holds and however the run goes, every frame ticket it
/// issues makes a unit that the store, as it was when the run began, would
/// take. Together with the order among the tickets themselves this keeps
/// every append of the run in order.
pub proof fn lemma_resumed_frames_follow_the_store(
    session: SessionView,
    now: u64,
    units: Seq<CaptureUnit>,
    events: Seq<Event>,
    i: int,
    payload: FramePayload,
)
    requires
        session.wf(),
        ordered(units),
        0 <= i < Pipeline::resumed(session, now, units).frames_issued(events).len(),
    ensures
        Pipeline::resumed(session, now, units).frames_issued(events)[i].completed(Ok(payload)) matches Completion::Unit(
            unit,
        ) && ordered(units.push(unit)),
{
    let p = Pipeline::resumed(session, now, units);
    lemma_resumed_is_wf(session, now, units);
    lemma_frame_ids_are_consecutive(p, events);
    lemma_run_keeps_wf(p, events);
    let ticket = p.frames_issued(events)[i];
    let unit = ticket.completed(Ok(payload))->Unit_0;
    assert(unit.class_of() == MediaClass::Frame);
    lemma_ordered_push(units, unit);
}

/// The same for audio chunks.
pub proof fn lemma_resumed_chunks_follow_the_store(
    session: SessionView,
    now: u64,
    units: Seq<CaptureUnit>,
    events: Seq<Event>,
    i: int,
    payload_ref: u64,
)
    requires
        session.wf(),
        session.audio_enabled,
        ordered(units),
        0 <= i < Pipeline::resumed(session, now, units).chunks_issued(events).len(),
    ensures
        Pipeline::resumed(session, now, units).chunks_issued(events)[i].completed(Ok(payload_ref)) matches Completion::Unit(
            unit,
        ) && ordered(units.push(unit)),
{
    let p = Pipeline::resumed(session, now, units);
    lemma_resumed_is_wf(session, now, units);
    lemma_chunk_ids_are_consecutive(p, events);
    lemma_run_keeps_wf(p, events);
    let ticket = p.chunks_issued(events)[i];
    let unit = ticket.completed(Ok(payload_ref))->Unit_0;
    assert(unit.class_of() == MediaClass::Audio);
    lemma_ordered_push(units, unit);
}

} // verus!
