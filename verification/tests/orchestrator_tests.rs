use screenpipe_server::clock::Clock;
use screenpipe_server::control::{Command, ControlState, Poll};
use screenpipe_server::error::{CaptureError, ConfigurationError};
use screenpipe_server::orchestrator::{Orchestrator, Step, PAUSED_POLL_NANOS};
use screenpipe_server::query::Filter;
use screenpipe_server::session::RecordingSession;
use screenpipe_server::store::Store;
use screenpipe_server::ticket::{ChunkTicket, Completion, FramePayload, FrameTicket, Gap};
use screenpipe_server::unit::{CaptureUnit, MediaClass};
use std::sync::mpsc::channel;

const MS: u64 = 1_000_000;
const S: u64 = 1_000 * MS;

fn session(fps: f64, chunk: u64, audio: bool) -> RecordingSession {
    RecordingSession::new(fps.to_bits(), chunk, audio, String::from("./data")).unwrap()
}

/// Steps the orchestrator by its own wake times until `end`, with no
/// commands, and returns every step taken.
fn run_until(o: &mut Orchestrator, mut now: u64, end: u64) -> Vec<Step> {
    let mut steps = Vec::new();
    while now < end {
        let step = o.step(now, Poll::Empty);
        steps.push(step);
        if step.frame.is_none() && step.audio.is_none() {
            match step.wake_at {
                Some(t) if t > now => now = t,
                _ => break,
            }
        }
    }
    steps
}

fn frames(steps: &[Step]) -> Vec<FrameTicket> {
    steps.iter().filter_map(|s| s.frame).collect()
}

fn chunks(steps: &[Step]) -> Vec<ChunkTicket> {
    steps.iter().filter_map(|s| s.audio).collect()
}

#[test]
fn session_rejects_bad_fps() {
    for fps in [0.0f64, -5.0, f64::NAN, f64::INFINITY] {
        assert_eq!(
            RecordingSession::new(fps.to_bits(), 30, true, String::new()).err(),
            Some(ConfigurationError::InvalidFps)
        );
    }
}

#[test]
fn session_rejects_bad_chunk_duration() {
    assert_eq!(
        RecordingSession::new(5.0f64.to_bits(), 0, true, String::new()).err(),
        Some(ConfigurationError::InvalidChunkDuration)
    );
    assert_eq!(
        RecordingSession::new(5.0f64.to_bits(), 0, false, String::new()).err(),
        Some(ConfigurationError::InvalidChunkDuration)
    );
    assert_eq!(
        RecordingSession::new(5.0f64.to_bits(), u64::MAX, true, String::new()).err(),
        Some(ConfigurationError::InvalidChunkDuration)
    );
}

#[test]
fn session_reports_fps_before_chunk_duration() {
    assert_eq!(
        RecordingSession::new(0.0f64.to_bits(), 0, true, String::new()).err(),
        Some(ConfigurationError::InvalidFps)
    );
}

#[test]
fn session_keeps_its_settings() {
    let s = session(5.0, 30, false);
    assert_eq!(s.audio_chunk_seconds(), 30);
    assert!(!s.audio_enabled());
    assert_eq!(s.data_directory(), "./data");
    assert_eq!(s.fps().offset(1), Some(200 * MS));
}

#[test]
fn five_fps_for_two_seconds_gives_ten_frames() {
    let mut o = Orchestrator::new(&session(5.0, 30, true), 0);
    let steps = run_until(&mut o, 0, 2 * S);
    let tickets = frames(&steps);
    assert_eq!(tickets.len(), 10);
    for (i, t) in tickets.iter().enumerate() {
        assert_eq!(t.sequence_id, i as u64);
        assert_eq!(t.captured_at, i as u64 * 200 * MS);
    }
    assert_eq!(o.frames_triggered(), 10);
    assert!(chunks(&steps).is_empty());
}

#[test]
fn five_fps_with_a_delayed_start() {
    let start = 7 * S + 13;
    let mut o = Orchestrator::new(&session(5.0, 30, false), start);
    let tickets = frames(&run_until(&mut o, start, start + 2 * S));
    assert_eq!(tickets.iter().map(|t| t.sequence_id).collect::<Vec<_>>(), (0..10).collect::<Vec<u64>>());
}

#[test]
fn audio_disabled_yields_no_audio() {
    let mut o = Orchestrator::new(&session(5.0, 30, false), 0);
    let steps = run_until(&mut o, 0, 200 * S);
    assert!(chunks(&steps).is_empty());
    assert_eq!(frames(&steps).len(), 1_000);
    assert_eq!(o.next_chunk_number(), None);
    // Not even at shutdown.
    let last = o.step(200 * S, Poll::Command(Command::Stop));
    assert_eq!(last.audio, None);
}

#[test]
fn audio_chunks_are_thirty_seconds_long() {
    let mut o = Orchestrator::new(&session(1.0, 30, true), 0);
    let steps = run_until(&mut o, 0, 100 * S);
    let found = chunks(&steps);
    assert_eq!(
        found,
        vec![
            ChunkTicket { sequence_id: 0, captured_at: 30 * S, duration: 30 * S },
            ChunkTicket { sequence_id: 1, captured_at: 60 * S, duration: 30 * S },
            ChunkTicket { sequence_id: 2, captured_at: 90 * S, duration: 30 * S },
        ]
    );
    assert_eq!(o.next_chunk_number(), Some(3));
    assert_eq!(frames(&steps).len(), 100);
}

#[test]
fn last_chunk_before_stop_may_be_short() {
    let mut o = Orchestrator::new(&session(1.0, 30, true), 0);
    run_until(&mut o, 0, 40 * S);
    let last = o.step(40 * S, Poll::Command(Command::Stop));
    assert_eq!(last.state, ControlState::Stopped);
    assert_eq!(last.frame, None);
    assert_eq!(last.audio, Some(ChunkTicket { sequence_id: 1, captured_at: 40 * S, duration: 10 * S }));
    assert_eq!(last.wake_at, None);
}

#[test]
fn both_cadences_are_served_in_one_step() {
    let mut o = Orchestrator::new(&session(1.0, 30, true), 0);
    let step = o.step(30 * S, Poll::Empty);
    assert_eq!(step.frame, Some(FrameTicket { sequence_id: 0, captured_at: 30 * S }));
    assert_eq!(step.audio, Some(ChunkTicket { sequence_id: 0, captured_at: 30 * S, duration: 30 * S }));
}

#[test]
fn wake_time_is_the_earlier_deadline() {
    let mut o = Orchestrator::new(&session(0.01, 30, true), 0);
    let step = o.step(0, Poll::Empty);
    assert!(step.frame.is_some());
    // Next frame at 100 s, next audio boundary at 30 s.
    assert_eq!(step.wake_at, Some(30 * S));
    let mut o = Orchestrator::new(&session(5.0, 30, true), 0);
    assert_eq!(o.step(0, Poll::Empty).wake_at, Some(200 * MS));
    let mut o = Orchestrator::new(&session(5.0, 30, false), 0);
    assert_eq!(o.step(0, Poll::Empty).wake_at, Some(200 * MS));
}

#[test]
fn pause_then_resume_allocates_nothing_and_does_not_burst() {
    let mut o = Orchestrator::new(&session(5.0, 30, true), 0);
    let before = frames(&run_until(&mut o, 0, 900 * MS));
    assert_eq!(before.len(), 5);
    assert_eq!(before.last().unwrap().sequence_id, 4);

    let paused = o.step(900 * MS, Poll::Command(Command::Pause));
    assert_eq!(paused.state, ControlState::Paused);
    assert_eq!(paused.frame, None);
    assert_eq!(paused.audio, None);
    assert_eq!(paused.seen, Poll::Command(Command::Pause));
    // A step that took a command is followed at once.
    assert_eq!(paused.wake_at, Some(900 * MS));
    assert_eq!(o.step(900 * MS, Poll::Empty).wake_at, Some(900 * MS + PAUSED_POLL_NANOS));

    // Two seconds pass; the pipeline is polled and stays silent.
    let mut now = 900 * MS;
    while now < 2_900 * MS {
        now += PAUSED_POLL_NANOS;
        let step = o.step(now, Poll::Empty);
        assert_eq!(step.state, ControlState::Paused);
        assert_eq!(step.frame, None);
        assert_eq!(step.audio, None);
        assert_eq!(o.frames_triggered(), 5);
    }

    // On resume nothing fires at once: the sixth frame was 100 ms away when
    // the pause began and is 100 ms away now.
    let resumed = o.step(2_900 * MS, Poll::Command(Command::Resume));
    assert_eq!(resumed.state, ControlState::Running);
    assert_eq!(resumed.frame, None);
    assert_eq!(resumed.wake_at, Some(2_900 * MS));
    let waiting = o.step(2_900 * MS, Poll::Empty);
    assert_eq!(waiting.frame, None);
    assert_eq!(waiting.wake_at, Some(3_000 * MS));
    let next = o.step(3_000 * MS, Poll::Empty);
    assert_eq!(next.frame, Some(FrameTicket { sequence_id: 5, captured_at: 3_000 * MS }));
    let after = o.step(3_000 * MS, Poll::Empty);
    assert_eq!(after.frame, None);
    assert_eq!(after.wake_at, Some(3_200 * MS));
}

#[test]
fn pause_without_polling_does_not_burst_either() {
    let mut o = Orchestrator::new(&session(5.0, 30, false), 0);
    run_until(&mut o, 0, 900 * MS);
    o.step(900 * MS, Poll::Command(Command::Pause));
    // Nobody steps the pipeline for an hour.
    let resumed = o.step(3_600 * S, Poll::Command(Command::Resume));
    assert_eq!(resumed.frame, None);
    let waiting = o.step(3_600 * S, Poll::Empty);
    assert_eq!(waiting.frame, None);
    assert_eq!(waiting.wake_at, Some(3_600 * S + 100 * MS));
    assert_eq!(o.frames_triggered(), 5);
}

#[test]
fn paused_audio_chunk_keeps_its_length() {
    let mut o = Orchestrator::new(&session(0.001, 30, true), 0);
    o.step(0, Poll::Empty);
    o.step(10 * S, Poll::Command(Command::Pause));
    let resumed = o.step(110 * S, Poll::Command(Command::Resume));
    assert_eq!(resumed.audio, None);
    assert_eq!(o.step(110 * S, Poll::Empty).wake_at, Some(130 * S));
    let cut = o.step(130 * S, Poll::Empty);
    assert_eq!(cut.audio, Some(ChunkTicket { sequence_id: 0, captured_at: 130 * S, duration: 30 * S }));
}

#[test]
fn stop_mid_run_ends_production() {
    let mut o = Orchestrator::new(&session(5.0, 30, true), 0);
    let before = frames(&run_until(&mut o, 0, S));
    assert_eq!(before.len(), 5);
    let stop = o.step(S, Poll::Command(Command::Stop));
    assert_eq!(stop.state, ControlState::Stopped);
    // The frame that was due at 1 s is not triggered.
    assert_eq!(stop.frame, None);
    assert_eq!(stop.audio, Some(ChunkTicket { sequence_id: 0, captured_at: S, duration: S }));
    assert_eq!(stop.wake_at, None);
    assert_eq!(o.state(), ControlState::Stopped);
    // Nothing is ever produced again.
    for (i, poll) in [Poll::Empty, Poll::Command(Command::Resume), Poll::Command(Command::Pause), Poll::Disconnected]
        .into_iter()
        .enumerate()
    {
        let step = o.step(S + (i as u64 + 1) * 10 * S, poll);
        assert_eq!(
            step,
            Step { seen: poll, state: ControlState::Stopped, frame: None, audio: None, wake_at: None }
        );
    }
    assert_eq!(o.frames_triggered(), 5);
    assert_eq!(o.next_chunk_number(), Some(1));
}

#[test]
fn stop_while_paused_flushes_what_was_recorded() {
    let mut o = Orchestrator::new(&session(1.0, 30, true), 0);
    o.step(0, Poll::Empty);
    o.step(12 * S, Poll::Command(Command::Pause));
    let stop = o.step(500 * S, Poll::Command(Command::Stop));
    assert_eq!(stop.audio, Some(ChunkTicket { sequence_id: 0, captured_at: 500 * S, duration: 12 * S }));
}

#[test]
fn store_is_closed_after_shutdown() {
    let mut o = Orchestrator::new(&session(5.0, 30, false), 0);
    let mut store = Store::new();
    for step in run_until(&mut o, 0, S) {
        if let Some(t) = step.frame {
            let done = t.complete(Ok(FramePayload { payload_ref: t.sequence_id, width: 8, height: 8 }));
            if let Completion::Unit(u) = done {
                store.append(u).unwrap();
            }
        }
    }
    assert!(o.step(S, Poll::Command(Command::Stop)).state.is_stopped());
    store.close();
    assert!(store.append(CaptureUnit::frame(99, 99 * S, 0, 8, 8)).is_err());
    assert_eq!(store.len(), 5);
}

#[test]
fn closed_channel_is_not_a_stop() {
    let mut o = Orchestrator::new(&session(5.0, 30, false), 0);
    let step = o.step(0, Poll::Disconnected);
    assert_eq!(step.state, ControlState::Running);
    assert!(step.frame.is_some());
    o.step(10, Poll::Command(Command::Pause));
    assert_eq!(o.step(20, Poll::Disconnected).state, ControlState::Paused);
}

#[test]
fn step_with_reads_the_channel() {
    let (tx, rx) = channel();
    let mut o = Orchestrator::new(&session(5.0, 30, false), 0);
    let step = o.step_with(0, &rx);
    assert_eq!(step.state, ControlState::Running);
    assert_eq!(step.frame, Some(FrameTicket { sequence_id: 0, captured_at: 0 }));
    assert_eq!(step.seen, Poll::Empty);
    tx.send(Command::Pause).unwrap();
    tx.send(Command::Stop).unwrap();
    let paused = o.step_with(200 * MS, &rx);
    assert_eq!(paused.seen, Poll::Command(Command::Pause));
    assert_eq!(paused.state, ControlState::Paused);
    // The command behind it is taken at once.
    assert_eq!(paused.wake_at, Some(200 * MS));
    assert_eq!(o.frames_triggered(), 1);
    let stopped = o.step_with(200 * MS, &rx);
    assert_eq!(stopped.seen, Poll::Command(Command::Stop));
    assert_eq!(stopped.state, ControlState::Stopped);
}

#[test]
fn step_with_runs_on_when_the_producer_is_gone() {
    let (tx, rx) = channel::<Command>();
    drop(tx);
    let mut o = Orchestrator::new(&session(5.0, 30, false), 0);
    let mut now = 0;
    let mut fired = 0;
    while now < 2 * S {
        let step = o.step_with(now, &rx);
        assert_eq!(step.seen, Poll::Disconnected);
        assert_eq!(step.state, ControlState::Running);
        if step.frame.is_some() {
            fired += 1;
        } else {
            now = step.wake_at.unwrap();
        }
    }
    assert_eq!(fired, 10);
}

#[test]
fn failed_capture_spends_its_sequence_id() {
    let mut o = Orchestrator::new(&session(5.0, 30, false), 0);
    let mut store = Store::new();
    let mut gaps = Vec::new();
    for step in run_until(&mut o, 0, S) {
        let t = step.frame.unwrap_or(FrameTicket { sequence_id: u64::MAX, captured_at: 0 });
        if step.frame.is_none() {
            continue;
        }
        let outcome = if t.sequence_id == 2 {
            Err(CaptureError::Encode)
        } else {
            Ok(FramePayload { payload_ref: 0xf00 + t.sequence_id, width: 1920, height: 1080 })
        };
        match t.complete(outcome) {
            Completion::Unit(u) => store.append(u).unwrap(),
            Completion::Skipped(g) => gaps.push(g),
        }
    }
    assert_eq!(gaps, vec![Gap { class: MediaClass::Frame, sequence_id: 2, error: CaptureError::Encode }]);
    let stored = store.query(&Filter::all());
    assert_eq!(stored.iter().map(|u| u.sequence_id).collect::<Vec<_>>(), vec![0, 1, 3, 4]);
    assert_eq!(stored[2], CaptureUnit::frame(3, 600 * MS, 0xf03, 1920, 1080));
}

#[test]
fn chunk_ticket_completion() {
    let t = ChunkTicket { sequence_id: 4, captured_at: 150 * S, duration: 30 * S };
    assert_eq!(t.complete(Ok(0xabc)), Completion::Unit(CaptureUnit::audio(4, 150 * S, 0xabc, 30 * S)));
    let skipped = t.complete(Err(CaptureError::Source));
    assert_eq!(
        skipped,
        Completion::Skipped(Gap { class: MediaClass::Audio, sequence_id: 4, error: CaptureError::Source })
    );
    assert_eq!(skipped.sequence_id(), 4);
    assert_eq!(skipped.class(), MediaClass::Audio);
}

#[test]
fn frame_count_is_within_one_of_rate_times_duration() {
    for (fps, seconds) in [(5.0f64, 2u64), (29.97, 10), (0.5, 7), (60.0, 3), (1.0, 1), (7.3, 11)] {
        let mut o = Orchestrator::new(&session(fps, 30, false), 0);
        let end = seconds * S;
        let mut now = 0;
        loop {
            let step = o.step(now, Poll::Empty);
            if step.frame.is_none() {
                match step.wake_at {
                    Some(t) if t <= end => now = t,
                    _ => break,
                }
            }
        }
        let ideal = fps * seconds as f64;
        let count = o.frames_triggered() as f64;
        assert!((count - ideal).abs() <= 1.0, "{fps} fps for {seconds} s: {count} frames");
    }
}

#[test]
fn pause_is_bounded_by_wake_time_and_cap() {
    let mut o = Orchestrator::new(&session(5.0, 30, false), 0);
    o.step(0, Poll::Empty);
    let step = o.step(0, Poll::Empty);
    assert_eq!(step.wake_at, Some(200 * MS));
    assert_eq!(step.pause(0, S), 200 * MS);
    assert_eq!(step.pause(150 * MS, S), 50 * MS);
    assert_eq!(step.pause(200 * MS, S), 0);
    assert_eq!(step.pause(900 * MS, S), 0);
    assert_eq!(step.pause(0, 10 * MS), 10 * MS);
    let stopped = o.step(0, Poll::Command(Command::Stop));
    assert_eq!(stopped.wake_at, None);
    assert_eq!(stopped.pause(5, S), S);
}

#[test]
fn resumed_run_numbers_on_from_the_store() {
    let mut store = Store::new();
    store.append(CaptureUnit::frame(0, 10 * S, 1, 8, 8)).unwrap();
    store.append(CaptureUnit::frame(1, 11 * S, 2, 8, 8)).unwrap();
    store.append(CaptureUnit::audio(0, 40 * S, 3, 30 * S)).unwrap();
    assert_eq!(store.next_sequence_id(MediaClass::Frame), 2);
    assert_eq!(store.next_sequence_id(MediaClass::Audio), 1);
    assert_eq!(store.last_instant(), 40 * S);

    // The clock reads less than the latest timestamp in the store.
    let mut o = Orchestrator::resume(&session(5.0, 30, true), 5 * S, &store);
    assert_eq!(o.next_frame_number(), 2);
    assert_eq!(o.next_chunk_number(), Some(1));
    let first = o.step(5 * S, Poll::Empty);
    assert_eq!(first.frame, Some(FrameTicket { sequence_id: 2, captured_at: 40 * S }));
    let steps = run_until(&mut o, 40 * S, 71 * S);
    for step in steps {
        if let Some(t) = step.frame {
            let unit = match t.complete(Ok(FramePayload { payload_ref: 0, width: 8, height: 8 })) {
                Completion::Unit(u) => u,
                Completion::Skipped(_) => unreachable!(),
            };
            assert_eq!(store.append(unit), Ok(()));
        }
        if let Some(t) = step.audio {
            assert_eq!(t, ChunkTicket { sequence_id: 1, captured_at: 70 * S, duration: 30 * S });
            match t.complete(Ok(9)) {
                Completion::Unit(u) => assert_eq!(store.append(u), Ok(())),
                Completion::Skipped(_) => unreachable!(),
            }
        }
    }
    assert_eq!(store.latest(MediaClass::Audio).unwrap().sequence_id, 1);
    assert_eq!(store.latest(MediaClass::Frame).unwrap().sequence_id, 2 + 154);
}

#[test]
fn resumed_run_on_an_empty_store_is_a_first_run() {
    let store = Store::new();
    assert_eq!(store.next_sequence_id(MediaClass::Frame), 0);
    assert_eq!(store.last_instant(), 0);
    let mut a = Orchestrator::resume(&session(5.0, 30, true), 3 * S, &store);
    let mut b = Orchestrator::new(&session(5.0, 30, true), 3 * S);
    for now in [3 * S, 3 * S + 1, 4 * S, 40 * S, 40 * S] {
        assert_eq!(a.step(now, Poll::Empty), b.step(now, Poll::Empty));
    }
}

#[test]
fn store_with_used_up_numbers_yields_nothing_more() {
    let mut store = Store::new();
    store.append(CaptureUnit::frame(u64::MAX, 10, 1, 8, 8)).unwrap();
    assert_eq!(store.next_sequence_id(MediaClass::Frame), u64::MAX);
    let mut o = Orchestrator::resume(&session(5.0, 30, false), S, &store);
    assert_eq!(o.step(S, Poll::Empty).frame, None);
    assert_eq!(o.step(100 * S, Poll::Empty).frame, None);
}

#[test]
fn clock_starts_no_earlier_than_the_store_and_never_runs_back() {
    let clock = Clock::starting(1_000, 5_000);
    assert_eq!(clock.origin, 5_000);
    assert_eq!(clock.read(0), 5_000);
    assert_eq!(clock.read(7), 5_007);
    let clock = Clock::starting(9_000, 5_000);
    assert_eq!(clock.read(0), 9_000);
    assert_eq!(clock.read(u64::MAX), u64::MAX);
}
