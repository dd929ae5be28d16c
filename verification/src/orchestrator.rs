//! The recording orchestrator: one state machine that owns both cadences
//! and the control state, and says at every step what is to be done next.
//!
//! The caller runs the loop. It reads the clock, looks at the control
//! channel, calls `step`, carries out what the step asks for, and sleeps
//! until the step's wake time. Neither cadence waits for the other: one
//! step serves both.

use vstd::prelude::*;
use std::sync::mpsc::Receiver;
use crate::chunker::{AudioChunker, Chunking};
use crate::control::{look, Command, ControlState, Poll};
use crate::rate::NANOS_PER_SECOND;
use crate::schedule::{CaptureScheduler, Schedule, Trigger};
use crate::session::{RecordingSession, SessionView};
use crate::store::Store;
use crate::ticket::{ChunkTicket, FrameTicket};
use crate::unit::{last_instant, latest, next_number, CaptureUnit, MediaClass};

verus! {

/// How long a paused pipeline sleeps before it looks at the control channel
/// again.
pub const PAUSED_POLL_NANOS: u64 = 100_000_000;

/// What one step asks of the caller.
#[derive(Clone, Copy, Debug, PartialEq, Eq)]
pub struct Step {
    /// What the control channel held when the step was taken.
    pub seen: Poll,
    /// The control state the step was taken in. After a step in `Stopped`
    /// the caller leaves the loop.
    pub state: ControlState,
    /// A frame to capture now.
    pub frame: Option<FrameTicket>,
    /// An audio chunk that has just been finalized.
    pub audio: Option<ChunkTicket>,
    /// When to step next; `None` if there is nothing to wait for. A step
    /// that took a command asks to be followed at once, so that commands
    /// waiting behind it are taken without delay.
    pub wake_at: Option<u64>,
}

impl Step {
    /// How long the caller may sleep at clock reading `now` before the next
    /// step: until the wake time, but never longer than `longest`, and not
    /// at all if the wake time has passed.
    pub open spec fn pause_at(self, now: u64, longest: u64) -> u64 {
        match self.wake_at {
            Some(wake) => if wake <= now {
                0
            } else if wake - now <= longest {
                (wake - now) as u64
            } else {
                longest
            },
            None => longest,
        }
    }

    pub fn pause(&self, now: u64, longest: u64) -> (nanos: u64)
        ensures
            nanos == self.pause_at(now, longest),
            nanos <= longest,
    {
        match self.wake_at {
            Some(wake) => if wake <= now {
                0
            } else if wake - now <= longest {
                wake - now
            } else {
                longest
            },
            None => longest,
        }
    }
}

/// One turn of the caller's loop: the clock reading and what the control
/// channel held.
pub struct Event {
    pub now: u64,
    pub poll: Poll,
}

/// The earlier of two wake times, where `None` is never.
pub open spec fn earlier(a: Option<u64>, b: Option<u64>) -> Option<u64> {
    match (a, b) {
        (Some(x), Some(y)) => Some(if x <= y { x } else { y }),
        (Some(x), None) => Some(x),
        (None, y) => y,
    }
}

/// The orchestrator's state.
pub struct Pipeline {
    pub control: ControlState,
    pub frames: Schedule,
    /// `None` when audio is disabled.
    pub audio: Option<Chunking>,
}

impl Pipeline {
    /// Both cadences are well formed and read the same clock.
    pub open spec fn wf(self) -> bool {
        &&& self.frames.wf()
        &&& self.audio matches Some(c) ==> c.wf() && c.clock == self.frames.clock
    }

    /// The state a run begins in when it goes on from a store that holds
    /// `units`: running, both cadences starting now, or at the latest
    /// instant in the store if that lies ahead of the clock, and numbering
    /// on from the latest unit of each class. With audio disabled there is
    /// no audio cadence at all.
    pub open spec fn resumed(session: SessionView, now: u64, units: Seq<CaptureUnit>) -> Pipeline {
        let start: u64 = if now >= last_instant(units) {
            now
        } else {
            last_instant(units)
        };
        Pipeline {
            control: ControlState::Running,
            frames: Schedule {
                rate: session.rate,
                anchor: start as nat,
                first: next_number(latest(units, MediaClass::Frame)) as nat,
                ticks: 0,
                clock: start as nat,
            },
            audio: if session.audio_enabled {
                Some(
                    Chunking {
                        length: (session.audio_chunk_seconds * NANOS_PER_SECOND) as nat,
                        started: start as nat,
                        clock: start as nat,
                        finalized: next_number(latest(units, MediaClass::Audio)) as nat,
                    },
                )
            } else {
                None
            },
        }
    }

    /// Both cadences shown the time: as suspended time if the pipeline was
    /// paused since the last step, as running time otherwise.
    pub open spec fn timed(self, now: nat) -> Pipeline {
        if self.control is Paused {
            Pipeline {
                frames: self.frames.discounted(now),
                audio: match self.audio {
                    Some(c) => Some(c.discounted(now)),
                    None => None,
                },
                ..self
            }
        } else {
            Pipeline {
                frames: self.frames.advanced(now),
                audio: match self.audio {
                    Some(c) => Some(c.advanced(now)),
                    None => None,
                },
                ..self
            }
        }
    }

    /// The state after a step. A stopped pipeline never moves again. A live
    /// one accounts for the time, takes the command if there is one, and
    /// then, by the state it finds itself in: running, lets each cadence
    /// produce at most one unit; paused, produces nothing; stopped, flushes
    /// the audio in progress.
    pub open spec fn stepped(self, now: nat, poll: Poll) -> Pipeline {
        if self.control is Stopped {
            self
        } else {
            let t = self.timed(now);
            match self.control.observed(poll) {
                ControlState::Running => Pipeline {
                    control: ControlState::Running,
                    frames: if t.frames.fires() {
                        t.frames.fired()
                    } else {
                        t.frames
                    },
                    audio: match t.audio {
                        Some(c) => Some(if c.due() { c.cut() } else { c }),
                        None => None,
                    },
                },
                ControlState::Paused => Pipeline { control: ControlState::Paused, ..t },
                ControlState::Stopped => Pipeline {
                    control: ControlState::Stopped,
                    frames: t.frames,
                    audio: match t.audio {
                        Some(c) => Some(c.flushed()),
                        None => None,
                    },
                },
            }
        }
    }

    /// What the same step asks of the caller.
    pub open spec fn output(self, now: nat, poll: Poll) -> Step {
        if self.control is Stopped {
            Step { seen: poll, state: ControlState::Stopped, frame: None, audio: None, wake_at: None }
        } else {
            let t = self.timed(now);
            let next = self.stepped(now, poll);
            match self.control.observed(poll) {
                ControlState::Running => Step {
                    seen: poll,
                    state: ControlState::Running,
                    frame: if t.frames.fires() {
                        Some(
                            FrameTicket {
                                sequence_id: t.frames.number() as u64,
                                captured_at: t.frames.clock as u64,
                            },
                        )
                    } else {
                        None
                    },
                    audio: match t.audio {
                        Some(c) => if c.due() {
                            Some(c.full_ticket())
                        } else {
                            None
                        },
                        None => None,
                    },
                    wake_at: if poll is Command {
                        Some(t.frames.clock as u64)
                    } else {
                        earlier(
                            next.frames.wake(),
                            match next.audio {
                                Some(c) => c.wake(),
                                None => None,
                            },
                        )
                    },
                },
                ControlState::Paused => Step {
                    seen: poll,
                    state: ControlState::Paused,
                    frame: None,
                    audio: None,
                    wake_at: Some(
                        if poll is Command {
                            t.frames.clock as u64
                        } else if t.frames.clock + PAUSED_POLL_NANOS <= u64::MAX {
                            (t.frames.clock + PAUSED_POLL_NANOS) as u64
                        } else {
                            u64::MAX
                        },
                    ),
                },
                ControlState::Stopped => Step {
                    seen: poll,
                    state: ControlState::Stopped,
                    frame: None,
                    audio: match t.audio {
                        Some(c) => if c.has_remainder() {
                            Some(c.last_ticket())
                        } else {
                            None
                        },
                        None => None,
                    },
                    wake_at: None,
                },
            }
        }
    }

    /// The state after a whole run of events, oldest first.
    pub open spec fn run(self, events: Seq<Event>) -> Pipeline
        decreases events.len(),
    {
        if events.len() == 0 {
            self
        } else {
            self.run(events.drop_last()).stepped(events.last().now as nat, events.last().poll)
        }
    }

    /// What the last step of a run asked for.
    pub open spec fn last_output(self, events: Seq<Event>) -> Step
        recommends
            events.len() > 0,
    {
        self.run(events.drop_last()).output(events.last().now as nat, events.last().poll)
    }

    /// Every frame ticket issued over a run, in the order issued.
    pub open spec fn frames_issued(self, events: Seq<Event>) -> Seq<FrameTicket>
        decreases events.len(),
    {
        if events.len() == 0 {
            Seq::empty()
        } else {
            let before = self.frames_issued(events.drop_last());
            match self.last_output(events).frame {
                Some(ticket) => before.push(ticket),
                None => before,
            }
        }
    }

    /// Every chunk ticket issued over a run, in the order issued.
    pub open spec fn chunks_issued(self, events: Seq<Event>) -> Seq<ChunkTicket>
        decreases events.len(),
    {
        if events.len() == 0 {
            Seq::empty()
        } else {
            let before = self.chunks_issued(events.drop_last());
            match self.last_output(events).audio {
                Some(ticket) => before.push(ticket),
                None => before,
            }
        }
    }
}

/// The recording orchestrator.
#[derive(Clone, Copy, Debug)]
pub struct Orchestrator {
    control: ControlState,
    frames: CaptureScheduler,
    audio: Option<AudioChunker>,
}

impl View for Orchestrator {
    type V = Pipeline;

    closed spec fn view(&self) -> Pipeline {
        Pipeline {
            control: self.control,
            frames: self.frames@,
            audio: match self.audio {
                Some(c) => Some(c@),
                None => None,
            },
        }
    }
}

impl Orchestrator {
    /// What holds of every orchestrator: see `Pipeline::wf`.
    #[verifier::type_invariant]
    pub open spec fn valid(&self) -> bool {
        self@.wf()
    }

    /// An orchestrator for a first run: running, both cadences starting at
    /// `now` and numbering from 0.
    pub fn new(session: &RecordingSession, now: u64) -> (orchestrator: Orchestrator)
        ensures
            orchestrator@ == Pipeline::resumed(session@, now, Seq::empty()),
            orchestrator@.wf(),
    {
        Orchestrator::starting(session, now, 0, 0)
    }

    /// An orchestrator for a run that goes on from what `store` holds: see
    /// `Pipeline::resumed`.
    pub fn resume(session: &RecordingSession, now: u64, store: &Store) -> (orchestrator: Orchestrator)
        ensures
            orchestrator@ == Pipeline::resumed(session@, now, store@.units),
            orchestrator@.wf(),
    {
        let last = store.last_instant();
        let start: u64 = if now >= last {
            now
        } else {
            last
        };
        Orchestrator::starting(
            session,
            start,
            store.next_sequence_id(MediaClass::Frame),
            store.next_sequence_id(MediaClass::Audio),
        )
    }

    fn starting(session: &RecordingSession, start: u64, first_frame: u64, first_chunk: u64) -> (orchestrator:
        Orchestrator)
        ensures
            orchestrator@ == (Pipeline {
                control: ControlState::Running,
                frames: Schedule {
                    rate: session@.rate,
                    anchor: start as nat,
                    first: first_frame as nat,
                    ticks: 0,
                    clock: start as nat,
                },
                audio: if session@.audio_enabled {
                    Some(
                        Chunking {
                            length: (session@.audio_chunk_seconds * NANOS_PER_SECOND) as nat,
                            started: start as nat,
                            clock: start as nat,
                            finalized: first_chunk as nat,
                        },
                    )
                } else {
                    None
                },
            }),
            orchestrator@.wf(),
    {
        let frames = CaptureScheduler::starting_at(session.fps(), start, first_frame);
        let audio = if session.audio_enabled() {
            match AudioChunker::starting_at(session.audio_chunk_seconds(), start, first_chunk) {
                Ok(chunker) => Some(chunker),
                Err(_) => None,
            }
        } else {
            None
        };
        Orchestrator { control: ControlState::Running, frames, audio }
    }

    /// Takes one step at clock reading `now`, with what the control channel
    /// held. Returns what the caller is to do; see `Pipeline::stepped` and
    /// `Pipeline::output` for the rules.
    pub fn step(&mut self, now: u64, poll: Poll) -> (step: Step)
        ensures
            final(self)@ == old(self)@.stepped(now as nat, poll),
            step == old(self)@.output(now as nat, poll),
            final(self)@.wf(),
    {
        proof {
            use_type_invariant(&*self);
        }
        let prior = self.control;
        if prior.is_stopped() {
            return Step { seen: poll, state: ControlState::Stopped, frame: None, audio: None, wake_at: None };
        }
        let state = prior.observe(poll);
        let took_command = matches!(poll, Poll::Command(_));
        let mut frames = self.frames;
        let mut audio = self.audio;
        if prior.is_paused() {
            frames.discount(now);
        } else {
            frames.advance(now);
        }
        let audio_timed = match audio {
            Some(mut chunker) => {
                if prior.is_paused() {
                    chunker.discount(now);
                } else {
                    chunker.advance(now);
                }
                Some(chunker)
            },
            None => None,
        };
        match state {
            ControlState::Running => {
                let frame = match frames.poll(now) {
                    Trigger::Fire { number, at } => Some(FrameTicket { sequence_id: number, captured_at: at }),
                    Trigger::Wait { .. } => None,
                };
                let mut chunk: Option<ChunkTicket> = None;
                let mut boundary: Option<u64> = None;
                let audio_next = match audio_timed {
                    Some(mut chunker) => {
                        chunk = chunker.poll(now);
                        boundary = chunker.next_boundary();
                        Some(chunker)
                    },
                    None => None,
                };
                let wake_at = if took_command {
                    Some(frames.clock())
                } else {
                    match (frames.next_deadline(), boundary) {
                        (Some(x), Some(y)) => Some(if x <= y { x } else { y }),
                        (Some(x), None) => Some(x),
                        (None, y) => y,
                    }
                };
                *self = Orchestrator { control: state, frames, audio: audio_next };
                Step { seen: poll, state, frame, audio: chunk, wake_at }
            },
            ControlState::Paused => {
                let wake_at = if took_command {
                    Some(frames.clock())
                } else {
                    Some(frames.clock().saturating_add(PAUSED_POLL_NANOS))
                };
                *self = Orchestrator { control: state, frames, audio: audio_timed };
                Step { seen: poll, state, frame: None, audio: None, wake_at }
            },
            ControlState::Stopped => {
                let mut chunk: Option<ChunkTicket> = None;
                let audio_next = match audio_timed {
                    Some(mut chunker) => {
                        chunk = chunker.flush();
                        Some(chunker)
                    },
                    None => None,
                };
                *self = Orchestrator { control: state, frames, audio: audio_next };
                Step { seen: poll, state, frame: None, audio: chunk, wake_at: None }
            },
        }
    }

    /// Takes one step, looking at the control channel itself. Whatever the
    /// channel held is reported in the step's `seen`, and the step is the
    /// one `step` takes for it. A channel whose producers are gone moves the
    /// control state no more than an empty one.
    pub fn step_with(&mut self, now: u64, channel: &Receiver<Command>) -> (step: Step)
        ensures
            final(self)@ == old(self)@.stepped(now as nat, step.seen),
            step == old(self)@.output(now as nat, step.seen),
            final(self)@.wf(),
    {
        let poll = look(channel);
        self.step(now, poll)
    }

    pub fn state(&self) -> (state: ControlState)
        ensures
            state == self@.control,
    {
        self.control
    }

    /// How many frame captures this run has triggered.
    pub fn frames_triggered(&self) -> (n: u64)
        ensures
            n == self@.frames.ticks,
    {
        self.frames.ticks()
    }

    /// The number the next frame will carry.
    pub fn next_frame_number(&self) -> (n: u64)
        ensures
            n == self@.frames.number(),
    {
        self.frames.number()
    }

    /// The number the next audio chunk will carry, if audio is enabled.
    pub fn next_chunk_number(&self) -> (n: Option<u64>)
        ensures
            n == match self@.audio {
                Some(c) => Some(c.finalized as u64),
                None => None,
            },
    {
        proof {
            use_type_invariant(self);
        }
        match &self.audio {
            Some(chunker) => Some(chunker.finalized()),
            None => None,
        }
    }
}

} // verus!
