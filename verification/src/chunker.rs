//! The audio chunker: cuts a continuous recording into chunks of one fixed
//! length, each boundary placed exactly one length after the one before.
//!
//! At a boundary the chunk in progress is finalized and the next one begun
//! in the same step, before anything is handed downstream. Like the
//! scheduler, the chunker keeps its own clock and tells running time
//! (`advance`, `poll`) from suspended time (`discount`).

use vstd::prelude::*;
use crate::error::ConfigurationError;
use crate::rate::NANOS_PER_SECOND;
use crate::ticket::ChunkTicket;

verus! {

/// The longest chunk whose length in nanoseconds fits a `u64`.
pub const MAX_CHUNK_SECONDS: u64 = 18_446_744_073;

/// The chunker's state: the chunk length, where the chunk in progress
/// began, the latest instant seen, and the number the chunk in progress
/// will carry, which counts the chunks finalized before it.
pub struct Chunking {
    pub length: nat,
    pub started: nat,
    pub clock: nat,
    pub finalized: nat,
}

impl Chunking {
    pub open spec fn wf(self) -> bool {
        &&& 0 < self.length <= u64::MAX
        &&& self.started <= self.clock <= u64::MAX
        &&& self.finalized <= u64::MAX
    }

    /// How much of the chunk in progress has been recorded.
    pub open spec fn recorded(self) -> nat {
        (self.clock - self.started) as nat
    }

    pub open spec fn advanced(self, now: nat) -> Chunking {
        if now > self.clock {
            Chunking { clock: now, ..self }
        } else {
            self
        }
    }

    pub open spec fn discounted(self, now: nat) -> Chunking {
        if now > self.clock {
            Chunking { started: (self.started + (now - self.clock)) as nat, clock: now, ..self }
        } else {
            self
        }
    }

    /// Whether the chunk in progress has reached its boundary.
    pub open spec fn due(self) -> bool {
        self.finalized < u64::MAX && self.recorded() >= self.length
    }

    /// The ticket of the chunk in progress, finalized at its boundary.
    pub open spec fn full_ticket(self) -> ChunkTicket {
        ChunkTicket {
            sequence_id: self.finalized as u64,
            captured_at: (self.started + self.length) as u64,
            duration: self.length as u64,
        }
    }

    /// The state once the chunk in progress has been finalized at its
    /// boundary: the next chunk begins where this one ended.
    pub open spec fn cut(self) -> Chunking {
        Chunking {
            started: (self.started + self.length) as nat,
            finalized: (self.finalized + 1) as nat,
            ..self
        }
    }

    pub open spec fn polled(self, now: nat) -> Chunking {
        let seen = self.advanced(now);
        if seen.due() {
            seen.cut()
        } else {
            seen
        }
    }

    /// Whether shutting down leaves a last chunk to hand over.
    pub open spec fn has_remainder(self) -> bool {
        self.finalized < u64::MAX && self.recorded() > 0
    }

    /// The ticket of the last chunk: what was recorded of it, at most one
    /// chunk length.
    pub open spec fn last_ticket(self) -> ChunkTicket {
        if self.recorded() >= self.length {
            self.full_ticket()
        } else {
            ChunkTicket {
                sequence_id: self.finalized as u64,
                captured_at: self.clock as u64,
                duration: self.recorded() as u64,
            }
        }
    }

    /// The state after shutting down: nothing is left in progress.
    pub open spec fn flushed(self) -> Chunking {
        if self.has_remainder() {
            Chunking { started: self.clock, finalized: (self.finalized + 1) as nat, ..self }
        } else {
            self
        }
    }

    /// The next boundary as a clock reading, if the clock can show it.
    pub open spec fn wake(self) -> Option<u64> {
        if self.started + self.length <= u64::MAX {
            Some((self.started + self.length) as u64)
        } else {
            None
        }
    }
}

/// The audio chunker.
#[derive(Clone, Copy, Debug)]
pub struct AudioChunker {
    length: u64,
    started: u64,
    clock: u64,
    finalized: u64,
}

impl View for AudioChunker {
    type V = Chunking;

    closed spec fn view(&self) -> Chunking {
        Chunking {
            length: self.length as nat,
            started: self.started as nat,
            clock: self.clock as nat,
            finalized: self.finalized as nat,
        }
    }
}

impl AudioChunker {
    #[verifier::type_invariant]
    pub open spec fn valid(&self) -> bool {
        self@.wf()
    }

    /// A chunker whose first chunk begins at `start` and carries the number
    /// 0. The chunk length is a whole number of seconds, at least one and at
    /// most `MAX_CHUNK_SECONDS`.
    pub fn new(chunk_seconds: u64, start: u64) -> (r: Result<AudioChunker, ConfigurationError>)
        ensures
            r is Ok <==> 0 < chunk_seconds <= MAX_CHUNK_SECONDS,
            r matches Ok(chunker) ==> chunker@ == (Chunking {
                length: (chunk_seconds * NANOS_PER_SECOND) as nat,
                started: start as nat,
                clock: start as nat,
                finalized: 0,
            }) && chunker@.wf(),
            r matches Err(e) ==> e == ConfigurationError::InvalidChunkDuration,
    {
        AudioChunker::starting_at(chunk_seconds, start, 0)
    }

    /// A chunker whose first chunk begins at `start` and carries the number
    /// `first`: for a cadence that goes on numbering where an earlier run
    /// stopped.
    pub fn starting_at(chunk_seconds: u64, start: u64, first: u64) -> (r: Result<
        AudioChunker,
        ConfigurationError,
    >)
        ensures
            r is Ok <==> 0 < chunk_seconds <= MAX_CHUNK_SECONDS,
            r matches Ok(chunker) ==> chunker@ == (Chunking {
                length: (chunk_seconds * NANOS_PER_SECOND) as nat,
                started: start as nat,
                clock: start as nat,
                finalized: first as nat,
            }) && chunker@.wf(),
            r matches Err(e) ==> e == ConfigurationError::InvalidChunkDuration,
    {
        if chunk_seconds == 0 || chunk_seconds > MAX_CHUNK_SECONDS {
            Err(ConfigurationError::InvalidChunkDuration)
        } else {
            let length: u64 = chunk_seconds * NANOS_PER_SECOND;
            Ok(AudioChunker { length, started: start, clock: start, finalized: first })
        }
    }

    /// Shows the chunker the time and asks whether a boundary has been
    /// reached. If so the chunk in progress is finalized at the boundary,
    /// one full length long, and the next chunk has already begun when the
    /// ticket is returned.
    pub fn poll(&mut self, now: u64) -> (ticket: Option<ChunkTicket>)
        ensures
            final(self)@ == old(self)@.polled(now as nat),
            final(self)@.wf(),
            ticket == if old(self)@.advanced(now as nat).due() {
                Some(old(self)@.advanced(now as nat).full_ticket())
            } else {
                None
            },
    {
        proof {
            use_type_invariant(&*self);
        }
        let clock: u64 = if now > self.clock {
            now
        } else {
            self.clock
        };
        if self.finalized < u64::MAX && clock - self.started >= self.length {
            let boundary: u64 = self.started + self.length;
            let ticket = ChunkTicket {
                sequence_id: self.finalized,
                captured_at: boundary,
                duration: self.length,
            };
            *self = AudioChunker {
                length: self.length,
                started: boundary,
                clock,
                finalized: self.finalized + 1,
            };
            Some(ticket)
        } else {
            self.clock = clock;
            None
        }
    }

    /// Shows the chunker the time without asking for a chunk.
    pub fn advance(&mut self, now: u64)
        ensures
            final(self)@ == old(self)@.advanced(now as nat),
            final(self)@.wf(),
    {
        proof {
            use_type_invariant(&*self);
        }
        if now > self.clock {
            self.clock = now;
        }
    }

    /// Shows the chunker the time and has it treat the time since it last
    /// looked as not recorded: the chunk in progress keeps what it had.
    pub fn discount(&mut self, now: u64)
        ensures
            final(self)@ == old(self)@.discounted(now as nat),
            final(self)@.wf(),
            final(self)@.recorded() == old(self)@.recorded(),
    {
        proof {
            use_type_invariant(&*self);
        }
        if now > self.clock {
            let idle: u64 = now - self.clock;
            *self = AudioChunker {
                length: self.length,
                started: self.started + idle,
                clock: now,
                finalized: self.finalized,
            };
        }
    }

    /// Finalizes whatever has been recorded of the chunk in progress, for
    /// shutdown. The last chunk is the only one that may be shorter than
    /// the chunk length; if nothing was recorded there is no last chunk.
    pub fn flush(&mut self) -> (ticket: Option<ChunkTicket>)
        ensures
            final(self)@ == old(self)@.flushed(),
            final(self)@.wf(),
            ticket == if old(self)@.has_remainder() {
                Some(old(self)@.last_ticket())
            } else {
                None
            },
    {
        proof {
            use_type_invariant(&*self);
        }
        let recorded: u64 = self.clock - self.started;
        if self.finalized == u64::MAX || recorded == 0 {
            return None;
        }
        let ticket = if recorded >= self.length {
            ChunkTicket {
                sequence_id: self.finalized,
                captured_at: self.started + self.length,
                duration: self.length,
            }
        } else {
            ChunkTicket { sequence_id: self.finalized, captured_at: self.clock, duration: recorded }
        };
        *self = AudioChunker {
            length: self.length,
            started: self.clock,
            clock: self.clock,
            finalized: self.finalized + 1,
        };
        Some(ticket)
    }

    /// The instant of the next boundary, or `None` if it lies beyond the
    /// clock's range.
    pub fn next_boundary(&self) -> (until: Option<u64>)
        ensures
            until == self@.wake(),
    {
        self.started.checked_add(self.length)
    }

    /// The chunk length in nanoseconds.
    pub fn length(&self) -> (n: u64)
        ensures
            n == self@.length,
    {
        self.length
    }

    /// The number the next chunk will carry: the count of chunks finalized
    /// so far, over this run and the runs it goes on from.
    pub fn finalized(&self) -> (n: u64)
        ensures
            n == self@.finalized,
    {
        self.finalized
    }
}

/// Every reachable state of a chunker is well formed.
pub proof fn lemma_chunking_steps_keep_wf(c: Chunking, now: nat)
    requires
        c.wf(),
        now <= u64::MAX,
    ensures
        c.advanced(now).wf(),
        c.discounted(now).wf(),
        c.polled(now).wf(),
        c.flushed().wf(),
{
}

/// Every chunk finalized at a boundary is exactly one chunk length long;
/// only the chunk finalized at shutdown may be shorter, and it is never
/// empty and never longer.
pub proof fn lemma_chunk_durations(c: Chunking)
    requires
        c.wf(),
    ensures
        c.full_ticket().duration == c.length,
        0 < c.last_ticket().duration <= c.length || !c.has_remainder(),
        c.has_remainder() && c.recorded() >= c.length ==> c.last_ticket().duration == c.length,
{
}

/// Chunks follow one another without gap or overlap: a chunk finalized at a
/// boundary ends where the next begins, carries the next free sequence
/// number, and its end never lies in the future.
pub proof fn lemma_chunks_are_contiguous(c: Chunking)
    requires
        c.wf(),
        c.due(),
    ensures
        c.full_ticket().sequence_id == c.finalized,
        c.cut().finalized == c.finalized + 1,
        c.cut().started == c.full_ticket().captured_at,
        c.full_ticket().captured_at == c.started + c.length,
        c.full_ticket().captured_at <= c.clock,
        c.cut().wf(),
{
}

/// Suspended time adds nothing to the chunk in progress.
pub proof fn lemma_discount_keeps_chunk(c: Chunking, now: nat)
    requires
        c.wf(),
    ensures
        c.discounted(now).recorded() == c.recorded(),
        c.discounted(now).finalized == c.finalized,
        c.discounted(now).due() == c.due(),
{
}

} // verus!
