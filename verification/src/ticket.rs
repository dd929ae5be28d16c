//! Tickets: the identity a unit is given when its capture is triggered,
//! before there is anything captured to go with it.
//!
//! A ticket fixes the sequence number and the timestamp. Completing it with
//! the outcome of the capture yields either the unit to store or the record
//! of a gap; either way the sequence number is spent.

use vstd::prelude::*;
use crate::error::CaptureError;
use crate::unit::{CaptureUnit, MediaClass, Metadata};

verus! {

/// The identity of a frame whose capture has been triggered.
#[derive(Clone, Copy, Debug, PartialEq, Eq, Structural)]
pub struct FrameTicket {
    pub sequence_id: u64,
    /// The clock reading at which the capture was triggered.
    pub captured_at: u64,
}

/// The identity of an audio chunk that has been finalized.
#[derive(Clone, Copy, Debug, PartialEq, Eq, Structural)]
pub struct ChunkTicket {
    pub sequence_id: u64,
    /// The instant the chunk ended.
    pub captured_at: u64,
    /// How much running time the chunk covers, in nanoseconds.
    pub duration: u64,
}

/// What a successful frame capture brings back.
#[derive(Clone, Copy, Debug, PartialEq, Eq, Structural)]
pub struct FramePayload {
    pub payload_ref: u64,
    pub width: u32,
    pub height: u32,
}

/// A sequence number that was allocated and will never be stored, with the
/// failure that cost it.
#[derive(Clone, Copy, Debug, PartialEq, Eq, Structural)]
pub struct Gap {
    pub class: MediaClass,
    pub sequence_id: u64,
    pub error: CaptureError,
}

/// What became of a ticket.
#[derive(Clone, Copy, Debug, PartialEq, Eq, Structural)]
pub enum Completion {
    /// The capture succeeded: this unit goes to the store.
    Unit(CaptureUnit),
    /// The capture failed: this gap goes to the log.
    Skipped(Gap),
}

impl FrameTicket {
    pub open spec fn completed(self, outcome: Result<FramePayload, CaptureError>) -> Completion {
        match outcome {
            Ok(payload) => Completion::Unit(
                CaptureUnit {
                    sequence_id: self.sequence_id,
                    captured_at: self.captured_at,
                    payload_ref: payload.payload_ref,
                    metadata: Metadata::Frame { width: payload.width, height: payload.height },
                },
            ),
            Err(error) => Completion::Skipped(
                Gap { class: MediaClass::Frame, sequence_id: self.sequence_id, error },
            ),
        }
    }

    /// Joins the ticket with the outcome of its capture.
    pub fn complete(self, outcome: Result<FramePayload, CaptureError>) -> (done: Completion)
        ensures
            done == self.completed(outcome),
    {
        match outcome {
            Ok(payload) => Completion::Unit(
                CaptureUnit {
                    sequence_id: self.sequence_id,
                    captured_at: self.captured_at,
                    payload_ref: payload.payload_ref,
                    metadata: Metadata::Frame { width: payload.width, height: payload.height },
                },
            ),
            Err(error) => Completion::Skipped(
                Gap { class: MediaClass::Frame, sequence_id: self.sequence_id, error },
            ),
        }
    }
}

impl ChunkTicket {
    pub open spec fn completed(self, outcome: Result<u64, CaptureError>) -> Completion {
        match outcome {
            Ok(payload_ref) => Completion::Unit(
                CaptureUnit {
                    sequence_id: self.sequence_id,
                    captured_at: self.captured_at,
                    payload_ref,
                    metadata: Metadata::Audio { duration: self.duration },
                },
            ),
            Err(error) => Completion::Skipped(
                Gap { class: MediaClass::Audio, sequence_id: self.sequence_id, error },
            ),
        }
    }

    /// Joins the ticket with the content address of the recorded chunk, or
    /// with the failure to record it.
    pub fn complete(self, outcome: Result<u64, CaptureError>) -> (done: Completion)
        ensures
            done == self.completed(outcome),
    {
        match outcome {
            Ok(payload_ref) => Completion::Unit(
                CaptureUnit {
                    sequence_id: self.sequence_id,
                    captured_at: self.captured_at,
                    payload_ref,
                    metadata: Metadata::Audio { duration: self.duration },
                },
            ),
            Err(error) => Completion::Skipped(
                Gap { class: MediaClass::Audio, sequence_id: self.sequence_id, error },
            ),
        }
    }
}

impl Completion {
    /// The sequence number the completion accounts for.
    pub open spec fn sequence_id_of(self) -> u64 {
        match self {
            Completion::Unit(unit) => unit.sequence_id,
            Completion::Skipped(gap) => gap.sequence_id,
        }
    }

    pub open spec fn class_of(self) -> MediaClass {
        match self {
            Completion::Unit(unit) => unit.class_of(),
            Completion::Skipped(gap) => gap.class,
        }
    }

    pub fn sequence_id(&self) -> (id: u64)
        ensures
            id == self.sequence_id_of(),
    {
        match self {
            Completion::Unit(unit) => unit.sequence_id,
            Completion::Skipped(gap) => gap.sequence_id,
        }
    }

    pub fn class(&self) -> (class: MediaClass)
        ensures
            class == self.class_of(),
    {
        match self {
            Completion::Unit(unit) => unit.class(),
            Completion::Skipped(gap) => gap.class,
        }
    }
}

/// No sequence number is lost in silence. Whatever the capture did, the
/// completion carries the ticket's number and class; it is a unit exactly
/// when the capture succeeded, and otherwise a gap that names the capture
/// error.
pub proof fn lemma_frame_ticket_is_accounted_for(
    ticket: FrameTicket,
    outcome: Result<FramePayload, CaptureError>,
)
    ensures
        ticket.completed(outcome).sequence_id_of() == ticket.sequence_id,
        ticket.completed(outcome).class_of() == MediaClass::Frame,
        ticket.completed(outcome) is Unit <==> outcome is Ok,
        ticket.completed(outcome) matches Completion::Unit(unit) ==> unit.captured_at
            == ticket.captured_at,
        ticket.completed(outcome) matches Completion::Skipped(gap) ==> outcome == Err::<
            FramePayload,
            CaptureError,
        >(gap.error),
{
}

/// The same for audio chunks; a stored chunk keeps the ticket's duration.
pub proof fn lemma_chunk_ticket_is_accounted_for(ticket: ChunkTicket, outcome: Result<u64, CaptureError>)
    ensures
        ticket.completed(outcome).sequence_id_of() == ticket.sequence_id,
        ticket.completed(outcome).class_of() == MediaClass::Audio,
        ticket.completed(outcome) is Unit <==> outcome is Ok,
        ticket.completed(outcome) matches Completion::Unit(unit) ==> unit.captured_at
            == ticket.captured_at && unit.metadata == (Metadata::Audio { duration: ticket.duration }),
        ticket.completed(outcome) matches Completion::Skipped(gap) ==> outcome == Err::<
            u64,
            CaptureError,
        >(gap.error),
{
}

} // verus!
