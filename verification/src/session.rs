//! The recording session: the settings one run of the pipeline is started
//! with, checked once and never changed.

use vstd::prelude::*;
use crate::chunker::MAX_CHUNK_SECONDS;
use crate::error::ConfigurationError;
use crate::rate::{f64_frequency, f64_is_positive_finite, FrameRate, Frequency};

verus! {

/// The settings of a session, as values.
pub struct SessionView {
    pub rate: Frequency,
    pub audio_chunk_seconds: nat,
    pub audio_enabled: bool,
    pub data_directory: Seq<char>,
}

impl SessionView {
    pub open spec fn wf(self) -> bool {
        self.rate.wf() && 0 < self.audio_chunk_seconds <= MAX_CHUNK_SECONDS
    }
}

/// Whether a chunk length in seconds is one the pipeline can run with.
pub open spec fn chunk_seconds_ok(seconds: u64) -> bool {
    0 < seconds <= MAX_CHUNK_SECONDS
}

/// The settings of one run.
#[derive(Debug)]
pub struct RecordingSession {
    fps: FrameRate,
    audio_chunk_seconds: u64,
    audio_enabled: bool,
    data_directory: String,
}

impl View for RecordingSession {
    type V = SessionView;

    closed spec fn view(&self) -> SessionView {
        SessionView {
            rate: self.fps@,
            audio_chunk_seconds: self.audio_chunk_seconds as nat,
            audio_enabled: self.audio_enabled,
            data_directory: self.data_directory@,
        }
    }
}

impl RecordingSession {
    #[verifier::type_invariant]
    pub open spec fn valid(&self) -> bool {
        self@.wf()
    }

    /// Checks the settings and fixes them for the run. The frame rate is a
    /// double given by its bit pattern and must be positive and finite; the
    /// chunk length must be at least one second and at most
    /// `MAX_CHUNK_SECONDS`, whether or not audio is enabled. The frame rate
    /// is checked first.
    pub fn new(fps_bits: u64, audio_chunk_seconds: u64, audio_enabled: bool, data_directory: String) -> (r:
        Result<RecordingSession, ConfigurationError>)
        ensures
            r is Ok <==> f64_is_positive_finite(fps_bits) && chunk_seconds_ok(audio_chunk_seconds),
            r matches Ok(session) ==> session@ == (SessionView {
                rate: f64_frequency(fps_bits),
                audio_chunk_seconds: audio_chunk_seconds as nat,
                audio_enabled,
                data_directory: data_directory@,
            }) && session@.wf(),
            r matches Err(e) ==> e == if !f64_is_positive_finite(fps_bits) {
                ConfigurationError::InvalidFps
            } else {
                ConfigurationError::InvalidChunkDuration
            },
    {
        let fps = match FrameRate::from_f64_bits(fps_bits) {
            Ok(fps) => fps,
            Err(e) => {
                return Err(e);
            },
        };
        if audio_chunk_seconds == 0 || audio_chunk_seconds > MAX_CHUNK_SECONDS {
            return Err(ConfigurationError::InvalidChunkDuration);
        }
        Ok(RecordingSession { fps, audio_chunk_seconds, audio_enabled, data_directory })
    }

    pub fn fps(&self) -> (rate: FrameRate)
        ensures
            rate@ == self@.rate,
    {
        self.fps
    }

    pub fn audio_chunk_seconds(&self) -> (seconds: u64)
        ensures
            seconds == self@.audio_chunk_seconds,
            chunk_seconds_ok(seconds),
    {
        proof {
            use_type_invariant(self);
        }
        self.audio_chunk_seconds
    }

    pub fn audio_enabled(&self) -> (enabled: bool)
        ensures
            enabled == self@.audio_enabled,
    {
        self.audio_enabled
    }

    pub fn data_directory(&self) -> (directory: &String)
        ensures
            directory@ == self@.data_directory,
    {
        &self.data_directory
    }
}

} // verus!
