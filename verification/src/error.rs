//! The error taxonomy of the pipeline and what each error calls for.

use vstd::prelude::*;

verus! {

/// A startup setting the pipeline cannot run with.
#[derive(Clone, Copy, Debug, PartialEq, Eq, Structural)]
pub enum ConfigurationError {
    /// The frame rate is not a positive finite number.
    InvalidFps,
    /// The audio chunk length is zero, or too long to count in nanoseconds.
    InvalidChunkDuration,
}

/// Why a store could not be opened.
#[derive(Clone, Copy, Debug, PartialEq, Eq, Structural)]
pub enum StorageInitError {
    /// The backing file could not be created, read or written. Raised by the
    /// caller that owns the file, never by this crate.
    Unwritable,
    /// The image does not begin with the store's magic bytes.
    BadHeader,
    /// The image was written under a layout this crate does not read.
    UnsupportedVersion,
    /// A complete record in the image does not decode.
    CorruptRecord,
    /// The records decode but break the ordering invariant.
    OutOfOrder,
}

/// One unit failed to materialise.
#[derive(Clone, Copy, Debug, PartialEq, Eq, Structural)]
pub enum CaptureError {
    /// The capture source produced nothing.
    Source,
    /// The captured data could not be encoded.
    Encode,
    /// The payload could not be put away where its address points.
    Payload,
}

/// Why the store refused a unit.
#[derive(Clone, Copy, Debug, PartialEq, Eq, Structural)]
pub enum AppendError {
    /// The unit does not follow the latest unit of its class.
    OrderingViolation,
    /// The store has been closed.
    Closed,
}

/// Why a query was not run.
#[derive(Clone, Copy, Debug, PartialEq, Eq, Structural)]
pub enum QueryError {
    /// The filter is malformed or selects an empty time range by construction.
    BadFilter,
}

/// Every failure the pipeline distinguishes.
#[derive(Clone, Copy, Debug, PartialEq, Eq, Structural)]
pub enum PipelineError {
    Configuration(ConfigurationError),
    StorageInit(StorageInitError),
    Capture(CaptureError),
    /// Making a unit durable failed.
    Write,
    /// The orchestrator offered the store a unit out of sequence.
    OrderingViolation,
    /// The store was offered a unit after it had been closed.
    Closed,
}

/// What the pipeline does about a failure.
#[derive(Clone, Copy, Debug, PartialEq, Eq, Structural)]
pub enum Recovery {
    /// Stop the process: going on would lose or corrupt data.
    Abort,
    /// Log the failure, drop the unit, keep its sequence number spent, go on.
    SkipUnit,
    /// Try the same write again.
    RetryWrite,
}

/// How many times a failed write is tried again before it becomes fatal.
#[derive(Clone, Copy, Debug, PartialEq, Eq, Structural)]
pub struct RetryPolicy {
    pub max_retries: u32,
}

impl RetryPolicy {
    /// Whether a write that has now failed `failures` times gets another try.
    pub open spec fn allows_retry(self, failures: u32) -> bool {
        failures <= self.max_retries
    }

    pub fn new(max_retries: u32) -> (policy: RetryPolicy)
        ensures
            policy.max_retries == max_retries,
    {
        RetryPolicy { max_retries }
    }
}

impl PipelineError {
    /// The recovery each kind of failure calls for. `failures` counts how
    /// often the write at hand has failed so far, this failure included; it
    /// matters only for `Write`.
    pub open spec fn recovery_for(self, policy: RetryPolicy, failures: u32) -> Recovery {
        match self {
            PipelineError::Configuration(_) => Recovery::Abort,
            PipelineError::StorageInit(_) => Recovery::Abort,
            PipelineError::Capture(_) => Recovery::SkipUnit,
            PipelineError::Write => if policy.allows_retry(failures) {
                Recovery::RetryWrite
            } else {
                Recovery::Abort
            },
            PipelineError::OrderingViolation => Recovery::Abort,
            PipelineError::Closed => Recovery::Abort,
        }
    }

    pub fn recovery(&self, policy: &RetryPolicy, failures: u32) -> (r: Recovery)
        ensures
            r == self.recovery_for(*policy, failures),
    {
        match self {
            PipelineError::Configuration(_) => Recovery::Abort,
            PipelineError::StorageInit(_) => Recovery::Abort,
            PipelineError::Capture(_) => Recovery::SkipUnit,
            PipelineError::Write => if failures <= policy.max_retries {
                Recovery::RetryWrite
            } else {
                Recovery::Abort
            },
            PipelineError::OrderingViolation => Recovery::Abort,
            PipelineError::Closed => Recovery::Abort,
        }
    }

    /// Whether the failure ends the process whatever the retry policy says.
    pub fn is_fatal_at_startup(&self) -> (b: bool)
        ensures
            b == (self is Configuration || self is StorageInit),
    {
        match self {
            PipelineError::Configuration(_) => true,
            PipelineError::StorageInit(_) => true,
            _ => false,
        }
    }

    pub fn from_append(e: AppendError) -> (r: PipelineError)
        ensures
            r == match e {
                AppendError::OrderingViolation => PipelineError::OrderingViolation,
                AppendError::Closed => PipelineError::Closed,
            },
    {
        match e {
            AppendError::OrderingViolation => PipelineError::OrderingViolation,
            AppendError::Closed => PipelineError::Closed,
        }
    }
}

/// A failed write is retried only a bounded number of times: within the
/// allowance it is tried again, and once the failures outnumber the
/// allowance every later failure aborts. It is never passed over.
pub proof fn lemma_write_retries_are_bounded(policy: RetryPolicy, failures: u32)
    ensures
        failures <= policy.max_retries ==> PipelineError::Write.recovery_for(policy, failures)
            == Recovery::RetryWrite,
        failures > policy.max_retries ==> PipelineError::Write.recovery_for(policy, failures)
            == Recovery::Abort,
{
}

/// A capture failure never aborts, and nothing but a capture failure skips a unit.
pub proof fn lemma_only_capture_errors_skip(error: PipelineError, policy: RetryPolicy, failures: u32)
    ensures
        error.recovery_for(policy, failures) == Recovery::SkipUnit <==> error is Capture,
{
}

} // verus!
