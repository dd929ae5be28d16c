use screenpipe_server::error::{
    AppendError, CaptureError, ConfigurationError, PipelineError, Recovery, RetryPolicy, StorageInitError,
};

#[test]
fn startup_errors_abort() {
    let policy = RetryPolicy::new(3);
    for e in [
        PipelineError::Configuration(ConfigurationError::InvalidFps),
        PipelineError::Configuration(ConfigurationError::InvalidChunkDuration),
        PipelineError::StorageInit(StorageInitError::Unwritable),
        PipelineError::StorageInit(StorageInitError::CorruptRecord),
    ] {
        assert_eq!(e.recovery(&policy, 0), Recovery::Abort);
        assert!(e.is_fatal_at_startup());
    }
}

#[test]
fn capture_errors_skip_the_unit() {
    let policy = RetryPolicy::new(0);
    for e in [CaptureError::Source, CaptureError::Encode] {
        assert_eq!(PipelineError::Capture(e).recovery(&policy, 1), Recovery::SkipUnit);
        assert_eq!(PipelineError::Capture(e).recovery(&policy, 1_000), Recovery::SkipUnit);
        assert!(!PipelineError::Capture(e).is_fatal_at_startup());
    }
}

#[test]
fn write_errors_are_retried_a_bounded_number_of_times() {
    let policy = RetryPolicy::new(3);
    assert_eq!(PipelineError::Write.recovery(&policy, 1), Recovery::RetryWrite);
    assert_eq!(PipelineError::Write.recovery(&policy, 3), Recovery::RetryWrite);
    assert_eq!(PipelineError::Write.recovery(&policy, 4), Recovery::Abort);
    assert_eq!(PipelineError::Write.recovery(&policy, u32::MAX), Recovery::Abort);
    assert_eq!(PipelineError::Write.recovery(&RetryPolicy::new(0), 1), Recovery::Abort);
}

#[test]
fn ordering_violation_always_aborts() {
    assert_eq!(PipelineError::OrderingViolation.recovery(&RetryPolicy::new(u32::MAX), 1), Recovery::Abort);
}

#[test]
fn append_errors_map_into_the_taxonomy() {
    assert_eq!(PipelineError::from_append(AppendError::OrderingViolation), PipelineError::OrderingViolation);
    assert_eq!(PipelineError::from_append(AppendError::Closed), PipelineError::Closed);
    assert_eq!(PipelineError::Closed.recovery(&RetryPolicy::new(u32::MAX), 1), Recovery::Abort);
}
