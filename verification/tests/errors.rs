use response_engine::error::PlaybackError;
use response_engine::limits::{EXTERNAL_CALL_TIMEOUT_SECS, POLL_INTERVAL_MS, RETRY_AFTER_SECS};

#[test]
fn empty_clipboard_is_a_bad_request() {
    assert_eq!(PlaybackError::Empty.status_code(), 400);
    assert_eq!(PlaybackError::Empty.kind(), "Empty");
}

#[test]
fn unknown_handle_is_not_found() {
    assert_eq!(PlaybackError::UnknownHandle.status_code(), 404);
}

#[test]
fn failed_synthesis_is_a_bad_gateway() {
    assert_eq!(PlaybackError::SynthesisFailed.status_code(), 502);
}

#[test]
fn full_queue_is_unavailable_with_a_retry_hint() {
    assert_eq!(PlaybackError::QueueFull.status_code(), 503);
    assert_eq!(PlaybackError::QueueFull.retry_after(), Some(RETRY_AFTER_SECS));
    assert_eq!(PlaybackError::QueueFull.retry_after(), Some(1));
}

#[test]
fn timeout_is_a_gateway_timeout() {
    assert_eq!(PlaybackError::Timeout.status_code(), 504);
}

#[test]
fn remaining_kinds_are_server_errors() {
    assert_eq!(PlaybackError::DeviceUnavailable.status_code(), 500);
    assert_eq!(PlaybackError::UnsupportedFormat.status_code(), 500);
    assert_eq!(PlaybackError::Corrupt.status_code(), 500);
    assert_eq!(PlaybackError::Internal.status_code(), 500);
}

#[test]
fn only_a_full_queue_carries_a_retry_hint() {
    let others = [
        PlaybackError::UnknownHandle,
        PlaybackError::UnsupportedFormat,
        PlaybackError::Corrupt,
        PlaybackError::DeviceUnavailable,
        PlaybackError::SynthesisFailed,
        PlaybackError::Timeout,
        PlaybackError::Empty,
        PlaybackError::Internal,
    ];
    for e in others {
        assert_eq!(e.retry_after(), None);
    }
}

#[test]
fn kinds_are_named_as_they_are_written() {
    assert_eq!(PlaybackError::UnknownHandle.kind(), "UnknownHandle");
    assert_eq!(PlaybackError::QueueFull.kind(), "QueueFull");
    assert_eq!(PlaybackError::UnsupportedFormat.kind(), "UnsupportedFormat");
    assert_eq!(PlaybackError::Corrupt.kind(), "Corrupt");
    assert_eq!(PlaybackError::DeviceUnavailable.kind(), "DeviceUnavailable");
    assert_eq!(PlaybackError::SynthesisFailed.kind(), "SynthesisFailed");
    assert_eq!(PlaybackError::Timeout.kind(), "Timeout");
    assert_eq!(PlaybackError::Empty.kind(), "Empty");
    assert_eq!(PlaybackError::Internal.kind(), "Internal");
}

#[test]
fn limits_are_within_their_bounds() {
    assert!(POLL_INTERVAL_MS <= 50);
    assert_eq!(EXTERNAL_CALL_TIMEOUT_SECS, 30);
}
