use ytermusic::clock::{Duration, Instant};
use ytermusic::play_error::PlayError;
use ytermusic::recovery::{RecoveryPolicy, MAX_CONSECUTIVE_FAILURES, RECOVERY_COOLDOWN};

fn now() -> Instant {
    let since = std::time::SystemTime::now()
        .duration_since(std::time::SystemTime::UNIX_EPOCH)
        .unwrap();
    Instant::from_nanos(since.as_nanos())
}

#[test]
fn allows_first_attempt() {
    let policy = RecoveryPolicy::new();
    assert!(policy.should_attempt(now()));
    assert!(!policy.exhausted());
}

#[test]
fn cooldown_blocks_rapid_retries() {
    let mut policy = RecoveryPolicy::new();
    let t0 = now();
    assert!(policy.should_attempt(t0));
    policy.record_attempt(t0);
    policy.record_failure();

    // A second error arriving before the cooldown elapsed must be ignored.
    assert!(!policy.should_attempt(t0 + Duration::from_secs(1)));
    // Once the cooldown elapsed, retrying is allowed again.
    assert!(policy.should_attempt(t0 + Duration::from_nanos(RECOVERY_COOLDOWN)));
}

#[test]
fn cooldown_elapsed_allows_retry_after_failure() {
    let mut policy = RecoveryPolicy::new();
    let t0 = now();
    policy.record_attempt(t0);
    policy.record_failure();

    assert!(policy.should_attempt(t0 + Duration::from_secs(5)));
    assert!(!policy.exhausted());
}

#[test]
fn consecutive_failures_exhaust_recovery() {
    let mut policy = RecoveryPolicy::new();
    let mut t = now();
    for _ in 0..MAX_CONSECUTIVE_FAILURES {
        // Skip past the cooldown so every failure counts.
        t = t + Duration::from_secs(30);
        policy.record_attempt(t);
        policy.record_failure();
    }
    assert!(policy.exhausted());
}

#[test]
fn success_resets_failure_count() {
    let mut policy = RecoveryPolicy::new();
    let mut t = now();

    // Two consecutive failures: not exhausted yet.
    t = t + Duration::from_secs(30);
    policy.record_attempt(t);
    policy.record_failure();
    t = t + Duration::from_secs(30);
    policy.record_attempt(t);
    policy.record_failure();
    assert!(!policy.exhausted());

    // A success resets the count, so one more failure stays under the cap.
    policy.record_success();
    t = t + Duration::from_secs(30);
    policy.record_attempt(t);
    policy.record_failure();
    assert!(!policy.exhausted());
}

#[test]
fn failures_separated_by_success_never_exhaust() {
    let mut policy = RecoveryPolicy::new();
    let mut t = now();
    // 20 failure cycles, each followed by a successful recovery.
    // As long as recoveries succeed in between, the policy keeps trying.
    for _ in 0..20 {
        t = t + Duration::from_secs(30);
        policy.record_attempt(t);
        policy.record_failure();
        policy.record_success();
    }
    assert!(!policy.exhausted());
}

#[test]
fn cooldown_is_two_seconds_to_the_nanosecond() {
    let mut policy = RecoveryPolicy::default();
    let t0 = Instant::from_nanos(5_000_000_000);
    policy.record_attempt(t0);
    assert!(!policy.should_attempt(Instant::from_nanos(6_999_999_999)));
    assert!(policy.should_attempt(Instant::from_nanos(7_000_000_000)));
    // A clock that went back counts as no time at all.
    assert!(!policy.should_attempt(Instant::from_nanos(0)));
    assert_eq!(Duration::from_secs(2), Duration::from_nanos(RECOVERY_COOLDOWN));
}

#[test]
fn failure_count_saturates() {
    let mut policy = RecoveryPolicy::new();
    policy.consecutive_failures = u32::MAX;
    policy.record_failure();
    assert!(policy.exhausted());
    assert_eq!(policy.consecutive_failures, u32::MAX);
}

fn backend_err(description: &str) -> String {
    format!("BackendSpecific {{ err: BackendSpecificError {{ description: {description:?} }} }}")
}

#[test]
fn device_stream_errors_are_device_loss() {
    assert!(PlayError::DeviceStreamError(backend_err("x")).is_device_loss());
    assert!(PlayError::DeviceStreamError("DeviceNotAvailable".to_string()).is_device_loss());
}

#[test]
fn stream_open_errors_are_device_loss() {
    assert!(PlayError::StreamError("NoDevice".to_string()).is_device_loss());
    assert!(PlayError::no_device().is_device_loss());
}

#[test]
fn file_and_seek_errors_are_not_device_loss() {
    assert!(!PlayError::Io("Custom { kind: Other, error: \"test\" }".to_string()).is_device_loss());
    assert!(
        !PlayError::SeekError("NotSupported { underlying_source: \"test\" }".to_string())
            .is_device_loss()
    );
}

#[test]
fn decoder_and_play_errors_are_not_device_loss() {
    assert!(!PlayError::DecoderError("UnrecognizedFormat".to_string()).is_device_loss());
    assert!(!PlayError::PlayError("NoDevice".to_string()).is_device_loss());
}

#[test]
fn errors_are_shown_in_debug_form() {
    assert_eq!(PlayError::no_device().text(), "StreamError(NoDevice)");
    assert_eq!(PlayError::Io("a".to_string()).text(), "Io(a)");
    assert_eq!(
        PlayError::DecoderError("b".to_string()).text(),
        "DecoderError(b)"
    );
    assert_eq!(PlayError::PlayError("c".to_string()).text(), "PlayError(c)");
    assert_eq!(PlayError::SeekError("d".to_string()).text(), "SeekError(d)");
    assert_eq!(
        PlayError::DeviceStreamError("DeviceNotAvailable".to_string()).text(),
        "DeviceStreamError(DeviceNotAvailable)"
    );
}
