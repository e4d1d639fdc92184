use hls2dash::hls::recovery::{detect_sequence_gap, FetchAttempts, RetryAction};

#[test]
fn detect_gap_when_sequence_jumps() {
    assert!(!detect_sequence_gap("ch", None, 5));
    assert!(!detect_sequence_gap("ch", Some(5), 6));
    assert!(detect_sequence_gap("ch", Some(5), 8));
}

#[test]
fn gap_detection_at_the_limits() {
    assert!(!detect_sequence_gap("ch", Some(5), 5));
    assert!(!detect_sequence_gap("ch", Some(5), 4));
    assert!(detect_sequence_gap("ch", Some(5), 7));
    assert!(!detect_sequence_gap("ch", Some(u64::MAX), u64::MAX));
}

#[test]
fn a_segment_is_tried_once_and_then_as_often_as_the_retries_say() {
    let mut attempts = FetchAttempts::new(2, 10);
    assert_eq!(attempts.on_failure(), RetryAction::RetryAfterMs(50));
    assert_eq!(attempts.on_failure(), RetryAction::RetryAfterMs(50));
    assert_eq!(attempts.on_failure(), RetryAction::GiveUp);
    assert_eq!(attempts.on_failure(), RetryAction::GiveUp);
    assert_eq!(FetchAttempts::new(0, 500).on_failure(), RetryAction::GiveUp);
    assert_eq!(
        FetchAttempts::new(1, 500).on_failure(),
        RetryAction::RetryAfterMs(500)
    );
}
