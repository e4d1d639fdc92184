use hls2dash::hls::dedup::{ContentDedupAction, SegmentDedup, SeqOrderAction};

#[test]
fn seq_order_detects_rewind_and_reset() {
    assert_eq!(
        SegmentDedup::check_seq_order(None, 10),
        SeqOrderAction::Advance
    );
    assert_eq!(
        SegmentDedup::check_seq_order(Some(10), 11),
        SeqOrderAction::Advance
    );
    assert_eq!(
        SegmentDedup::check_seq_order(Some(10), 9),
        SeqOrderAction::SkipRewind
    );
    assert_eq!(
        SegmentDedup::check_seq_order(Some(200), 5),
        SeqOrderAction::SequenceReset
    );
}

#[test]
fn content_dedup_skips_replay() {
    let mut dedup = SegmentDedup::new(8);
    let a = b"segment-payload-a";
    let b = b"segment-payload-b";
    assert_eq!(dedup.check_content("ch", 1, a), ContentDedupAction::Accept);
    assert_eq!(
        dedup.check_content("ch", 2, a),
        ContentDedupAction::SkipReplay
    );
    assert_eq!(
        dedup.check_content("ch", 1, a),
        ContentDedupAction::SkipDuplicate
    );
    assert_eq!(
        dedup.check_content("ch", 1, b),
        ContentDedupAction::ResetOutput
    );
}

#[test]
fn seq_order_at_the_threshold() {
    assert_eq!(
        SegmentDedup::check_seq_order(Some(100), 100),
        SeqOrderAction::SkipRewind
    );
    assert_eq!(
        SegmentDedup::check_seq_order(Some(100), 36),
        SeqOrderAction::SkipRewind
    );
    assert_eq!(
        SegmentDedup::check_seq_order(Some(100), 35),
        SeqOrderAction::SequenceReset
    );
}

#[test]
fn rewritten_segment_is_accepted_after_clear() {
    let mut dedup = SegmentDedup::new(0);
    assert_eq!(dedup.check_content("ch", 1, b"a"), ContentDedupAction::Accept);
    assert_eq!(
        dedup.check_content("ch", 1, b"b"),
        ContentDedupAction::ResetOutput
    );
    dedup.clear();
    assert_eq!(dedup.check_content("ch", 1, b"b"), ContentDedupAction::Accept);
    assert_eq!(
        dedup.check_content("ch", 1, b"b"),
        ContentDedupAction::SkipDuplicate
    );
}

#[test]
fn fingerprint_covers_the_length_and_the_head() {
    let mut dedup = SegmentDedup::new(16);
    let a = vec![1u8; 40_000];
    let mut tail_differs = a.clone();
    tail_differs[39_999] = 2;
    let mut head_differs = a.clone();
    head_differs[32_767] = 2;
    let longer = vec![1u8; 40_001];
    assert_eq!(dedup.check_content("ch", 1, &a), ContentDedupAction::Accept);
    assert_eq!(
        dedup.check_content("ch", 2, &tail_differs),
        ContentDedupAction::SkipReplay
    );
    assert_eq!(
        dedup.check_content("ch", 3, &head_differs),
        ContentDedupAction::Accept
    );
    assert_eq!(
        dedup.check_content("ch", 4, &longer),
        ContentDedupAction::Accept
    );
    assert_eq!(dedup.check_content("ch", 5, b""), ContentDedupAction::Accept);
}

#[test]
fn the_oldest_pair_is_displaced_from_a_full_window() {
    let mut dedup = SegmentDedup::new(8);
    for n in 0..16u64 {
        assert_eq!(dedup.check_fingerprint(n, n + 1000), ContentDedupAction::Accept);
    }
    // Sixteen pairs are remembered, so the first is still known.
    assert_eq!(
        dedup.check_fingerprint(99, 1000),
        ContentDedupAction::SkipReplay
    );
    assert_eq!(dedup.check_fingerprint(16, 1016), ContentDedupAction::Accept);
    assert_eq!(dedup.check_fingerprint(99, 1000), ContentDedupAction::Accept);
    // A remembered payload under a number that had another one.
    assert_eq!(
        dedup.check_fingerprint(16, 1005),
        ContentDedupAction::ResetOutput
    );
}
