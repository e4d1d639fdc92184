use hls2dash::mpegts::egress::{
    clamp, plan_smooth_slices, IdleAction, Pacer, SlicePlan, SmoothSegment,
};

const SEC: u64 = 1_000_000_000;

#[test]
fn a_long_segment_is_cut_by_the_chunk_interval() {
    // Eleven seconds at 250 ms make forty-four slices.
    let plan = plan_smooth_slices(188 * 4400, 11 * SEC, 250);
    assert_eq!(
        plan,
        SlicePlan {
            slices: 44,
            slice_bytes: 188 * 100,
            interval_nanos: SEC / 4,
        }
    );
}

#[test]
fn slices_are_rounded_up_and_limited_by_the_packets() {
    assert_eq!(plan_smooth_slices(188 * 100, SEC + 1, 250).slices, 5);
    let plan = plan_smooth_slices(188 * 3, 10 * SEC, 250);
    assert_eq!((plan.slices, plan.slice_bytes), (3, 188));
    assert_eq!(plan.interval_nanos, 10 * SEC / 3);
    assert_eq!(plan_smooth_slices(0, SEC, 250).slices, 1);
    assert_eq!(plan_smooth_slices(188, 0, 250).slices, 1);
}

#[test]
fn durations_and_intervals_are_clamped() {
    // A tenth of a second at least, sixty seconds at most.
    assert_eq!(
        plan_smooth_slices(188 * 1000, 0, 50).interval_nanos,
        SEC / 20
    );
    let long = plan_smooth_slices(188 * 1000, 1000 * SEC, 2000);
    assert_eq!((long.slices, long.interval_nanos), (30, 2 * SEC));
    // Fifty milliseconds at least, two seconds at most.
    assert_eq!(plan_smooth_slices(188 * 1000, SEC, 1).slices, 20);
    assert_eq!(plan_smooth_slices(188 * 1000, 10 * SEC, 60_000).slices, 5);
    assert_eq!(clamp(5, 1, 10), 5);
    assert_eq!(clamp(0, 1, 10), 1);
    assert_eq!(clamp(11, 1, 10), 10);
}

#[test]
fn slices_make_the_segment() {
    for packets in [1usize, 2, 7, 100, 101, 1000] {
        let data: Vec<u8> = (0..188 * packets).map(|i| (i % 251) as u8).collect();
        let mut segment = SmoothSegment::new(data.clone(), 3 * SEC, 250, true);
        let interval = segment.interval_nanos();
        let mut joined = Vec::new();
        let mut count = 0u64;
        while let Some(slice) = segment.take_slice() {
            assert!(!slice.is_empty());
            assert_eq!(slice.len() % 188, 0);
            joined.extend_from_slice(&slice);
            count += 1;
        }
        assert_eq!(joined, data);
        assert!(count * interval <= 3 * SEC);
        assert!(!segment.has_more());
        assert!(segment.take_slice().is_none());
    }
}

#[test]
fn without_pacing_a_segment_leaves_in_one_piece() {
    let data = vec![7u8; 188 * 50];
    let mut segment = SmoothSegment::new(data.clone(), 10 * SEC, 250, false);
    assert!(segment.has_more());
    assert_eq!(segment.take_slice(), Some(data));
    assert_eq!(segment.take_slice(), None);
}

#[test]
fn slices_keep_their_distance() {
    let mut pacer = Pacer::start(true, 0);
    assert_eq!(pacer.on_ready(5), None);
    pacer.on_due(5);
    pacer.on_sent(6, 100);
    assert_eq!(pacer.on_ready(50), Some(106));
    assert_eq!(pacer.on_ready(106), None);
}

#[test]
fn an_underrun_anchors_the_pace_anew() {
    let mut pacer = Pacer::start(true, 0);
    pacer.on_sent(0, 10 * SEC);
    assert_eq!(pacer.on_idle(SEC), IdleAction::Poll);
    assert_eq!(pacer.on_ready(2 * SEC), None);
    pacer.on_sent(2 * SEC, SEC);
    assert_eq!(pacer.on_ready(2 * SEC), Some(3 * SEC));
}

#[test]
fn an_unpaced_stream_never_waits() {
    let mut pacer = Pacer::start(false, 0);
    pacer.on_sent(0, 10 * SEC);
    assert_eq!(pacer.on_ready(1), None);
}

#[test]
fn a_stream_without_segments_ends_after_a_minute() {
    let mut pacer = Pacer::start(true, 5 * SEC);
    assert_eq!(pacer.on_idle(64 * SEC), IdleAction::Poll);
    assert_eq!(pacer.on_idle(65 * SEC), IdleAction::Stop);
    pacer.on_due(65 * SEC);
    assert_eq!(pacer.on_idle(66 * SEC), IdleAction::Poll);
}
