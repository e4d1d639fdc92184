use hls2dash::double::Double;
use hls2dash::mpegts::stitch::TsStitcher;
use hls2dash::mpegts::streamer::{
    channel_mpegts_ready, resolve_cursor, BufferWait, ChunkPlan, CursorJump, MpegTsStreamOpts,
    MpegTsStreamer, SegmentIndex, StreamError,
};

#[test]
fn cursor_holds_within_lag_window() {
    assert_eq!(
        resolve_cursor(Some(10), 16, 1, 4, 10),
        (10, CursorJump::Stay)
    );
    assert_eq!(resolve_cursor(None, 16, 1, 4, 10), (12, CursorJump::Stay));
}

#[test]
fn cursor_jumps_forward_to_safe_edge() {
    assert_eq!(
        resolve_cursor(Some(10), 40, 1, 4, 10),
        (36, CursorJump::Forward)
    );
}

#[test]
fn cursor_rewinds_after_sequence_reset() {
    assert_eq!(
        resolve_cursor(Some(501), 3, 1, 0, 10),
        (3, CursorJump::Rewind)
    );
}

#[test]
fn cursor_clamps_safe_edge_to_floor_when_holdback_exceeds_depth() {
    // live=4, holdback=6 → raw safe would be 0; clamp to floor=1
    assert_eq!(resolve_cursor(None, 4, 1, 6, 10), (1, CursorJump::Stay));
}

fn names(list: &[&str]) -> Vec<String> {
    list.iter().map(|s| s.to_string()).collect()
}

fn media(range: std::ops::RangeInclusive<u64>) -> Vec<String> {
    range.map(|n| format!("seg_{n}.ts")).collect()
}

fn opts(holdback: u64) -> MpegTsStreamOpts {
    MpegTsStreamOpts {
        holdback_segments: holdback,
        ..MpegTsStreamOpts::default()
    }
}

#[test]
fn default_options() {
    let o = MpegTsStreamOpts::default();
    assert_eq!(o.poll_interval_secs, 2);
    assert_eq!(o.holdback_segments, 6);
    assert_eq!(o.min_buffer_segments, 3);
    assert_eq!(o.max_segment_lag, 10);
    assert_eq!(o.send_queue, 32);
    assert!(o.pace_egress);
    assert_eq!(o.egress_chunk_ms, 250);
    assert_eq!(f64::from_bits(o.default_segment_duration_secs.bits), 2.0);
}

#[test]
fn zero_options_have_a_floor() {
    let s = MpegTsStreamer::new(&MpegTsStreamOpts {
        poll_interval_secs: 0,
        holdback_segments: 0,
        min_buffer_segments: 0,
        max_segment_lag: 0,
        send_queue: 0,
        pace_egress: false,
        egress_chunk_ms: 0,
        default_segment_duration_secs: Double { bits: 0 },
    });
    assert_eq!(s.poll_secs, 2);
    assert_eq!(s.holdback, 0);
    assert_eq!(s.min_buffer, 1);
    assert_eq!(s.max_lag, 1);
    assert_eq!(f64::from_bits(s.default_dur.bits), 2.0);
}

#[test]
fn cursor_below_the_floor_jumps_forward() {
    assert_eq!(
        resolve_cursor(Some(3), 12, 5, 4, 10),
        (8, CursorJump::Forward)
    );
    assert_eq!(
        resolve_cursor(Some(u64::MAX), u64::MAX, 0, 0, u64::MAX),
        (u64::MAX, CursorJump::Stay)
    );
    assert_eq!(resolve_cursor(Some(5), 5, 1, 0, 0), (5, CursorJump::Stay));
    assert_eq!(
        resolve_cursor(Some(7), 5, 1, 0, 0),
        (5, CursorJump::Rewind)
    );
}

#[test]
fn buffer_readiness_counts_media() {
    assert!(!channel_mpegts_ready(&names(&[]), 0));
    assert!(channel_mpegts_ready(&media(1..=1), 0));
    assert!(!channel_mpegts_ready(&media(1..=2), 3));
    assert!(channel_mpegts_ready(&media(1..=3), 3));
    // Durations and second files of one number do not count.
    assert!(!channel_mpegts_ready(
        &names(&["seg_1.ts", "seg_01.ts", "seg_2.dur", "seg_3.dur"]),
        2
    ));
}

#[test]
fn a_client_waits_for_the_buffer_for_a_minute() {
    let s = MpegTsStreamer::new(&opts(6));
    let two = SegmentIndex::scan(&media(1..=2));
    let three = SegmentIndex::scan(&media(1..=3));
    assert_eq!(s.wait_for_min_buffer(&two, 0), BufferWait::Poll);
    assert_eq!(
        s.wait_for_min_buffer(&two, 59_999_999_999),
        BufferWait::Poll
    );
    assert_eq!(
        s.wait_for_min_buffer(&two, 60_000_000_000),
        BufferWait::TimedOut
    );
    assert_eq!(
        s.wait_for_min_buffer(&three, 60_000_000_000),
        BufferWait::Ready
    );
}

#[test]
fn a_client_follows_the_numbering() {
    let mut s = MpegTsStreamer::new(&opts(2));
    let index = SegmentIndex::scan(&media(5..=9));
    match s.next_chunk(&index).unwrap() {
        ChunkPlan::Media { number, name } => {
            assert_eq!((number, name.as_str()), (7, "seg_7.ts"))
        }
        other => panic!("{other:?}"),
    }
    assert_eq!(s.gen_floor, Some(5));
    assert_eq!(s.accept_chunk(7, &[0x47; 188]), Ok(()));
    assert!(matches!(
        s.next_chunk(&index),
        Ok(ChunkPlan::Media { number: 8, .. })
    ));
    // A number that is not there yet is waited for.
    assert_eq!(s.accept_chunk(9, &[0x47; 376]), Ok(()));
    assert!(matches!(s.next_chunk(&index), Ok(ChunkPlan::Wait)));
    assert_eq!(s.next_number, Some(10));
    // An empty directory is waited for.
    let empty = SegmentIndex::scan(&names(&["index.mpd"]));
    assert!(matches!(s.next_chunk(&empty), Ok(ChunkPlan::Wait)));
}

#[test]
fn no_segment_is_sent_twice() {
    let mut s = MpegTsStreamer::new(&opts(2));
    let mut last = 0;
    // The directory grows, leaves the client behind, and loses its newest segments again.
    for range in [5..=9, 6..=10, 6..=11, 40..=45, 40..=44, 41..=46] {
        let index = SegmentIndex::scan(&media(range));
        while let Ok(ChunkPlan::Media { number, .. }) = s.next_chunk(&index) {
            assert!(number > last, "{number} after {last}");
            last = number;
            assert_eq!(s.accept_chunk(number, &[0x47; 188]), Ok(()));
        }
        assert!(s.next_number > Some(last));
    }
    assert_eq!(last, 46);
    // The last number has none after it.
    assert_eq!(s.accept_chunk(u64::MAX, &[0x47; 188]), Ok(()));
    assert_eq!(s.next_number, Some(u64::MAX));
}

#[test]
fn gaps_are_passed_over() {
    let mut s = MpegTsStreamer::new(&opts(0));
    s.next_number = Some(2);
    let index = SegmentIndex::scan(&names(&[
        "seg_1.ts", "seg_1.dur", "seg_2.dur", "seg_3.ts", "seg_3.dur",
    ]));
    assert!(matches!(
        s.next_chunk(&index),
        Ok(ChunkPlan::Gap { number: 2 })
    ));
    s.pass_gap(2);
    assert!(matches!(
        s.next_chunk(&index),
        Ok(ChunkPlan::Media { number: 3, .. })
    ));
}

#[test]
fn a_generation_change_ends_the_stream() {
    let mut s = MpegTsStreamer::new(&opts(0));
    s.next_chunk(&SegmentIndex::scan(&media(100..=105))).unwrap();
    let e = s.next_chunk(&SegmentIndex::scan(&media(1..=3))).unwrap_err();
    assert_eq!(e, StreamError::GenerationChanged);
    assert_eq!(e.message(), "ts cache generation changed; reconnect");
}

#[test]
fn a_cursor_far_ahead_ends_the_stream() {
    let mut s = MpegTsStreamer::new(&opts(0));
    s.next_number = Some(501);
    let e = s.next_chunk(&SegmentIndex::scan(&media(1..=3))).unwrap_err();
    assert_eq!(
        e,
        StreamError::GenerationReset {
            cursor: 501,
            live_edge: 3
        }
    );
    assert_eq!(
        e.message(),
        "upstream generation reset (cursor=501 live_edge=3)"
    );
    assert_eq!(s.next_number, Some(501));
}

#[test]
fn invalid_segments_are_refused() {
    let mut s = MpegTsStreamer::new(&opts(0));
    for bytes in [vec![], vec![0x47; 187], vec![0x46; 188]] {
        assert_eq!(
            s.accept_chunk(4, &bytes),
            Err(StreamError::InvalidSegment { number: 4 })
        );
        assert_eq!(s.next_number, None);
    }
    assert_eq!(
        StreamError::InvalidSegment { number: 4 }.message(),
        "invalid TS segment seg_4.ts"
    );
    assert_eq!(
        StreamError::BufferNotReady.message(),
        "mpegts buffer not ready (min_buffer timeout)"
    );
}

#[test]
fn what_is_stitched_is_sendable() {
    let mut stitcher = TsStitcher::resume(&names(&[]), 3, true);
    let mut raw = vec![0xff];
    raw.extend_from_slice(&[0x47; 188 * 2]);
    let segment = stitcher
        .push_segment(&raw, Double { bits: 0 })
        .unwrap();
    let mut s = MpegTsStreamer::new(&opts(0));
    assert_eq!(s.accept_chunk(segment.number, &segment.data), Ok(()));
}

#[test]
fn durations_fall_back_to_the_default() {
    let s = MpegTsStreamer::new(&opts(0));
    let d = |x: f64| Double { bits: x.to_bits() };
    assert_eq!(s.segment_duration(Some(d(3.5))), d(3.5));
    assert_eq!(s.segment_duration(Some(d(-1.0))), d(2.0));
    assert_eq!(s.segment_duration(Some(d(f64::INFINITY))), d(2.0));
    assert_eq!(s.segment_duration(None), d(2.0));
}
