use hls2dash::mpegts::stream::{EgressAction, EgressStream};
use hls2dash::mpegts::streamer::{MpegTsStreamOpts, SegmentIndex, StreamError};

const SEC: u64 = 1_000_000_000;

fn index(names: &[&str]) -> SegmentIndex {
    let list: Vec<String> = names.iter().map(|s| s.to_string()).collect();
    SegmentIndex::scan(&list)
}

fn opts(pace: bool) -> MpegTsStreamOpts {
    MpegTsStreamOpts {
        holdback_segments: 1,
        min_buffer_segments: 2,
        pace_egress: pace,
        egress_chunk_ms: 1000,
        ..MpegTsStreamOpts::default()
    }
}

#[test]
fn a_stream_waits_for_its_buffer() {
    let mut s = EgressStream::start(&opts(true), 0);
    assert!(matches!(
        s.on_scan(&index(&["seg_1.ts"]), SEC),
        EgressAction::SleepThenScan(2)
    ));
    assert!(matches!(
        s.on_scan(&index(&["seg_1.ts"]), 60 * SEC),
        EgressAction::Fail(StreamError::BufferNotReady)
    ));
    assert!(matches!(
        s.on_scan(&index(&["seg_1.ts", "seg_2.ts"]), 61 * SEC),
        EgressAction::Scan
    ));
}

fn filled(pace: bool) -> EgressStream {
    let mut s = EgressStream::start(&opts(pace), 0);
    assert!(matches!(
        s.on_scan(&index(&["seg_1.ts", "seg_2.ts"]), 0),
        EgressAction::Scan
    ));
    s
}

#[test]
fn a_paced_segment_leaves_in_slices() {
    let mut s = filled(true);
    let dir = index(&["seg_1.ts", "seg_2.ts"]);
    match s.on_scan(&dir, 0) {
        EgressAction::ReadSegment { number, name } => {
            assert_eq!((number, name.as_str()), (1, "seg_1.ts"))
        }
        other => panic!("{other:?}"),
    }
    let data: Vec<u8> = [[0x47u8; 188], [0x47; 188], [0x47; 188], [0x47; 188]].concat();
    let first = match s.on_segment(1, data.clone(), 2 * SEC, 0) {
        EgressAction::Send(bytes) => bytes,
        other => panic!("{other:?}"),
    };
    assert_eq!(first.len(), 376);
    // The second slice is due one interval later.
    match s.on_sent(10) {
        EgressAction::WaitUntil(t) => assert_eq!(t, SEC + 10),
        other => panic!("{other:?}"),
    }
    let second = match s.on_due(SEC + 10) {
        EgressAction::Send(bytes) => bytes,
        other => panic!("{other:?}"),
    };
    assert_eq!([first, second].concat(), data);
    assert!(matches!(s.on_sent(SEC + 20), EgressAction::Scan));
    // The next segment waits for the last slice's interval.
    assert!(matches!(
        s.on_scan(&dir, SEC + 30),
        EgressAction::ReadSegment { number: 2, .. }
    ));
    match s.on_segment(2, data, 2 * SEC, SEC + 30) {
        EgressAction::WaitUntil(t) => assert_eq!(t, 2 * SEC + 20),
        other => panic!("{other:?}"),
    }
}

#[test]
fn an_unpaced_segment_leaves_at_once() {
    let mut s = filled(false);
    s.on_scan(&index(&["seg_1.ts", "seg_2.ts"]), 0);
    match s.on_segment(1, vec![0x47; 188 * 10], 10 * SEC, 0) {
        EgressAction::Send(bytes) => assert_eq!(bytes.len(), 1880),
        other => panic!("{other:?}"),
    }
    assert!(matches!(s.on_sent(1), EgressAction::Scan));
}

#[test]
fn a_gap_only_pauses_the_stream() {
    let mut s = filled(true);
    let dir = index(&["seg_1.dur", "seg_2.ts"]);
    assert!(matches!(
        s.on_scan(&dir, 0),
        EgressAction::ReadGap { number: 1 }
    ));
    assert!(matches!(s.on_gap(1, 3 * SEC, 5), EgressAction::Scan));
    assert!(matches!(
        s.on_scan(&dir, 6),
        EgressAction::ReadSegment { number: 2, .. }
    ));
    match s.on_segment(2, vec![0x47; 188], SEC, 6) {
        EgressAction::WaitUntil(t) => assert_eq!(t, 3 * SEC + 5),
        other => panic!("{other:?}"),
    }
}

#[test]
fn an_idle_stream_ends() {
    let mut s = filled(true);
    let empty = index(&[]);
    assert!(matches!(
        s.on_scan(&empty, 59 * SEC),
        EgressAction::SleepThenScan(2)
    ));
    assert!(matches!(s.on_scan(&empty, 60 * SEC), EgressAction::End));
}

#[test]
fn a_broken_segment_ends_the_stream() {
    let mut s = filled(true);
    s.on_scan(&index(&["seg_1.ts", "seg_2.ts"]), 0);
    assert!(matches!(
        s.on_segment(1, vec![1, 2, 3], SEC, 0),
        EgressAction::Fail(StreamError::InvalidSegment { number: 1 })
    ));
}

#[test]
fn a_wiped_generation_ends_the_stream() {
    let mut s = filled(true);
    s.on_scan(&index(&["seg_50.ts", "seg_51.ts"]), 0);
    assert!(matches!(
        s.on_scan(&index(&["seg_1.ts"]), 1),
        EgressAction::Fail(StreamError::GenerationChanged)
    ));
}
