use hls2dash::double::Double;
use hls2dash::mpegts::repair::TsError;
use hls2dash::mpegts::stitch::{
    align_ts_packets, dur_file_name, parse_dur_seg_number, parse_m4s_seg_number,
    parse_ts_seg_number, scan_next_ts_number, ts_file_name, wipe_ts_media, TsStitcher,
};

#[test]
fn align_finds_sync_and_truncates() {
    let mut raw = vec![0x00, 0x01];
    raw.extend_from_slice(&[0x47u8; 188]);
    raw.extend_from_slice(&[0x47u8; 188]);
    raw.push(0xff); // trailing junk
    let out = align_ts_packets(&raw).unwrap();
    assert_eq!(out.len(), 376);
    assert_eq!(out[0], 0x47);
}

fn names(list: &[&str]) -> Vec<String> {
    list.iter().map(|s| s.to_string()).collect()
}

fn packet(control: u8) -> Vec<u8> {
    let mut p = vec![0u8; 188];
    p[0] = 0x47;
    p[1] = 0x01;
    p[3] = control;
    p
}

fn secs(x: f64) -> Double {
    Double { bits: x.to_bits() }
}

#[test]
fn file_names_of_segments() {
    assert_eq!(ts_file_name(12), "seg_12.ts");
    assert_eq!(dur_file_name(12), "seg_12.dur");
    for n in [0, 1, 10, u64::MAX] {
        assert_eq!(parse_ts_seg_number(&ts_file_name(n)), Some(n));
        assert_eq!(parse_dur_seg_number(&dur_file_name(n)), Some(n));
    }
    assert_eq!(parse_ts_seg_number("seg_12.dur"), None);
    assert_eq!(parse_ts_seg_number("seg_.ts"), None);
    assert_eq!(parse_ts_seg_number("seg_x.ts"), None);
    assert_eq!(parse_ts_seg_number("init.mp4"), None);
    assert_eq!(parse_m4s_seg_number("seg_7.m4s"), Some(7));
}

#[test]
fn numbering_goes_on_above_what_is_there() {
    assert_eq!(scan_next_ts_number(&names(&[])), 1);
    assert_eq!(
        scan_next_ts_number(&names(&["seg_3.ts", "seg_11.ts", "seg_99.dur", "x"])),
        12
    );
    assert_eq!(
        scan_next_ts_number(&vec![ts_file_name(u64::MAX)]),
        u64::MAX
    );
}

#[test]
fn stale_media_is_wiped() {
    let all = names(&[
        "seg_1.ts", "seg_1.dur", "seg_2.tmp", "seg_3.m4s", "init.mp4", "index.mpd", "notes.txt",
        "segment.ts", "seg_4.mp4",
    ]);
    assert_eq!(
        wipe_ts_media(&all),
        names(&["seg_1.ts", "seg_1.dur", "seg_2.tmp", "seg_3.m4s", "init.mp4", "index.mpd"])
    );
}

#[test]
fn segments_are_stitched_and_numbered() {
    let mut stitcher = TsStitcher::resume(&names(&["seg_4.ts"]), 3, true);
    let a = stitcher.push_segment(&packet(0x1c), secs(2.5)).unwrap();
    assert_eq!((a.number, a.duration_secs), (5, secs(2.5)));
    assert_eq!(a.data[3], 0x10);
    assert!(stitcher.commit_segment(None).is_empty());
    let b = stitcher.push_segment(&packet(0x1c), secs(f64::NAN)).unwrap();
    assert_eq!((b.number, b.duration_secs), (6, secs(2.0)));
    assert_eq!(b.data[3], 0x11);
    stitcher.commit_segment(None);
    // A segment without packets changes nothing.
    assert_eq!(
        stitcher.push_segment(&[1, 2, 3], secs(2.0)).unwrap_err(),
        TsError::NoSyncByte
    );
    let gap = stitcher.skip_segment(secs(0.5));
    assert_eq!((gap.number, gap.duration_secs), (7, secs(0.5)));
    stitcher.commit_segment(None);
    // A new generation counts from zero and goes on with the numbers.
    stitcher.prepare_for_reconnect();
    let c = stitcher.push_segment(&packet(0x1c), secs(2.0)).unwrap();
    assert_eq!(c.number, 8);
    assert_eq!(c.data[3], 0x10);
}

#[test]
fn resync_is_a_choice() {
    let raw = [packet(0x10), vec![0xff; 188], packet(0x10)].concat();
    let mut repairing = TsStitcher::resume(&names(&[]), 3, true);
    let mut truncating = TsStitcher::resume(&names(&[]), 3, false);
    assert_eq!(
        repairing.push_segment(&raw, secs(2.0)).unwrap().data.len(),
        376
    );
    assert_eq!(
        truncating.push_segment(&raw, secs(2.0)).unwrap().data.len(),
        188
    );
}

#[test]
fn the_window_slides() {
    let mut stitcher = TsStitcher::resume(&names(&[]), 0, true);
    let mut pruned = Vec::new();
    for _ in 0..6 {
        pruned.push(stitcher.commit_segment(None));
    }
    // A window of one keeps three segments.
    assert_eq!(
        pruned,
        vec![vec![], vec![], vec![], vec![1], vec![2], vec![3]]
    );
}

#[test]
fn a_commit_can_be_taken_back() {
    let mut stitcher = TsStitcher::resume(&names(&[]), 1, true);
    for _ in 0..3 {
        stitcher.commit_segment(None);
    }
    assert_eq!(stitcher.commit_segment(None), vec![1]);
    stitcher.take_back();
    assert_eq!(stitcher.skip_segment(secs(1.0)).number, 4);
    // Once.
    stitcher.take_back();
    assert_eq!(stitcher.skip_segment(secs(1.0)).number, 4);
    assert_eq!(stitcher.commit_segment(None), vec![1]);
    // Not across generations.
    stitcher.prepare_for_reconnect();
    stitcher.take_back();
    assert_eq!(stitcher.skip_segment(secs(1.0)).number, 5);
}

#[test]
fn protected_segments_are_not_pruned() {
    let mut stitcher = TsStitcher::resume(&names(&[]), 1, true);
    for _ in 0..6 {
        let pruned = stitcher.commit_segment(Some(2));
        assert!(pruned.iter().all(|&n| n < 2));
    }
    // Once nothing is protected the window catches up.
    assert_eq!(stitcher.commit_segment(None), vec![2, 3, 4]);
}
