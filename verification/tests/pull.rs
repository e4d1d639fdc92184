use hls2dash::config::{CacheConfig, MpegTsConfig, OutputMode, RecoveryConfig};
use hls2dash::double::Double;
use hls2dash::hls::playlist::{parse_media_playlist, MediaPlaylist};
use hls2dash::hls::pull::{
    FailureAction, PollAction, PullSession, PullWorker, SegmentIngestDecision, SegmentPlan,
    WorkerAction,
};
use hls2dash::hls::pull_mpegts::{CacheOp, MpegTsPull, SegmentEnd, SegmentStart};
use hls2dash::mpegts::repair::TsError;

fn playlist(first: u64, count: u64, end: bool) -> MediaPlaylist {
    let mut body = format!("#EXTM3U\n#EXT-X-MEDIA-SEQUENCE:{first}\n");
    for n in first..first + count {
        body.push_str(&format!("#EXTINF:2.0,\nseg{n}.ts\n"));
    }
    if end {
        body.push_str("#EXT-X-ENDLIST\n");
    }
    parse_media_playlist(&body)
}

fn fetch(restart: bool, gap: bool, discontinuity: bool) -> SegmentPlan {
    SegmentPlan::Fetch {
        restart,
        gap,
        discontinuity,
    }
}

#[test]
fn a_session_joins_near_the_end_of_the_first_playlist() {
    let mut s = PullSession::new(3, true);
    let pl = playlist(10, 6, false);
    s.begin_playlist(&pl);
    let plans: Vec<SegmentPlan> = pl
        .segments
        .iter()
        .map(|seg| {
            let plan = s.plan_segment("ch", seg.seq, seg.discontinuity);
            if plan != SegmentPlan::Skip {
                s.segment_done(seg.seq);
            }
            plan
        })
        .collect();
    assert_eq!(
        plans,
        vec![
            SegmentPlan::Skip,
            SegmentPlan::Skip,
            SegmentPlan::Skip,
            fetch(false, false, false),
            fetch(false, false, false),
            fetch(false, false, false),
        ]
    );
    // The next poll brings one new segment, and the others are not fetched again.
    let pl = playlist(11, 6, false);
    s.begin_playlist(&pl);
    let plans: Vec<SegmentPlan> = pl
        .segments
        .iter()
        .map(|seg| s.plan_segment("ch", seg.seq, false))
        .collect();
    assert_eq!(plans[..5], [SegmentPlan::Skip; 5]);
    assert_eq!(plans[5], fetch(false, false, false));
}

#[test]
fn a_short_first_playlist_is_taken_whole() {
    let mut s = PullSession::new(3, true);
    s.begin_playlist(&playlist(10, 2, false));
    assert_eq!(s.plan_segment("ch", 10, false), fetch(false, false, false));
}

#[test]
fn gaps_rewinds_and_restarts() {
    let mut s = PullSession::new(3, true);
    assert_eq!(s.plan_segment("ch", 100, false), fetch(false, false, false));
    s.segment_done(100);
    assert_eq!(s.plan_segment("ch", 104, false), fetch(false, true, false));
    s.segment_done(104);
    // A little back: a rewind, passed over once and for all.
    assert_eq!(s.plan_segment("ch", 102, false), SegmentPlan::Skip);
    assert_eq!(s.plan_segment("ch", 102, false), SegmentPlan::Skip);
    // Far back: the numbering started over.
    assert_eq!(s.plan_segment("ch", 5, true), fetch(true, false, true));
    s.segment_done(5);
    // What came before the restart is forgotten.
    assert_eq!(s.plan_segment("ch", 100, false), fetch(false, true, false));
}

#[test]
fn replays_are_skipped_and_rewrites_reset() {
    let mut s = PullSession::new(3, true);
    assert_eq!(
        s.check_content_dedup("ch", 1, b"a"),
        SegmentIngestDecision::Ingest
    );
    assert_eq!(
        s.check_content_dedup("ch", 1, b"a"),
        SegmentIngestDecision::Skip
    );
    assert_eq!(
        s.check_content_dedup("ch", 2, b"a"),
        SegmentIngestDecision::Skip
    );
    assert_eq!(
        s.check_content_dedup("ch", 1, b"b"),
        SegmentIngestDecision::ResetAndIngest
    );
    // Once it is recorded, the rewrite is remembered; what was there before is not.
    s.record_content("ch", 1, b"b");
    assert_eq!(
        s.check_content_dedup("ch", 1, b"b"),
        SegmentIngestDecision::Skip
    );
    assert_eq!(
        s.check_content_dedup("ch", 2, b"a"),
        SegmentIngestDecision::Ingest
    );
}

#[test]
fn failures_leave_a_gap_or_abort() {
    let mut lenient = PullSession::new(3, true);
    lenient.plan_segment("ch", 7, false);
    assert_eq!(lenient.segment_failed(7), FailureAction::Gap);
    assert_eq!(
        lenient.plan_segment("ch", 8, false),
        fetch(false, false, false)
    );
    let mut strict = PullSession::new(3, false);
    assert_eq!(strict.segment_failed(7), FailureAction::Abort);
}

#[test]
fn old_numbers_are_forgotten_only_below_the_playlist() {
    let mut s = PullSession::new(3, true);
    for n in 0..600u64 {
        s.plan_segment("ch", n, false);
        s.segment_done(n);
    }
    assert_eq!(s.end_playlist(&playlist(590, 6, false)), PollAction::PollAgain);
    // Far below: forgotten, and so a restart.
    assert_eq!(s.plan_segment("ch", 590, false), SegmentPlan::Skip);
    assert_eq!(s.plan_segment("ch", 526, false), SegmentPlan::Skip);
    assert_eq!(s.plan_segment("ch", 100, false), fetch(true, false, false));
    assert_eq!(s.end_playlist(&playlist(1, 1, true)), PollAction::Finish);
}

#[test]
fn a_worker_retries_until_it_is_cancelled() {
    let w = PullWorker::new(0, OutputMode::Mpegts);
    assert_eq!(
        w.before_session(false),
        WorkerAction::RunSession(OutputMode::Mpegts)
    );
    assert_eq!(w.before_session(true), WorkerAction::Exit);
    let (next, kept) = w.after_session(false, Some("boom".to_string()), None);
    assert_eq!((next, kept.as_deref()), (WorkerAction::Sleep(1), Some("boom")));
    let (next, kept) = w.after_session(true, None, Some("old".to_string()));
    assert_eq!((next, kept.as_deref()), (WorkerAction::Exit, Some("old")));
    assert_eq!(
        PullWorker::new(7, OutputMode::Dash).after_session(false, None, None).0,
        WorkerAction::Sleep(7)
    );
}

fn secs(x: f64) -> Double {
    Double { bits: x.to_bits() }
}

fn mpegts_session(skip_missing: bool, window: usize) -> MpegTsPull {
    let cache = CacheConfig {
        dir: "./cache".to_string(),
        segment_duration_secs: secs(2.0),
        window_segments: window,
        ttl_secs: None,
        cleanup_interval_secs: 10,
    };
    let recovery = RecoveryConfig {
        skip_missing_segments: skip_missing,
        ..RecoveryConfig::default()
    };
    MpegTsPull::start(
        &vec!["seg_9.ts".to_string()],
        &cache,
        &MpegTsConfig::default(),
        &recovery,
    )
}

fn packet(filler: u8) -> Vec<u8> {
    let mut p = vec![filler; 188];
    p[0] = 0x47;
    p[1] = 0x01;
    p[2] = 0x00;
    p[3] = 0x1b;
    p
}

fn changes(ops: &[CacheOp]) -> Vec<String> {
    ops.iter()
        .map(|op| match op {
            CacheOp::Wipe => "wipe".to_string(),
            CacheOp::WriteSegment(s) => format!(
                "seg {} cc{} {}",
                s.number,
                s.data[3] & 0x0f,
                f64::from_bits(s.duration_secs.bits)
            ),
            CacheOp::WriteGap(g) => {
                format!("gap {} {}", g.number, f64::from_bits(g.duration_secs.bits))
            }
            CacheOp::Delete(n) => format!("del {n}"),
        })
        .collect()
}

fn begin(p: &mut MpegTsPull, seq: u64, discontinuity: bool) -> Vec<String> {
    match p.begin_segment("ch", seq, discontinuity, secs(2.0), None) {
        SegmentStart::Fetch(ops) => changes(&ops),
        SegmentStart::Skip => vec!["skip".to_string()],
    }
}

fn fetched(p: &mut MpegTsPull, seq: u64, bytes: &[u8]) -> Vec<String> {
    match p.segment_fetched("ch", seq, bytes, secs(2.0), None) {
        SegmentEnd::Ingested(ops) => changes(&ops),
        SegmentEnd::Replaced(_, ops) => changes(&ops),
        SegmentEnd::Skip => vec!["skip".to_string()],
        SegmentEnd::Failed(e) => vec![e.message().to_string()],
    }
}

#[test]
fn an_mpegts_session_fills_the_directory() {
    let mut p = mpegts_session(true, 1);
    // Nine segments are taken from the first playlist.
    let pl = playlist(100, 20, false);
    p.begin_playlist(&pl);
    assert_eq!(begin(&mut p, 110, false), vec!["skip"]);
    assert!(begin(&mut p, 111, false).is_empty());
    assert_eq!(fetched(&mut p, 111, &packet(1)), vec!["seg 10 cc0 2"]);
    assert!(begin(&mut p, 112, false).is_empty());
    assert_eq!(fetched(&mut p, 112, &packet(2)), vec!["seg 11 cc1 2"]);
    // Segments are missing before this one.
    assert_eq!(begin(&mut p, 115, false), vec!["gap 12 2"]);
    assert_eq!(
        fetched(&mut p, 115, &packet(3)),
        vec!["seg 13 cc2 2", "del 10"]
    );
    // A discontinuity starts a new generation.
    assert_eq!(begin(&mut p, 116, true), vec!["wipe"]);
    assert_eq!(fetched(&mut p, 116, &packet(4)), vec!["seg 14 cc0 2"]);
    // A segment that cannot be had.
    assert!(begin(&mut p, 117, false).is_empty());
    let gap = p.segment_failed(117, secs(0.0), None).unwrap();
    assert_eq!(changes(&gap), vec!["gap 15 0.1"]);
    // One that holds no packets, and one that is a replay.
    assert!(begin(&mut p, 118, false).is_empty());
    assert_eq!(fetched(&mut p, 118, &[0; 10]), vec!["gap 16 2"]);
    assert!(begin(&mut p, 119, false).is_empty());
    assert_eq!(fetched(&mut p, 119, &packet(4)), vec!["skip"]);
    assert_eq!(p.end_playlist(&pl), PollAction::PollAgain);
    // The numbering started over.
    assert_eq!(begin(&mut p, 1, false), vec!["wipe"]);
    assert_eq!(fetched(&mut p, 1, &packet(4)), vec!["seg 17 cc0 2"]);
    // The same number with other bytes.
    assert_eq!(
        fetched(&mut p, 1, &packet(5)),
        vec!["wipe", "seg 18 cc0 2"]
    );
    assert_eq!(p.end_playlist(&playlist(1, 1, true)), PollAction::Finish);
}

#[test]
fn a_strict_mpegts_session_aborts() {
    let mut p = mpegts_session(false, 90);
    assert!(p.segment_failed(1, secs(2.0), None).is_none());
    assert!(matches!(
        p.segment_fetched("ch", 1, &[1, 2, 3], secs(2.0), None),
        SegmentEnd::Failed(TsError::NoSyncByte)
    ));
}

#[test]
fn an_unwritten_segment_uses_no_number() {
    let mut p = mpegts_session(true, 1);
    for (seq, want) in [(1, "seg 10 cc0 2"), (2, "seg 11 cc1 2"), (3, "seg 12 cc2 2")] {
        assert!(begin(&mut p, seq, false).is_empty());
        assert_eq!(fetched(&mut p, seq, &packet(seq as u8)), vec![want]);
    }
    assert!(begin(&mut p, 4, false).is_empty());
    assert_eq!(
        fetched(&mut p, 4, &packet(4)),
        vec!["seg 13 cc3 2", "del 10"]
    );
    // It could not be written: the gap gets its number, and makes the same room.
    let gap = p.segment_unwritten(4, secs(0.0), None).unwrap();
    assert_eq!(changes(&gap), vec!["gap 13 0.1", "del 10"]);
    // The session goes on behind it; the counters stay rewritten.
    assert_eq!(begin(&mut p, 4, false), vec!["skip"]);
    assert!(begin(&mut p, 5, false).is_empty());
    assert_eq!(
        fetched(&mut p, 5, &packet(5)),
        vec!["seg 14 cc4 2", "del 11"]
    );
    // A new generation was wiped already.
    assert_eq!(begin(&mut p, 6, true), vec!["wipe"]);
    assert_eq!(fetched(&mut p, 6, &packet(6)), vec!["seg 15 cc0 2"]);
    let gap = p.segment_unwritten(6, secs(2.0), None).unwrap();
    assert_eq!(changes(&gap), vec!["gap 15 2"]);
    // A strict session ends.
    let mut strict = mpegts_session(false, 1);
    assert!(begin(&mut strict, 1, false).is_empty());
    assert_eq!(fetched(&mut strict, 1, &packet(1)), vec!["seg 10 cc0 2"]);
    assert!(strict.segment_unwritten(1, secs(2.0), None).is_none());
}

#[test]
fn a_rewrite_forgets_the_recent_segments() {
    let mut s = PullSession::new(3, true);
    s.check_content_dedup("ch", 1, b"a");
    s.check_content_dedup("ch", 2, b"b");
    assert_eq!(
        s.check_content_dedup("ch", 1, b"c"),
        SegmentIngestDecision::ResetAndIngest
    );
    // Nothing is remembered until the rewrite is recorded.
    assert_eq!(
        s.check_content_dedup("ch", 1, b"c"),
        SegmentIngestDecision::Ingest
    );
    assert_eq!(
        s.check_content_dedup("ch", 2, b"b"),
        SegmentIngestDecision::Ingest
    );
}
