use hls2dash::config::RecoveryConfig;
use hls2dash::demux::screen::DemuxError;
use hls2dash::demux::sps::{check_hevc_sps, check_sps};
use hls2dash::demux::ts::{
    rescale_i32, rescale_sample, rescale_u32, TrackCodec, TsDemuxBridge, TsEvent,
};
use hls2dash::demux::types::{AccessUnit, MediaSample};
use hls2dash::hls::playlist::parse_media_playlist;
use hls2dash::hls::pull::PollAction;
use hls2dash::hls::pull_dash::{DashEnd, DashPull, DashStart, PackagerOp};
use hls2dash::mpegts::repair::TsError;

const VIDEO_PID: u16 = 0x100;
const AUDIO_PID: u16 = 0x101;
const PMT_PID: u16 = 0x1000;

fn crc32(data: &[u8]) -> [u8; 4] {
    let mut crc = 0xffff_ffffu32;
    for b in data {
        crc ^= (*b as u32) << 24;
        for _ in 0..8 {
            crc = if crc & 0x8000_0000 != 0 {
                (crc << 1) ^ 0x04c1_1db7
            } else {
                crc << 1
            };
        }
    }
    crc.to_be_bytes()
}

/// The packets that carry a payload; `start` marks the first. Short ones are stuffed.
fn packets(pid: u16, start: bool, payload: &[u8], cc: &mut u8) -> Vec<u8> {
    let mut out = Vec::new();
    let mut rest = payload;
    let mut first = true;
    while !rest.is_empty() {
        let n = rest.len().min(184);
        let pad = 184 - n;
        let mut p = vec![
            0x47,
            ((start && first) as u8) << 6 | (pid >> 8) as u8,
            pid as u8,
            if pad > 0 { 0x30 } else { 0x10 } | (*cc & 0x0f),
        ];
        if pad > 0 {
            p.push((pad - 1) as u8);
            if pad > 1 {
                p.push(0x00);
                p.extend(std::iter::repeat(0xff).take(pad - 2));
            }
        }
        p.extend_from_slice(&rest[..n]);
        assert_eq!(p.len(), 188);
        out.extend_from_slice(&p);
        rest = &rest[n..];
        first = false;
        *cc = cc.wrapping_add(1);
    }
    out
}

fn section(table: &[u8]) -> Vec<u8> {
    let mut s = table.to_vec();
    s.extend_from_slice(&crc32(table));
    let mut out = vec![0];
    out.extend_from_slice(&s);
    out
}

fn tables(streams: &[(u8, u16)]) -> Vec<u8> {
    let pat = [
        0x00, 0xb0, 13, 0, 1, 0xc1, 0, 0, 0, 1, 0xe0 | (PMT_PID >> 8) as u8, PMT_PID as u8,
    ];
    let mut pmt = vec![
        0x02, 0xb0, (13 + 5 * streams.len()) as u8, 0, 1, 0xc1, 0, 0, 0xe1, 0x00, 0xf0, 0,
    ];
    for (kind, pid) in streams {
        pmt.extend_from_slice(&[*kind, 0xe0 | (pid >> 8) as u8, *pid as u8, 0xf0, 0]);
    }
    let mut out = packets(0, true, &section(&pat), &mut 0);
    out.extend(packets(PMT_PID, true, &section(&pmt), &mut 0));
    out
}

fn pes(stream_id: u8, pts: u64, data: &[u8]) -> Vec<u8> {
    let mut p = vec![0, 0, 1, stream_id, 0, 0, 0x80, 0x80, 5];
    p.extend_from_slice(&[
        0x21 | ((pts >> 29) & 0x0e) as u8,
        (pts >> 22) as u8,
        ((pts >> 14) & 0xfe) as u8 | 1,
        (pts >> 7) as u8,
        ((pts << 1) & 0xfe) as u8 | 1,
    ]);
    p.extend_from_slice(data);
    if stream_id == 0xc0 {
        let len = (p.len() - 6) as u16;
        p[4] = (len >> 8) as u8;
        p[5] = len as u8;
    }
    p
}

/// A baseline picture of 320 by 240, with its parameter sets.
fn picture() -> Vec<u8> {
    let nals: [&[u8]; 4] = [
        &[0x09, 0xf0],
        &[0x67, 0x42, 0x00, 0x1e, 0xda, 0x05, 0x07, 0xe4],
        &[0x68, 0xce, 0x3c, 0x80],
        &[0x65, 0x88, 0x84, 0x21, 0xa0],
    ];
    let mut out = Vec::new();
    for nal in nals {
        out.extend_from_slice(&[0, 0, 0, 1]);
        out.extend_from_slice(nal);
    }
    out
}

/// One AAC frame in ADTS: low complexity, 48 kHz, two channels.
fn frame() -> Vec<u8> {
    let body = [0x21u8, 0x10, 0x04, 0x60, 0x8c, 0x1c];
    let len = 7 + body.len();
    let mut f = vec![
        0xff,
        0xf1,
        0x4c,
        0x80 | (len >> 11) as u8,
        (len >> 3) as u8,
        ((len & 7) << 5) as u8 | 0x1f,
        0xfc,
    ];
    f.extend_from_slice(&body);
    f
}

/// Three pictures 40 ms apart, and two audio frames.
fn stream() -> Vec<u8> {
    let mut out = tables(&[(0x1b, VIDEO_PID), (0x0f, AUDIO_PID)]);
    let (mut vcc, mut acc) = (0, 0);
    for n in 0..3u64 {
        let p = pes(0xe0, 90_000 + n * 3600, &picture());
        out.extend(packets(VIDEO_PID, true, &p, &mut vcc));
        if n < 2 {
            let a = pes(0xc0, 90_000 + n * 1920, &frame());
            out.extend(packets(AUDIO_PID, true, &a, &mut acc));
        }
    }
    out
}

fn kinds(units: &[AccessUnit]) -> Vec<String> {
    units
        .iter()
        .map(|u| match u {
            AccessUnit::VideoConfig { .. } => "video config".to_string(),
            AccessUnit::AudioConfig { .. } => "audio config".to_string(),
            AccessUnit::VideoSample(s) => format!("video {}", s.duration),
            AccessUnit::AudioSample(s) => format!("audio {}", s.duration),
        })
        .collect()
}

#[test]
fn video_and_audio_come_through_in_milliseconds() {
    let mut bridge = TsDemuxBridge::new();
    let mut units = bridge.feed(&stream()).unwrap();
    units.extend(bridge.finish_segment().unwrap());
    let kinds = kinds(&units);
    let count = |what: &str| kinds.iter().filter(|k| k.as_str() == what).count();
    assert_eq!(count("video config"), 1, "{kinds:?}");
    assert_eq!(count("audio config"), 1, "{kinds:?}");
    assert_eq!(count("video 40"), 3, "{kinds:?}");
    assert_eq!(count("audio 21"), 2, "{kinds:?}");
    assert!(!bridge.take_discontinuity());
    for unit in &units {
        match unit {
            AccessUnit::VideoConfig { config } => {
                assert!(matches!(
                    config,
                    transmux::CodecConfig::Avc { width: 320, height: 240, .. }
                ))
            }
            AccessUnit::AudioConfig { config } => {
                assert!(matches!(
                    config,
                    transmux::CodecConfig::Aac { sample_rate: 48_000, .. }
                ))
            }
            AccessUnit::VideoSample(s) => {
                assert_eq!(s.coded.duration, 3600);
                assert!(s.coded.is_sync);
            }
            AccessUnit::AudioSample(s) => assert_eq!(s.coded.duration, 1024),
        }
    }
}

#[test]
fn feeding_in_pieces_gives_the_same_units() {
    let data = stream();
    let mut whole = TsDemuxBridge::new();
    let mut at_once = whole.feed(&data).unwrap();
    at_once.extend(whole.finish_segment().unwrap());
    let mut bridge = TsDemuxBridge::new();
    let mut pieces = Vec::new();
    for chunk in data.chunks(100) {
        pieces.extend(bridge.feed(chunk).unwrap());
    }
    pieces.extend(bridge.finish_segment().unwrap());
    assert_eq!(kinds(&pieces), kinds(&at_once));
}

#[test]
fn a_discontinuity_is_reported_once() {
    let mut p = vec![0x47, 0x01, 0x00, 0x20, 183, 0x80];
    p.extend(std::iter::repeat(0xff).take(182));
    assert_eq!(p.len(), 188);
    let mut bridge = TsDemuxBridge::new();
    // Several packets, so that the demultiplexer finds its sync.
    let five: Vec<u8> = (0..5).flat_map(|_| p.clone()).collect();
    assert!(bridge.feed(&five).unwrap().is_empty());
    assert!(bridge.take_discontinuity());
    assert!(!bridge.take_discontinuity());
}

fn sample(duration: u32, offset: i32) -> MediaSample {
    MediaSample {
        duration,
        composition_offset: offset,
        coded: transmux::Sample::new(vec![1, 2], duration, true, offset),
    }
}

fn avc() -> transmux::CodecConfig {
    let mut bridge = TsDemuxBridge::new();
    let mut units = bridge.feed(&stream()).unwrap();
    units.extend(bridge.finish_segment().unwrap());
    for unit in units {
        if let AccessUnit::VideoConfig { config } = unit {
            return config;
        }
    }
    panic!("no video")
}

#[test]
fn events_are_handled_by_track() {
    let mut bridge = TsDemuxBridge::new();
    let mut out = Vec::new();
    // Before its track is known a sample gives nothing.
    bridge.handle_event(
        TsEvent::Sample { track_id: 1, sample: sample(3600, 0) },
        &mut out,
    );
    assert!(out.is_empty());
    bridge.handle_event(
        TsEvent::TrackAdded { track_id: 1, codec: TrackCodec::Avc, config: avc() },
        &mut out,
    );
    bridge.handle_event(
        TsEvent::TrackAdded {
            track_id: 2,
            codec: TrackCodec::Aac { sample_rate: 0 },
            config: avc(),
        },
        &mut out,
    );
    bridge.handle_event(
        TsEvent::TrackAdded { track_id: 3, codec: TrackCodec::Other, config: avc() },
        &mut out,
    );
    bridge.handle_event(TsEvent::Sample { track_id: 1, sample: sample(45, 0) }, &mut out);
    bridge.handle_event(TsEvent::Sample { track_id: 2, sample: sample(3, 0) }, &mut out);
    bridge.handle_event(TsEvent::Sample { track_id: 3, sample: sample(9, 0) }, &mut out);
    bridge.handle_event(TsEvent::Other, &mut out);
    assert_eq!(
        kinds(&out),
        vec!["video config", "audio config", "video 1", "audio 3000"]
    );
    bridge.handle_event(TsEvent::Discontinuity, &mut out);
    assert!(bridge.take_discontinuity());
}

#[test]
fn ticks_are_rescaled() {
    assert_eq!(rescale_u32(3600, 90_000, 1000), 40);
    assert_eq!(rescale_u32(1024, 48_000, 1000), 21);
    assert_eq!(rescale_u32(7, 0, 1000), 7000);
    // Beyond thirty-two bits the count wraps.
    assert_eq!(
        rescale_u32(u32::MAX, 1, 1000),
        ((u32::MAX as u64) * 1000) as u32
    );
    for ticks in [0, 1, -1, 3599, -3599, 7200, -7200, i32::MIN, i32::MAX] {
        for from in [0u32, 1, 3, 1000, 48_000, 90_000, u32::MAX] {
            let expected = (ticks as i64 * 1000 / (from.max(1) as i64)) as i32;
            assert_eq!(rescale_i32(ticks, from, 1000), expected, "{ticks} {from}");
        }
    }
}

#[test]
fn samples_are_rescaled() {
    let s = rescale_sample(sample(3600, -7200), 90_000, 1000);
    assert_eq!((s.duration, s.composition_offset), (40, -80));
    assert_eq!(s.coded.data, vec![1, 2]);
    // At least one tick.
    assert_eq!(rescale_sample(sample(1, 0), 90_000, 1000).duration, 1);
    // The same timescale, or none: as it is.
    assert_eq!(rescale_sample(sample(0, 5), 1000, 1000).duration, 0);
    assert_eq!(rescale_sample(sample(7, 5), 0, 1000).duration, 7);
    // The same time from two timescales.
    assert_eq!(
        rescale_sample(sample(9000, 0), 90_000, 1000).duration,
        rescale_sample(sample(4800, 0), 48_000, 1000).duration
    );
}

fn ops(list: &[PackagerOp]) -> Vec<String> {
    list.iter()
        .map(|op| match op {
            PackagerOp::Reconnect => "reconnect".to_string(),
            PackagerOp::Gap => "gap".to_string(),
            PackagerOp::SyncRecovery => "sync".to_string(),
            PackagerOp::Unit(u) => kinds(std::slice::from_ref(u))[0].clone(),
        })
        .collect()
}

fn begin(p: &mut DashPull, seq: u64, discontinuity: bool) -> Vec<String> {
    match p.begin_segment("ch", seq, discontinuity) {
        DashStart::Fetch(list) => ops(&list),
        DashStart::Skip => vec!["skip".to_string()],
    }
}

fn fetched(p: &mut DashPull, seq: u64, bytes: &[u8]) -> Vec<String> {
    match p.segment_fetched("ch", seq, bytes) {
        DashEnd::Ingested(list) => ops(&list),
        DashEnd::Replaced(_, list) => ops(&list),
        DashEnd::Skip => vec!["skip".to_string()],
        DashEnd::Failed(e) => vec![e.message().to_string()],
        DashEnd::Refused(_, Some(list)) => ops(&list),
        DashEnd::Refused(e, None) => vec![e.message().to_string()],
    }
}

#[test]
fn a_dash_session_feeds_the_packager() {
    let mut p = DashPull::start(&RecoveryConfig::default());
    let pl = parse_media_playlist("#EXT-X-MEDIA-SEQUENCE:1\n#EXTINF:2,\na.ts\n");
    p.begin_playlist(&pl);
    assert!(begin(&mut p, 1, false).is_empty());
    let first = fetched(&mut p, 1, &stream());
    assert_eq!(first.iter().filter(|k| *k == "video config").count(), 1);
    assert_eq!(begin(&mut p, 1, false), vec!["skip"]);
    // Missing segments, then a discontinuity.
    assert_eq!(begin(&mut p, 5, false), vec!["gap"]);
    assert_eq!(fetched(&mut p, 5, &stream()), vec!["skip"]);
    assert_eq!(begin(&mut p, 6, true), vec!["gap", "reconnect"]);
    // The demultiplexer starts anew: the tracks are found again.
    let again = fetched(&mut p, 6, &stream());
    assert_eq!(again, first);
    // Broken and missing segments.
    assert!(begin(&mut p, 7, false).is_empty());
    assert_eq!(fetched(&mut p, 7, &[0; 4]), vec!["gap"]);
    assert!(begin(&mut p, 8, false).is_empty());
    assert_eq!(ops(&p.segment_failed(8).unwrap()), vec!["gap"]);
    // The same number with other bytes.
    let mut other = stream();
    other.extend(tables(&[(0x1b, VIDEO_PID)]));
    let rewritten = fetched(&mut p, 6, &other);
    assert_eq!(rewritten[0], "reconnect");
    assert_eq!(p.end_playlist(&pl), PollAction::PollAgain);
    let last = p.finish().unwrap();
    assert!(!last.is_empty());
}

#[test]
fn a_stream_discontinuity_calls_for_sync_recovery() {
    let mut p = DashPull::start(&RecoveryConfig::default());
    let mut mark = vec![0x47, 0x01, 0x00, 0x20, 183, 0x80];
    mark.extend(std::iter::repeat(0xff).take(182));
    let five: Vec<u8> = (0..5).flat_map(|_| mark.clone()).collect();
    assert!(begin(&mut p, 1, false).is_empty());
    assert!(fetched(&mut p, 1, &five).is_empty());
    assert_eq!(begin(&mut p, 2, false), vec!["sync"]);
    assert_eq!(begin(&mut p, 3, false), vec!["gap"]);
}

#[test]
fn a_strict_dash_session_aborts() {
    let mut p = DashPull::start(&RecoveryConfig {
        skip_missing_segments: false,
        ..RecoveryConfig::default()
    });
    assert!(p.segment_failed(1).is_none());
    assert!(matches!(
        p.segment_fetched("ch", 1, &[1]),
        DashEnd::Failed(TsError::NoSyncByte)
    ));
}

/// Five packets that carry nothing.
fn filler() -> Vec<u8> {
    let mut p = vec![0x47, 0x1f, 0xff, 0x10];
    p.resize(188, 0xff);
    p.repeat(5)
}

/// A stream with one access unit on the video identifier, which another one ends.
fn video(kind: u8, data: &[u8]) -> Vec<u8> {
    let mut out = tables(&[(kind, VIDEO_PID), (0x0f, AUDIO_PID)]);
    out.extend(units_of(data));
    out
}

fn units_of(data: &[u8]) -> Vec<u8> {
    let mut cc = 0;
    let mut out = packets(VIDEO_PID, true, &pes(0xe0, 90_000, data), &mut cc);
    let end = units(&[&[0x41, 0x9a, 0x21]]);
    out.extend(packets(VIDEO_PID, true, &pes(0xe0, 93_600, &end), &mut cc));
    out.extend(filler());
    out
}

fn units(nals: &[&[u8]]) -> Vec<u8> {
    let mut out = Vec::new();
    for nal in nals {
        out.extend_from_slice(&[0, 0, 1]);
        out.extend_from_slice(nal);
    }
    out
}

fn verdict(data: &[u8]) -> Option<DemuxError> {
    TsDemuxBridge::default().feed(data).err()
}

const SPS: [u8; 8] = [0x67, 0x42, 0x00, 0x1e, 0xda, 0x05, 0x07, 0xe4];
const PPS: [u8; 4] = [0x68, 0xce, 0x3c, 0x80];

#[test]
fn ordinary_streams_are_not_refused() {
    assert_eq!(verdict(&stream()), None);
    assert_eq!(verdict(&[]), None);
    assert_eq!(verdict(&video(0x1b, &units(&[&SPS, &PPS, &[0x65, 0x88]]))), None);
    // Zeros before a start code belong to no unit.
    let mut padded = units(&[&SPS]);
    padded.extend([0; 300]);
    padded.extend(units(&[&[0x06, 0x05, 0x01, 0x00, 0x80]]));
    padded.extend([0; 300]);
    padded.extend(units(&[&PPS, &[0x65, 0x88]]));
    assert_eq!(verdict(&video(0x1b, &padded)), None);
}

/// A parameter set that counts more offsets than there are.
fn odd_sps() -> Vec<u8> {
    let code = |v: u64| (v, true);
    let flag = |v: u64| (v, false);
    sps(
        66,
        &[code(0), code(0), code(1), flag(0), code(0), code(0), code(1 << 30), code(0)],
    )
}

#[test]
fn packets_are_found_wherever_they_begin() {
    // A packet out of sync, a stream that begins in the middle of a packet, and no packets.
    let mut data = stream();
    data[188] = 0x46;
    assert_eq!(verdict(&data), None);
    let mut bridge = TsDemuxBridge::new();
    let mut late = stream()[1..].to_vec();
    late.extend(stream());
    let mut units = bridge.feed(&late).unwrap();
    units.extend(bridge.finish_segment().unwrap());
    assert!(kinds(&units).contains(&"video config".to_string()));
    assert_eq!(verdict(&[0; 5000]), None);
    assert_eq!(verdict(&[0x47; 5000]), None);
    // Odd video is found there as well.
    let odd = video(0x1b, &self::units(&[&odd_sps(), &PPS]));
    let mut late = vec![0x47, 0x1b, 0xe1];
    late.extend_from_slice(&odd);
    assert_eq!(verdict(&late), Some(DemuxError::UnsafeAvc));
    let mut lost = stream();
    lost.extend([0x47; 7]);
    lost.extend_from_slice(&odd);
    assert_eq!(verdict(&lost), Some(DemuxError::UnsafeAvc));
    // And in packets with parity bytes behind them.
    let mut parity = Vec::new();
    for packet in odd.chunks(188) {
        parity.extend_from_slice(packet);
        parity.extend([0x11; 16]);
    }
    assert_eq!(verdict(&parity), Some(DemuxError::UnsafeAvc));
    assert_eq!(DemuxError::UnsafeAvc.message(), "malformed H.264 video stream");
}

#[test]
fn packets_behind_a_false_beginning_are_found() {
    // Four packets seem to begin at the first byte; five do at the fifth.
    let inner = |head: [u8; 3], payload: &[u8]| {
        let mut p = vec![0x47];
        p.extend(head);
        p.extend_from_slice(payload);
        p.resize(184, 0xff);
        p
    };
    let pat = section(&[
        0x00, 0xb0, 13, 0, 1, 0xc1, 0, 0, 0, 1, 0xe0 | (PMT_PID >> 8) as u8, PMT_PID as u8,
    ]);
    let pmt = section(&[
        0x02, 0xb0, 18, 0, 1, 0xc1, 0, 0, 0xe1, 0x00, 0xf0, 0, 0x1b, 0xe1, 0x00, 0xf0, 0,
    ]);
    let first = pes(0xe0, 90_000, &units(&[&odd_sps(), &PPS]));
    let second = pes(0xe0, 93_600, &units(&[&[0x41, 0x9a]]));
    let mut data = Vec::new();
    for packet in [
        inner([0x40, 0x00, 0x10], &pat),
        inner([0x50, 0x00, 0x10], &pmt),
        inner([0x41, 0x00, 0x10], &first),
        inner([0x41, 0x00, 0x11], &second),
    ] {
        data.extend([0x47, 0x1f, 0xff, 0x00]);
        data.extend(packet);
    }
    data.extend([0, 0, 0, 0, 0x47]);
    data.resize(800, 0xff);
    for at in [4, 192, 380, 568, 756] {
        assert_eq!(data[at], 0x47);
    }
    assert_eq!(verdict(&data), Some(DemuxError::UnsafeAvc));
    // In pieces it is refused once the fifth sync byte came.
    let mut bridge = TsDemuxBridge::new();
    assert!(bridge.feed(&data[..756]).is_ok());
    assert!(bridge.feed(&data[756..]).is_err());
}

#[test]
fn association_tables_may_span_packets() {
    let odd = units_of(&units(&[&odd_sps(), &PPS]));
    let pmt = tables(&[(0x1b, VIDEO_PID)])[188..].to_vec();
    // Sixty programs before the one that matters.
    let mut pat = vec![0x00, 0xb0, 0, 0, 1, 0xc1, 0, 0];
    for n in 1..=60u8 {
        pat.extend_from_slice(&[0, n, 0xe2, n]);
    }
    pat.extend_from_slice(&[0, 99, 0xe0 | (PMT_PID >> 8) as u8, PMT_PID as u8]);
    pat[2] = (pat.len() + 4 - 3) as u8;
    pat[1] = 0xb0 | ((pat.len() + 4 - 3) >> 8) as u8;
    let table = packets(0, true, &section(&pat), &mut 0);
    assert_eq!(table.len(), 376);
    let data = [table.clone(), pmt.clone(), odd.clone()].concat();
    assert_eq!(verdict(&data), Some(DemuxError::UnsafeAvc));
    // Without its end the table names nothing.
    let data = [table[..188].to_vec(), pmt.clone(), odd.clone()].concat();
    assert_eq!(verdict(&data), None);
    // Neither does an entry for the network.
    let mut network = vec![0x00, 0xb0, 13, 0, 1, 0xc1, 0, 0, 0, 0];
    network.extend([0xe0 | (PMT_PID >> 8) as u8, PMT_PID as u8]);
    let table = packets(0, true, &section(&network), &mut 0);
    assert_eq!(verdict(&[table, pmt.clone(), odd.clone()].concat()), None);
    // The identifier of the network may carry video.
    let mut network = vec![0x00, 0xb0, 17, 0, 1, 0xc1, 0, 0];
    network.extend([0, 0, 0xe0 | (VIDEO_PID >> 8) as u8, VIDEO_PID as u8]);
    network.extend([0, 1, 0xe0 | (PMT_PID >> 8) as u8, PMT_PID as u8]);
    let table = packets(0, true, &section(&network), &mut 0);
    assert_eq!(
        verdict(&[table, pmt, odd].concat()),
        Some(DemuxError::UnsafeAvc)
    );
}

#[test]
fn many_empty_units_are_refused() {
    let empty = |n: usize| {
        let mut out = [0, 0, 1].repeat(n);
        out.extend(units(&[&[0x65, 0x88]]));
        out
    };
    for few in [1, 2, 255] {
        assert_eq!(verdict(&video(0x1b, &empty(few))), None);
    }
    assert_eq!(verdict(&video(0x1b, &empty(257))), Some(DemuxError::UnsafeAvc));
    assert_eq!(verdict(&video(0x24, &empty(257))), Some(DemuxError::UnsafeHevc));
    assert_eq!(DemuxError::UnsafeHevc.message(), "malformed H.265 video stream");
    // Not in a stream that is no video.
    assert_eq!(verdict(&video(0x06, &empty(257))), None);
    // In pieces, and before the tables came.
    let data = video(0x1b, &empty(257));
    let mut turned = data[376..].to_vec();
    turned.extend_from_slice(&data[..376]);
    let mut bridge = TsDemuxBridge::new();
    let refused = turned.chunks(50).any(|piece| bridge.feed(piece).is_err());
    assert!(refused);
    // However the stream goes on.
    let mut longer = data.clone();
    longer.extend(stream());
    assert_eq!(verdict(&longer), Some(DemuxError::UnsafeAvc));
    // After a refusal the bridge starts anew.
    let mut bridge = TsDemuxBridge::new();
    assert!(bridge.feed(&data).is_err());
    assert!(!bridge.feed(&stream()).unwrap().is_empty());
}

#[test]
fn messages_with_long_runs_of_zeros_are_refused() {
    let message = |zeros: usize| {
        let mut nal = vec![0x06, 0x05, 0xff];
        nal.resize(3 + zeros, 0);
        nal.push(0x80);
        video(0x1b, &units(&[&nal, &[0x65, 0x88]]))
    };
    assert_eq!(verdict(&message(255)), None);
    assert_eq!(verdict(&message(256)), Some(DemuxError::UnsafeAvc));
}

fn sps(profile: u8, fields: &[(u64, bool)]) -> Vec<u8> {
    packed(&[0x67, profile, 0, 0x1e], fields)
}

/// An H.265 parameter set of one layer.
fn hevc_sps(fields: &[(u64, bool)]) -> Vec<u8> {
    packed(
        &[
            0x42, 0x01, 0x01, 0x01, 0x60, 0x01, 0x01, 0x01, 0x90, 0x01, 0x01, 0x01, 0x01, 0x01,
            0x5d,
        ],
        fields,
    )
}

/// Packs codes and flags, the highest bit first, behind the header of a parameter set.
fn packed(head: &[u8], fields: &[(u64, bool)]) -> Vec<u8> {
    let mut bits = Vec::new();
    for (value, code) in fields {
        if *code {
            let n = value + 1;
            let len = 64 - n.leading_zeros();
            bits.extend((1..len).map(|_| false));
            bits.extend((0..len).rev().map(|i| (n >> i) & 1 == 1));
        } else {
            bits.push(*value == 1);
        }
    }
    bits.push(true);
    let mut nal = head.to_vec();
    for byte in bits.chunks(8) {
        let mut b = 0u8;
        for (i, bit) in byte.iter().enumerate() {
            b |= (*bit as u8) << (7 - i);
        }
        nal.push(b);
    }
    nal
}

#[test]
fn odd_parameter_sets_are_refused() {
    let code = |v: u64| (v, true);
    let flag = |v: u64| (v, false);
    assert!(check_sps(&SPS.to_vec()));
    assert!(check_sps(&vec![0x67]));
    // A bit depth that a byte does not hold once eight is added.
    let depth = |d: u64| sps(100, &[code(0), code(1), code(d), code(0), flag(0), flag(0)]);
    assert!(check_sps(&depth(247)));
    assert!(!check_sps(&depth(248)));
    assert!(check_sps(&sps(77, &[code(0), code(1), code(248), code(0)])));
    // More offsets than there are.
    let offsets = |n: u64| {
        sps(
            66,
            &[code(0), code(0), code(1), flag(0), code(0), code(0), code(n), code(0)],
        )
    };
    assert!(check_sps(&offsets(255)));
    assert!(!check_sps(&offsets(256)));
    // The same behind a scaling list that ends early, and one that does not.
    let listed = |n: u64, step: u64| {
        let mut fields = vec![code(0), code(1), code(0), code(0), flag(0), flag(1), flag(1)];
        let steps = if step == 16 { 1 } else { 16 };
        fields.extend((0..steps).map(|_| code(step)));
        fields.extend((0..7).map(|_| flag(0)));
        fields.extend([code(0), code(1), flag(0), code(0), code(0), code(n), code(0)]);
        sps(100, &fields)
    };
    for step in [16, 0] {
        assert!(check_sps(&listed(255, step)));
        assert!(!check_sps(&listed(256, step)));
    }
    // However long it is, and too many zeros.
    let mut long = SPS.to_vec();
    long.resize(1025, 0xff);
    assert!(check_sps(&long));
    assert_eq!(verdict(&video(0x1b, &units(&[&long, &PPS, &[0x65, 0x88]]))), None);
    let mut zeros = SPS.to_vec();
    zeros.extend([0; 5]);
    assert!(check_sps(&zeros));
    zeros.push(0);
    assert!(!check_sps(&zeros));
    // The bytes that keep start codes apart do not count.
    let mut kept = SPS.to_vec();
    kept.extend([0, 0, 3, 0, 0, 3, 0, 1]);
    assert!(check_sps(&kept));
    kept.pop();
    kept.extend([0, 0]);
    assert!(!check_sps(&kept));
    // In a stream.
    let data = video(0x1b, &units(&[&depth(248), &PPS, &[0x65, 0x88]]));
    assert_eq!(verdict(&data), Some(DemuxError::UnsafeAvc));
    let data = video(0x1b, &units(&[&depth(247), &PPS, &[0x65, 0x88]]));
    assert_eq!(verdict(&data), None);
    // Where the next unit closes it, and where its own packetized unit does.
    for nals in [units(&[&depth(248)]), units(&[&depth(248), &PPS])] {
        assert_eq!(verdict(&video(0x1b, &nals)), Some(DemuxError::UnsafeAvc));
    }
    // A stream that is no video, or other video, may hold it.
    assert_eq!(verdict(&video(0x06, &units(&[&depth(248), &PPS]))), None);
    assert_eq!(verdict(&video(0x24, &units(&[&depth(248), &PPS]))), None);
}

/// The fields of an H.265 parameter set with these bit depths.
fn hevc_fields(luma: u64, chroma: u64) -> Vec<(u64, bool)> {
    let code = |v: u64| (v, true);
    let flag = |v: u64| (v, false);
    let mut fields = vec![code(0), code(1), code(320), code(240), flag(0)];
    fields.extend([code(luma), code(chroma), code(0), flag(1)]);
    fields.extend((0..9).map(|_| code(0)));
    fields.extend([flag(0), flag(0), flag(0), flag(0), code(0)]);
    fields.extend((0..4).map(|_| flag(0)));
    fields
}

#[test]
fn h265_video_is_let_through_and_left_out() {
    let sps = hevc_sps(&hevc_fields(0, 0));
    assert!(check_hevc_sps(&sps));
    let nals = units(&[&sps, &[0x26, 0x01, 0xaf, 0x11]]);
    let mut data = tables(&[(0x24, VIDEO_PID), (0x0f, AUDIO_PID)]);
    data.extend(units_of(&nals));
    for n in 0..2u64 {
        let a = pes(0xc0, 90_000 + n * 1920, &frame());
        data.extend(packets(AUDIO_PID, true, &a, &mut (n as u8)));
    }
    let mut bridge = TsDemuxBridge::new();
    let mut units = bridge.feed(&data).unwrap();
    units.extend(bridge.finish_segment().unwrap());
    assert_eq!(kinds(&units), vec!["audio config", "audio 21", "audio 21"]);
}

#[test]
fn odd_h265_parameter_sets_are_refused() {
    assert!(check_hevc_sps(&vec![]));
    assert!(check_hevc_sps(&vec![0x42, 0x01]));
    // A bit depth that a byte does not hold once eight is added.
    assert!(check_hevc_sps(&hevc_sps(&hevc_fields(247, 247))));
    assert!(!check_hevc_sps(&hevc_sps(&hevc_fields(248, 0))));
    assert!(!check_hevc_sps(&hevc_sps(&hevc_fields(0, 248))));
    assert!(check_hevc_sps(&hevc_sps(&hevc_fields(256, 0))));
    // Too many zeros among the codes.
    let mut zeros = hevc_sps(&hevc_fields(0, 0));
    zeros.extend([0; 6]);
    assert!(!check_hevc_sps(&zeros));
    // Elsewhere they do not matter.
    let mut general = hevc_sps(&hevc_fields(0, 0));
    for b in &mut general[4..14] {
        *b = 0;
    }
    assert!(check_hevc_sps(&general));
    // In a stream.
    let odd = units(&[&hevc_sps(&hevc_fields(248, 0)), &[0x26, 0x01, 0xaf]]);
    assert_eq!(verdict(&video(0x24, &odd)), Some(DemuxError::UnsafeHevc));
    assert_eq!(verdict(&video(0x1b, &odd)), None);
}

#[test]
fn a_stream_may_be_refused_at_its_end() {
    let open = |unit: &[u8]| {
        let mut data = tables(&[(0x1b, VIDEO_PID)]);
        data.extend(packets(VIDEO_PID, true, unit, &mut 0));
        data.extend(filler());
        data
    };
    // The last unit is decoded only then.
    let mut bridge = TsDemuxBridge::new();
    let nals = units(&[&PPS, &odd_sps()]);
    assert!(bridge.feed(&open(&pes(0xe0, 90_000, &nals))).is_ok());
    assert_eq!(bridge.finish_segment().err(), Some(DemuxError::UnsafeAvc));
    assert!(bridge.finish_segment().unwrap().is_empty());
    let mut p = DashPull::start(&RecoveryConfig::default());
    assert!(begin(&mut p, 1, false).is_empty());
    fetched(&mut p, 1, &open(&pes(0xe0, 90_000, &nals)));
    assert_eq!(p.finish().err(), Some(DemuxError::UnsafeAvc));
    // What stands behind the end of a packetized unit is not decoded.
    let mut unit = pes(0xe0, 90_000, &units(&[&SPS, &PPS, &[0x65, 0x88]]));
    let len = unit.len() - 6;
    unit[5] = len as u8;
    unit.extend(units(&[&odd_sps()]));
    let mut bridge = TsDemuxBridge::new();
    assert!(bridge.feed(&open(&unit)).is_ok());
    assert!(bridge.finish_segment().is_ok());
    // Neither is what stands before the first begins.
    let mut data = tables(&[(0x1b, VIDEO_PID)]);
    let nals = units(&[&odd_sps(), &PPS]);
    data.extend(packets(VIDEO_PID, false, &nals, &mut 0));
    data.extend(filler());
    assert_eq!(verdict(&data), None);
}

#[test]
fn a_refused_segment_leaves_a_gap_or_ends_the_session() {
    let odd = video(0x1b, &units(&[&odd_sps(), &PPS]));
    let mut p = DashPull::start(&RecoveryConfig::default());
    assert!(begin(&mut p, 1, false).is_empty());
    assert!(!fetched(&mut p, 1, &stream()).is_empty());
    assert!(begin(&mut p, 2, false).is_empty());
    match p.segment_fetched("ch", 2, &odd) {
        DashEnd::Refused(DemuxError::UnsafeAvc, Some(list)) => {
            assert_eq!(ops(&list), vec!["reconnect", "gap"])
        }
        other => panic!("{other:?}"),
    }
    // The session goes on with a demultiplexer that knows nothing.
    assert!(begin(&mut p, 3, false).is_empty());
    let mut other = stream();
    other.extend(filler());
    assert!(fetched(&mut p, 3, &other).contains(&"video config".to_string()));
    // Once where it replaces another segment.
    match p.segment_fetched("ch", 3, &video(0x1b, &units(&[&odd_sps()]))) {
        DashEnd::Refused(_, Some(list)) => assert_eq!(ops(&list), vec!["reconnect", "gap"]),
        other => panic!("{other:?}"),
    }
    let mut strict = DashPull::start(&RecoveryConfig {
        skip_missing_segments: false,
        ..RecoveryConfig::default()
    });
    assert!(begin(&mut strict, 1, false).is_empty());
    assert!(matches!(
        strict.segment_fetched("ch", 1, &odd),
        DashEnd::Refused(DemuxError::UnsafeAvc, None)
    ));
    assert!(strict.finish().unwrap().is_empty());
}
