use hls2dash::mpegts::repair::{
    align_ts_packets_truncate, prepare_ts_bytes, repair_ts_packets, RepairStats, TsError,
};

fn packet() -> [u8; 188] {
    let mut p = [0u8; 188];
    p[0] = 0x47;
    p
}

#[test]
fn repair_resyncs_after_garbage_run() {
    let mut raw = vec![0x00, 0x01];
    raw.extend_from_slice(&packet());
    raw.extend_from_slice(&packet());
    // Corrupt one packet slot then resume sync at boundary.
    raw.extend_from_slice(&[0xff; 188]);
    raw.extend_from_slice(&packet());
    let (out, stats) = repair_ts_packets(&raw).unwrap();
    assert_eq!(out.len(), 188 * 3);
    assert!(stats.resync_count >= 1);
    assert_eq!(out[0], 0x47);
}

#[test]
fn repair_finds_initial_sync() {
    let mut raw = vec![0x00];
    raw.extend_from_slice(&packet());
    let (out, _) = repair_ts_packets(&raw).unwrap();
    assert_eq!(out.len(), 188);
}

#[test]
fn repair_counts_runs_of_lost_packets() {
    let mut raw = Vec::new();
    raw.extend_from_slice(&packet());
    raw.extend_from_slice(&[0xff; 188 * 2]);
    raw.extend_from_slice(&packet());
    raw.extend_from_slice(&[0x00; 188]);
    let (out, stats) = repair_ts_packets(&raw).unwrap();
    assert_eq!(out.len(), 188 * 2);
    assert_eq!(
        stats,
        RepairStats {
            packets_kept: 2,
            packets_dropped: 2,
            resync_count: 2,
        }
    );
}

#[test]
fn repair_ignores_sync_bytes_off_the_packet_boundary() {
    let mut raw = Vec::new();
    raw.extend_from_slice(&packet());
    let mut bad = [0x11u8; 188];
    bad[5] = 0x47;
    raw.extend_from_slice(&bad);
    raw.extend_from_slice(&packet());
    let (out, _) = repair_ts_packets(&raw).unwrap();
    assert_eq!(out, [packet(), packet()].concat());
}

#[test]
fn segments_without_packets_are_refused() {
    assert_eq!(repair_ts_packets(&[1, 2, 3]), Err(TsError::NoSyncByte));
    assert_eq!(repair_ts_packets(&[]), Err(TsError::NoSyncByte));
    assert_eq!(repair_ts_packets(&[0x47; 187]), Err(TsError::NoPackets));
    assert_eq!(align_ts_packets_truncate(&[]), Err(TsError::NoSyncByte));
    assert_eq!(
        align_ts_packets_truncate(&[0x47; 187]),
        Err(TsError::TooShort)
    );
    assert_eq!(
        TsError::NoSyncByte.message(),
        "no MPEG-TS sync byte 0x47 in segment"
    );
    assert_eq!(
        TsError::TooShort.message(),
        "segment shorter than one TS packet"
    );
    assert_eq!(
        TsError::NoPackets.message(),
        "no valid TS packets after sync check"
    );
}

#[test]
fn alignment_is_the_beginning_of_repair() {
    let mut raw = vec![9];
    raw.extend_from_slice(&packet());
    raw.extend_from_slice(&[0xff; 188]);
    raw.extend_from_slice(&packet());
    let (repaired, _) = repair_ts_packets(&raw).unwrap();
    let aligned = align_ts_packets_truncate(&raw).unwrap();
    assert_eq!(aligned.len(), 188);
    assert!(repaired.starts_with(&aligned));
    assert_eq!(prepare_ts_bytes(&raw, true).unwrap(), repaired);
    assert_eq!(prepare_ts_bytes(&raw, false).unwrap(), aligned);
    // A run of packets in sync is left alone.
    let (again, stats) = repair_ts_packets(&repaired).unwrap();
    assert_eq!(again, repaired);
    assert_eq!(stats.packets_dropped, 0);
    assert_eq!(align_ts_packets_truncate(&repaired).unwrap(), repaired);
    assert_eq!(RepairStats::default().packets_kept, 0);
}
