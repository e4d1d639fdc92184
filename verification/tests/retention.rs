use hls2dash::cache::retention::RetentionRegistry;
use hls2dash::mpegts::stitch::TsStitcher;

#[test]
fn touch_extends_retention_floor() {
    let mut reg = RetentionRegistry::new(2);
    reg.touch_seg("ch1", 10);
    assert_eq!(reg.safe_prune_floor("ch1"), 8);
    reg.touch_seg("ch1", 5);
    assert_eq!(reg.safe_prune_floor("ch1"), 3);
}

#[test]
fn mpegts_cursor_protects_segments() {
    let mut reg = RetentionRegistry::new(2);
    reg.register_mpegts_cursor("ch1", 20);
    assert!(!reg.may_delete_seg("ch1", 19));
    assert!(reg.may_delete_seg("ch1", 17));
    reg.unregister_mpegts_cursor("ch1", 20);
    assert_eq!(reg.safe_prune_floor("ch1"), 1);
}

#[test]
fn mpd_start_protects_advertised_segments() {
    let mut reg = RetentionRegistry::new(2);
    reg.set_mpd_start("ch1", 15);
    assert!(!reg.may_delete_seg("ch1", 14));
    assert!(reg.may_delete_seg("ch1", 12));
}

#[test]
fn grace_is_at_least_one() {
    assert_eq!(RetentionRegistry::new(0).grace_segments(), 1);
    assert_eq!(RetentionRegistry::new(5).grace_segments(), 5);
    assert_eq!(RetentionRegistry::default().grace_segments(), 0);
}

#[test]
fn nothing_recorded_protects_nothing() {
    let reg = RetentionRegistry::new(2);
    assert_eq!(reg.safe_prune_floor("ch1"), 1);
    assert_eq!(reg.protected_from("ch1"), None);
    assert!(!reg.may_delete_seg("ch1", 1));
    assert!(reg.may_delete_seg("ch1", 0));
}

#[test]
fn the_oldest_reader_decides() {
    let mut reg = RetentionRegistry::new(2);
    reg.register_mpegts_cursor("ch1", 30);
    reg.register_mpegts_cursor("ch1", 20);
    reg.set_mpd_start("ch1", 25);
    assert_eq!(reg.safe_prune_floor("ch1"), 18);
    assert_eq!(reg.protected_from("ch1"), Some(18));
    reg.unregister_mpegts_cursor("ch1", 20);
    assert_eq!(reg.safe_prune_floor("ch1"), 23);
    reg.unregister_mpegts_cursor("ch1", 30);
    assert_eq!(reg.safe_prune_floor("ch1"), 23);
    reg.set_mpd_start("ch1", 0);
    reg.unregister_mpegts_cursor("ch1", 30);
    assert_eq!(reg.safe_prune_floor("ch1"), 1);
}

#[test]
fn the_floor_is_at_least_one() {
    let mut reg = RetentionRegistry::new(10);
    reg.touch_seg("ch1", 4);
    assert_eq!(reg.safe_prune_floor("ch1"), 1);
    reg.register_mpegts_cursor("ch2", 0);
    assert_eq!(reg.safe_prune_floor("ch2"), 1);
}

#[test]
fn channels_are_independent() {
    let mut reg = RetentionRegistry::new(1);
    reg.touch_seg("a", 10);
    reg.touch_seg("b", 20);
    assert_eq!(reg.safe_prune_floor("a"), 9);
    assert_eq!(reg.safe_prune_floor("b"), 19);
    reg.remove_channel("a");
    assert_eq!(reg.safe_prune_floor("a"), 1);
    assert_eq!(reg.safe_prune_floor("b"), 19);
    reg.unregister_mpegts_cursor("unknown", 3);
    assert_eq!(reg.safe_prune_floor("unknown"), 1);
}

#[test]
fn the_sliding_window_spares_segments_in_use() {
    let mut reg = RetentionRegistry::new(2);
    reg.register_mpegts_cursor("ch1", 5);
    let mut stitcher = TsStitcher::resume(&Vec::new(), 1, true);
    let mut gone = Vec::new();
    for _ in 0..12 {
        gone.extend(stitcher.commit_segment(reg.protected_from("ch1")));
    }
    assert_eq!(gone, vec![1, 2]);
}

#[test]
fn clients_at_one_segment_each_hold_it() {
    let mut reg = RetentionRegistry::new(2);
    reg.register_mpegts_cursor("ch1", 20);
    reg.register_mpegts_cursor("ch1", 20);
    reg.register_mpegts_cursor("ch1", 30);
    reg.unregister_mpegts_cursor("ch1", 20);
    assert!(!reg.may_delete_seg("ch1", 20));
    assert_eq!(reg.safe_prune_floor("ch1"), 18);
    reg.unregister_mpegts_cursor("ch1", 20);
    assert!(reg.may_delete_seg("ch1", 20));
    assert_eq!(reg.safe_prune_floor("ch1"), 28);
}

#[test]
fn a_client_that_never_came_takes_nothing_away() {
    let mut reg = RetentionRegistry::new(2);
    reg.register_mpegts_cursor("ch1", 20);
    reg.unregister_mpegts_cursor("ch1", 21);
    assert_eq!(reg.safe_prune_floor("ch1"), 18);
}

#[test]
fn a_client_that_comes_and_leaves_changes_nothing_for_the_others() {
    let mut reg = RetentionRegistry::new(2);
    reg.register_mpegts_cursor("ch1", 20);
    reg.set_mpd_start("ch1", 40);
    reg.register_mpegts_cursor("ch1", 10);
    assert_eq!(reg.safe_prune_floor("ch1"), 8);
    reg.unregister_mpegts_cursor("ch1", 10);
    assert_eq!(reg.safe_prune_floor("ch1"), 18);
}
