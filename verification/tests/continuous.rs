use hls2dash::mpegts::continuous::ContinuityState;

#[test]
fn continuity_rewrites_across_two_fresh_blobs() {
    let mut a = vec![0u8; 188];
    a[0] = 0x47;
    a[1] = 0x40;
    a[2] = 0x00;
    a[3] = 0x10;

    let mut b = a.clone();
    let mut cc = ContinuityState::default();
    cc.rewrite(&mut a);
    cc.rewrite(&mut b);
    assert_eq!(a[3] & 0x0f, 0);
    assert_eq!(b[3] & 0x0f, 1);
}

fn packet(pid: u16, control: u8) -> Vec<u8> {
    let mut p = vec![0u8; 188];
    p[0] = 0x47;
    p[1] = (pid >> 8) as u8;
    p[2] = pid as u8;
    p[3] = control;
    p
}

#[test]
fn counters_advance_per_pid_and_wrap() {
    let mut cc = ContinuityState::new();
    for round in 0..40u8 {
        let mut ts = [packet(0x100, 0x1f), packet(0x101, 0x15)].concat();
        cc.rewrite(&mut ts);
        assert_eq!(ts[3], 0x10 | (round % 16));
        assert_eq!(ts[188 + 3], 0x10 | (round % 16));
    }
}

#[test]
fn adaptation_only_packets_repeat_the_counter() {
    let mut cc = ContinuityState::new();
    // Before any payload the counter stays as it is.
    let mut first = packet(0x100, 0x2c);
    cc.rewrite(&mut first);
    assert_eq!(first[3], 0x2c);
    let mut ts = [
        packet(0x100, 0x1c),
        packet(0x100, 0x3c),
        packet(0x100, 0x2c),
        packet(0x100, 0x10),
    ]
    .concat();
    cc.rewrite(&mut ts);
    assert_eq!([ts[3], ts[191], ts[379], ts[567]], [0x10, 0x31, 0x21, 0x12]);
}

#[test]
fn chunks_rewrite_as_one() {
    let a = [packet(0x100, 0x17), packet(0x200, 0x30)].concat();
    let b = [packet(0x100, 0x13), packet(0x100, 0x20), packet(0x200, 0x10)].concat();
    let mut whole = [a.clone(), b.clone()].concat();
    ContinuityState::new().rewrite(&mut whole);
    let mut cc = ContinuityState::new();
    let (mut x, mut y) = (a, b);
    cc.rewrite(&mut x);
    cc.rewrite(&mut y);
    assert_eq!([x, y].concat(), whole);
}

#[test]
fn packets_out_of_sync_are_left_alone() {
    let mut ts = packet(0x100, 0x1a);
    ts[0] = 0x46;
    let before = ts.clone();
    ContinuityState::new().rewrite(&mut ts);
    assert_eq!(ts, before);
}
