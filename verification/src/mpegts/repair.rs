//! MPEG-TS packet repair: resync on sync-byte loss instead of truncating.

use crate::mpegts::continuous;
use crate::mpegts::continuous::{SYNC_BYTE, TS_PACKET_SIZE};
use vstd::prelude::*;

verus! {

/// Result of repairing a TS byte blob.
#[derive(Debug, Clone, Copy, PartialEq, Eq, Structural)]
pub struct RepairStats {
    pub packets_kept: usize,
    pub packets_dropped: usize,
    pub resync_count: usize,
}

impl Default for RepairStats {
    fn default() -> (stats: Self)
        ensures
            stats == (RepairStats { packets_kept: 0, packets_dropped: 0, resync_count: 0 }),
    {
        RepairStats { packets_kept: 0, packets_dropped: 0, resync_count: 0 }
    }
}

/// Why a segment holds no usable MPEG-TS.
#[derive(Debug, Clone, Copy, PartialEq, Eq, Structural)]
pub enum TsError {
    /// No byte is a sync byte.
    NoSyncByte,
    /// Fewer bytes than one packet follow the first sync byte.
    TooShort,
    /// No packet is in sync.
    NoPackets,
}

impl TsError {
    /// The message for the error.
    pub fn message(self) -> (text: &'static str)
        ensures
            text@ == match self {
                TsError::NoSyncByte => "no MPEG-TS sync byte 0x47 in segment"@,
                TsError::TooShort => "segment shorter than one TS packet"@,
                TsError::NoPackets => "no valid TS packets after sync check"@,
            },
    {
        match self {
            TsError::NoSyncByte => "no MPEG-TS sync byte 0x47 in segment",
            TsError::TooShort => "segment shorter than one TS packet",
            TsError::NoPackets => "no valid TS packets after sync check",
        }
    }
}

/// The bytes from the first sync byte on; nothing where there is none.
pub open spec fn from_sync(raw: Seq<u8>) -> Seq<u8>
    decreases raw.len(),
{
    if raw.len() == 0 || raw.first() == SYNC_BYTE {
        raw
    } else {
        from_sync(raw.drop_first())
    }
}

/// The number of whole packet slots in `ts`.
pub open spec fn slots(ts: Seq<u8>) -> int {
    (ts.len() / TS_PACKET_SIZE as nat) as int
}

/// Slot `k` begins with a sync byte.
pub open spec fn in_sync(ts: Seq<u8>, k: int) -> bool {
    ts[TS_PACKET_SIZE * k] == SYNC_BYTE
}

/// The packets in sync among the first `n` slots, one after the other.
pub open spec fn synced_packets(ts: Seq<u8>, n: int) -> Seq<u8>
    decreases n,
{
    if n <= 0 {
        Seq::empty()
    } else if in_sync(ts, n - 1) {
        synced_packets(ts, n - 1) + continuous::packet(ts, n - 1)
    } else {
        synced_packets(ts, n - 1)
    }
}

/// How many of the first `n` slots are in sync.
pub open spec fn synced_count(ts: Seq<u8>, n: int) -> int
    decreases n,
{
    if n <= 0 {
        0
    } else if in_sync(ts, n - 1) {
        synced_count(ts, n - 1) + 1
    } else {
        synced_count(ts, n - 1)
    }
}

/// How many runs of slots out of sync the first `n` slots hold.
pub open spec fn lost_runs(ts: Seq<u8>, n: int) -> int
    decreases n,
{
    if n <= 0 {
        0
    } else if !in_sync(ts, n - 1) && (n == 1 || in_sync(ts, n - 2)) {
        lost_runs(ts, n - 1) + 1
    } else {
        lost_runs(ts, n - 1)
    }
}

/// How many slots in sync `ts` begins with.
pub open spec fn leading_synced(ts: Seq<u8>, n: int) -> int
    decreases n,
{
    if n <= 0 {
        0
    } else if leading_synced(ts, n - 1) == n - 1 && in_sync(ts, n - 1) {
        n
    } else {
        leading_synced(ts, n - 1)
    }
}

proof fn lemma_from_sync(raw: Seq<u8>, at: int)
    requires
        0 <= at <= raw.len(),
        forall|j: int| 0 <= j < at ==> raw[j] != SYNC_BYTE,
        at < raw.len() ==> raw[at] == SYNC_BYTE,
    ensures
        from_sync(raw) == raw.skip(at),
    decreases raw.len(),
{
    if at > 0 {
        lemma_from_sync(raw.drop_first(), at - 1);
        assert(raw.drop_first().skip(at - 1) =~= raw.skip(at));
    } else {
        assert(raw.skip(0) =~= raw);
    }
}

/// The index of the first sync byte, or the length where there is none.
fn find_sync(raw: &[u8]) -> (at: usize)
    ensures
        at <= raw@.len(),
        from_sync(raw@) == raw@.skip(at as int),
        at < raw@.len() ==> raw@[at as int] == SYNC_BYTE,
{
    let mut at: usize = 0;
    while at < raw.len() && raw[at] != SYNC_BYTE
        invariant
            at <= raw@.len(),
            forall|j: int| 0 <= j < at ==> raw@[j] != SYNC_BYTE,
        decreases raw@.len() - at,
    {
        at = at + 1;
    }
    proof {
        lemma_from_sync(raw@, at as int);
    }
    at
}

/// Append the bytes of `raw` from `a` up to `b`.
fn append_range(out: &mut Vec<u8>, raw: &[u8], a: usize, b: usize)
    requires
        a <= b <= raw@.len(),
    ensures
        final(out)@ == old(out)@ + raw@.subrange(a as int, b as int),
{
    let ghost before = out@;
    let mut i: usize = a;
    assert(raw@.subrange(a as int, a as int) =~= Seq::empty());
    assert(before + raw@.subrange(a as int, a as int) =~= before);
    while i < b
        invariant
            a <= i <= b <= raw@.len(),
            out@ == before + raw@.subrange(a as int, i as int),
        decreases b - i,
    {
        out.push(raw[i]);
        assert(out@ =~= before + raw@.subrange(a as int, i + 1));
        i = i + 1;
    }
}

/// What repairing `raw` gives: every slot after the first sync byte that is in sync.
pub open spec fn repaired(raw: Seq<u8>) -> Result<Seq<u8>, TsError> {
    let ts = from_sync(raw);
    if ts.len() == 0 {
        Err(TsError::NoSyncByte)
    } else if slots(ts) == 0 {
        Err(TsError::NoPackets)
    } else {
        Ok(synced_packets(ts, slots(ts)))
    }
}

/// The statistics of a repair: a run of slots out of sync counts as one drop and one resync.
pub open spec fn is_repair_of(stats: RepairStats, raw: Seq<u8>) -> bool {
    let ts = from_sync(raw);
    &&& stats.packets_kept == synced_count(ts, slots(ts))
    &&& stats.packets_dropped == lost_runs(ts, slots(ts))
    &&& stats.resync_count == lost_runs(ts, slots(ts))
}

proof fn lemma_first_slot(ts: Seq<u8>, n: int)
    requires
        1 <= n,
        in_sync(ts, 0),
        TS_PACKET_SIZE * n <= ts.len(),
    ensures
        synced_packets(ts, n).len() > 0,
        leading_synced(ts, n) > 0,
    decreases n,
{
    if n > 1 {
        lemma_first_slot(ts, n - 1);
    } else {
        assert(leading_synced(ts, 0) == 0);
        assert(synced_packets(ts, 0).len() == 0);
    }
}

/// Align to the first sync byte and rescan forward on mid-stream sync loss.
///
/// Unlike truncate-on-error, this skips corrupted packet regions and continues
/// with the next sync byte at a packet boundary.
pub fn repair_ts_packets(raw: &[u8]) -> (result: Result<(Vec<u8>, RepairStats), TsError>)
    ensures
        match repaired(raw@) {
            Ok(bytes) => result matches Ok((out, stats)) && out@ == bytes && is_repair_of(
                stats,
                raw@,
            ),
            Err(e) => result == Err::<(Vec<u8>, RepairStats), TsError>(e),
        },
{
    let start: usize = find_sync(raw);
    let len: usize = raw.len();
    let ghost ts = from_sync(raw@);
    let ghost n = slots(ts);
    if start == len {
        return Err(TsError::NoSyncByte);
    }
    let mut stats: RepairStats = RepairStats::default();
    let mut out: Vec<u8> = Vec::new();
    let mut i: usize = start;
    let mut lost: bool = false;
    let ghost mut k: int = 0;
    while len - i >= TS_PACKET_SIZE
        invariant
            0 <= k <= n,
            ts == raw@.skip(start as int),
            ts.len() == len - start,
            len == raw@.len(),
            n == slots(ts),
            start <= i <= len,
            i == start + TS_PACKET_SIZE * k,
            out@ == synced_packets(ts, k),
            lost == (k > 0 && !in_sync(ts, k - 1)),
            stats.packets_kept == synced_count(ts, k),
            stats.packets_dropped == lost_runs(ts, k),
            stats.resync_count == lost_runs(ts, k),
            0 <= synced_count(ts, k) <= k,
            0 <= lost_runs(ts, k) <= k,
        decreases len - i,
    {
        assert(k < n);
        assert(ts[TS_PACKET_SIZE * k] == raw@[i as int]);
        if raw[i] == SYNC_BYTE {
            append_range(&mut out, raw, i, i + TS_PACKET_SIZE);
            assert(raw@.subrange(i as int, i + TS_PACKET_SIZE) =~= continuous::packet(ts, k));
            stats.packets_kept = stats.packets_kept + 1;
            lost = false;
        } else {
            if !lost {
                stats.resync_count = stats.resync_count + 1;
                stats.packets_dropped = stats.packets_dropped + 1;
            }
            lost = true;
        }
        i = i + TS_PACKET_SIZE;
        proof {
            k = k + 1;
        }
    }
    assert(k == n);
    proof {
        if n > 0 {
            assert(ts[0] == raw@[start as int]);
            lemma_first_slot(ts, n);
        }
    }
    if out.len() == 0 {
        return Err(TsError::NoPackets);
    }
    Ok((out, stats))
}

/// What aligning `raw` gives: the slots after the first sync byte, up to the first that is
/// out of sync.
pub open spec fn aligned(raw: Seq<u8>) -> Result<Seq<u8>, TsError> {
    let ts = from_sync(raw);
    if ts.len() == 0 {
        Err(TsError::NoSyncByte)
    } else if slots(ts) == 0 {
        Err(TsError::TooShort)
    } else {
        Ok(ts.take(TS_PACKET_SIZE * leading_synced(ts, slots(ts))))
    }
}

/// The view of an alignment.
pub open spec fn alignment(r: Result<Vec<u8>, TsError>) -> Result<Seq<u8>, TsError> {
    match r {
        Ok(bytes) => Ok(bytes@),
        Err(e) => Err(e),
    }
}

/// Align-only path (truncate at first bad packet). Used when resync is disabled.
pub fn align_ts_packets_truncate(raw: &[u8]) -> (result: Result<Vec<u8>, TsError>)
    ensures
        alignment(result) == aligned(raw@),
{
    let start: usize = find_sync(raw);
    let len: usize = raw.len();
    let ghost ts = from_sync(raw@);
    let ghost n = slots(ts);
    if start == len {
        return Err(TsError::NoSyncByte);
    }
    if len - start < TS_PACKET_SIZE {
        return Err(TsError::TooShort);
    }
    let mut i: usize = start;
    let ghost mut k: int = 0;
    while len - i >= TS_PACKET_SIZE && raw[i] == SYNC_BYTE
        invariant
            0 <= k <= n,
            ts == raw@.skip(start as int),
            ts.len() == len - start,
            len == raw@.len(),
            n == slots(ts),
            start <= i <= len,
            i == start + TS_PACKET_SIZE * k,
            leading_synced(ts, k) == k,
        decreases len - i,
    {
        assert(ts[TS_PACKET_SIZE * k] == raw@[i as int]);
        i = i + TS_PACKET_SIZE;
        proof {
            k = k + 1;
        }
    }
    proof {
        if k < n {
            assert(ts[TS_PACKET_SIZE * k] == raw@[i as int]);
            lemma_leading_synced_stops(ts, k, n);
        }
    }
    let mut out: Vec<u8> = Vec::new();
    append_range(&mut out, raw, start, i);
    assert(out@ =~= ts.take(TS_PACKET_SIZE * k));
    Ok(out)
}

/// The packets of a segment: repaired where resync is on, aligned where it is off.
pub open spec fn prepared(raw: Seq<u8>, resync: bool) -> Result<Seq<u8>, TsError> {
    if resync {
        repaired(raw)
    } else {
        aligned(raw)
    }
}

/// Cut the packets out of a fetched segment.
pub fn prepare_ts_bytes(raw: &[u8], resync: bool) -> (result: Result<Vec<u8>, TsError>)
    ensures
        alignment(result) == prepared(raw@, resync),
{
    if resync {
        match repair_ts_packets(raw) {
            Ok((ts, _stats)) => Ok(ts),
            Err(e) => Err(e),
        }
    } else {
        align_ts_packets_truncate(raw)
    }
}

proof fn lemma_leading_synced_stops(ts: Seq<u8>, k: int, n: int)
    requires
        0 <= k < n,
        leading_synced(ts, k) == k,
        !in_sync(ts, k),
    ensures
        leading_synced(ts, n) == k,
    decreases n,
{
    if n > k + 1 {
        lemma_leading_synced_stops(ts, k, n - 1);
    }
}

proof fn lemma_leading_synced(ts: Seq<u8>, n: int)
    requires
        0 <= n,
    ensures
        0 <= leading_synced(ts, n) <= n,
        forall|k: int| 0 <= k < leading_synced(ts, n) ==> #[trigger] in_sync(ts, k),
        leading_synced(ts, leading_synced(ts, n)) == leading_synced(ts, n),
    decreases n,
{
    if n > 0 {
        lemma_leading_synced(ts, n - 1);
    }
}

proof fn lemma_synced_packets(ts: Seq<u8>, n: int)
    requires
        0 <= n,
        TS_PACKET_SIZE * n <= ts.len(),
    ensures
        synced_packets(ts, n).len() == TS_PACKET_SIZE * synced_count(ts, n),
        0 <= synced_count(ts, n) <= n,
        forall|k: int|
            0 <= k < synced_count(ts, n) ==> #[trigger] in_sync(synced_packets(ts, n), k),
    decreases n,
{
    if n > 0 {
        lemma_synced_packets(ts, n - 1);
        let before = synced_packets(ts, n - 1);
        let out = synced_packets(ts, n);
        assert forall|k: int| 0 <= k < synced_count(ts, n) implies #[trigger] in_sync(out, k) by {
            if k < synced_count(ts, n - 1) {
                assert(in_sync(before, k));
                assert(out[TS_PACKET_SIZE * k] == before[TS_PACKET_SIZE * k]);
            } else {
                assert(out[TS_PACKET_SIZE * k] == continuous::packet(ts, n - 1)[0]);
            }
        }
    }
}

proof fn lemma_all_in_sync(ts: Seq<u8>, n: int)
    requires
        0 <= n,
        TS_PACKET_SIZE * n <= ts.len(),
        forall|k: int| 0 <= k < n ==> #[trigger] in_sync(ts, k),
    ensures
        synced_packets(ts, n) == ts.take(TS_PACKET_SIZE * n),
        synced_count(ts, n) == n,
        lost_runs(ts, n) == 0,
        leading_synced(ts, n) == n,
    decreases n,
{
    if n > 0 {
        lemma_all_in_sync(ts, n - 1);
        assert(in_sync(ts, n - 1));
        assert(ts.take(TS_PACKET_SIZE * (n - 1)) + continuous::packet(ts, n - 1) =~= ts.take(
            TS_PACKET_SIZE * n,
        ));
    } else {
        assert(ts.take(0) =~= Seq::empty());
    }
}

proof fn lemma_synced_packets_grow(ts: Seq<u8>, a: int, b: int)
    requires
        0 <= a <= b,
        TS_PACKET_SIZE * b <= ts.len(),
    ensures
        synced_packets(ts, a).is_prefix_of(synced_packets(ts, b)),
    decreases b,
{
    if a < b {
        lemma_synced_packets_grow(ts, a, b - 1);
    }
}

proof fn lemma_from_sync_starts_in_sync(raw: Seq<u8>)
    ensures
        from_sync(raw).len() > 0 ==> from_sync(raw)[0] == SYNC_BYTE,
    decreases raw.len(),
{
    if raw.len() > 0 && raw.first() != SYNC_BYTE {
        lemma_from_sync_starts_in_sync(raw.drop_first());
    }
}

/// A well formed run of packets: at least one, each in sync, and nothing after the last.
pub open spec fn is_packet_run(ts: Seq<u8>) -> bool {
    &&& ts.len() > 0
    &&& ts.len() % TS_PACKET_SIZE as nat == 0
    &&& forall|k: int| 0 <= k < slots(ts) ==> #[trigger] in_sync(ts, k)
}

/// A repaired segment is a run of whole packets, every one in sync.
pub proof fn law_repaired_is_packet_run(raw: Seq<u8>)
    requires
        repaired(raw) is Ok,
    ensures
        is_packet_run(repaired(raw)->Ok_0),
{
    let ts = from_sync(raw);
    let n = slots(ts);
    lemma_from_sync_starts_in_sync(raw);
    lemma_synced_packets(ts, n);
    lemma_first_slot(ts, n);
    assert(slots(synced_packets(ts, n)) == synced_count(ts, n));
}

/// An aligned segment is a run of whole packets, every one in sync.
pub proof fn law_aligned_is_packet_run(raw: Seq<u8>)
    requires
        aligned(raw) is Ok,
    ensures
        is_packet_run(aligned(raw)->Ok_0),
{
    let ts = from_sync(raw);
    let n = slots(ts);
    lemma_from_sync_starts_in_sync(raw);
    lemma_leading_synced(ts, n);
    lemma_first_slot(ts, n);
    let out = ts.take(TS_PACKET_SIZE * leading_synced(ts, n));
    assert(slots(out) == leading_synced(ts, n));
    assert forall|k: int| 0 <= k < slots(out) implies #[trigger] in_sync(out, k) by {
        assert(in_sync(ts, k));
    }
}

/// A well formed run of packets is left alone by repair, with nothing dropped, and by
/// alignment.
pub proof fn law_packet_run_is_kept(ts: Seq<u8>)
    requires
        is_packet_run(ts),
    ensures
        repaired(ts) == Ok::<Seq<u8>, TsError>(ts),
        aligned(ts) == Ok::<Seq<u8>, TsError>(ts),
        lost_runs(ts, slots(ts)) == 0,
{
    assert(in_sync(ts, 0));
    assert(from_sync(ts) == ts);
    lemma_all_in_sync(ts, slots(ts));
    assert(ts.take(TS_PACKET_SIZE * slots(ts)) =~= ts);
}

/// Alignment keeps the beginning of what repair keeps: resync only adds packets that
/// truncation would lose.
pub proof fn law_aligned_is_prefix_of_repaired(raw: Seq<u8>)
    requires
        repaired(raw) is Ok,
    ensures
        aligned(raw) is Ok,
        aligned(raw)->Ok_0.is_prefix_of(repaired(raw)->Ok_0),
{
    let ts = from_sync(raw);
    let n = slots(ts);
    let m = leading_synced(ts, n);
    lemma_leading_synced(ts, n);
    lemma_all_in_sync(ts, m);
    lemma_synced_packets_grow(ts, m, n);
}

/// What precedes the first sync byte is passed over: junk in front changes neither what repair nor
/// what alignment gives. Where no sync byte comes, where less than a packet follows it, and only
/// there, a segment is refused.
pub proof fn law_junk_before_the_sync_is_passed_over(junk: Seq<u8>, ts: Seq<u8>, resync: bool)
    requires
        forall|i: int| 0 <= i < junk.len() ==> #[trigger] junk[i] != 0x47,
        ts.len() > 0 ==> ts[0] == 0x47,
    ensures
        prepared(junk + ts, resync) == prepared(ts, resync),
        ts.len() == 0 ==> prepared(junk + ts, resync) == Err::<Seq<u8>, TsError>(
            TsError::NoSyncByte,
        ),
        0 < ts.len() < 188 && resync ==> prepared(junk + ts, resync) == Err::<Seq<u8>, TsError>(
            TsError::NoPackets,
        ),
        0 < ts.len() < 188 && !resync ==> prepared(junk + ts, resync) == Err::<Seq<u8>, TsError>(
            TsError::TooShort,
        ),
        ts.len() >= 188 ==> prepared(junk + ts, resync) is Ok,
{
    let whole = junk + ts;
    let n = junk.len() as int;
    assert forall|j: int| 0 <= j < n implies whole[j] != SYNC_BYTE by {
        assert(whole[j] == junk[j]);
    }
    if ts.len() > 0 {
        assert(whole[n] == ts[0]);
    }
    lemma_from_sync(whole, n);
    assert(whole.skip(n) =~= ts);
    lemma_from_sync(ts, 0);
    assert(ts.skip(0) =~= ts);
}

proof fn lemma_more_bytes(a: Seq<u8>, more: Seq<u8>, n: int)
    requires
        0 <= n,
        188 * n <= a.len(),
    ensures
        synced_packets(a + more, n) == synced_packets(a, n),
        synced_count(a + more, n) == synced_count(a, n),
        lost_runs(a + more, n) == lost_runs(a, n),
        leading_synced(a + more, n) == leading_synced(a, n),
    decreases n,
{
    if n > 0 {
        lemma_more_bytes(a, more, n - 1);
        assert((a + more)[188 * (n - 1)] == a[188 * (n - 1)]);
        if n > 1 {
            assert((a + more)[188 * (n - 2)] == a[188 * (n - 2)]);
        }
        assert(continuous::packet(a + more, n - 1) =~= continuous::packet(a, n - 1));
    }
}

/// Repair goes through a segment packet by packet: a further packet is kept where it begins with the
/// sync byte, and dropped where it does not, whatever came before. What is left at the end is less
/// than a packet and is dropped.
pub proof fn law_repair_keeps_each_packet_in_sync(a: Seq<u8>, p: Seq<u8>, tail: Seq<u8>)
    requires
        a.len() % 188 == 0,
        a.len() > 0,
        a[0] == 0x47,
        p.len() == 188,
        tail.len() < 188,
    ensures
        p[0] == 0x47 ==> repaired(p) == Ok::<Seq<u8>, TsError>(p),
        repaired(a) matches Ok(kept) && repaired(a + p + tail) == Ok::<Seq<u8>, TsError>(
            if p[0] == 0x47 {
                kept + p
            } else {
                kept
            },
        ),
        repaired(a + tail) == repaired(a),
{
    let n = slots(a);
    let whole = a + p + tail;
    lemma_from_sync(a, 0);
    lemma_from_sync(whole, 0);
    lemma_from_sync(a + tail, 0);
    assert(a.skip(0) =~= a && whole.skip(0) =~= whole && (a + tail).skip(0) =~= a + tail);
    assert(slots(whole) == n + 1);
    assert(slots(a + tail) == n);
    assert(whole =~= a + (p + tail));
    lemma_more_bytes(a, p + tail, n);
    lemma_more_bytes(a, tail, n);
    assert(continuous::packet(whole, n) =~= p);
    assert(whole[188 * n] == p[0]);
    if p[0] == 0x47 {
        assert(is_packet_run(p));
        law_packet_run_is_kept(p);
    }
}

/// Alignment stops at the first packet that does not begin with the sync byte: a further packet is
/// kept where it does, and all before it were, and else nothing changes.
pub proof fn law_alignment_stops_at_the_first_loss(a: Seq<u8>, p: Seq<u8>, tail: Seq<u8>)
    requires
        a.len() % 188 == 0,
        a.len() > 0,
        a[0] == 0x47,
        p.len() == 188,
        tail.len() < 188,
    ensures
        aligned(a) matches Ok(kept) && aligned(a + p + tail) == Ok::<Seq<u8>, TsError>(
            if kept == a && p[0] == 0x47 {
                a + p
            } else {
                kept
            },
        ),
        p[0] == 0x47 ==> aligned(p) == Ok::<Seq<u8>, TsError>(p),
        aligned(a + tail) == aligned(a),
{
    let n = slots(a);
    let whole = a + p + tail;
    lemma_from_sync(a, 0);
    lemma_from_sync(whole, 0);
    lemma_from_sync(a + tail, 0);
    assert(a.skip(0) =~= a && whole.skip(0) =~= whole && (a + tail).skip(0) =~= a + tail);
    assert(slots(whole) == n + 1);
    assert(slots(a + tail) == n);
    assert(whole =~= a + (p + tail));
    lemma_more_bytes(a, p + tail, n);
    lemma_more_bytes(a, tail, n);
    lemma_leading_synced(a, n);
    assert(whole[188 * n] == p[0]);
    let m = leading_synced(a, n);
    let kept = a.take(188 * m);
    assert(aligned(a) == Ok::<Seq<u8>, TsError>(kept));
    assert((a + tail).take(188 * m) =~= kept);
    if m == n {
        assert(kept =~= a);
        assert(whole.take(188 * (n + 1)) =~= a + p);
        assert(whole.take(188 * n) =~= a);
    } else {
        assert(kept.len() < a.len());
        assert(whole.take(188 * m) =~= kept);
    }
    if p[0] == 0x47 {
        assert(is_packet_run(p));
        law_packet_run_is_kept(p);
    }
}

/// The statistics of a repair: as many packets are kept as come out, and a stretch of packets out of
/// sync counts once, however long it is.
pub proof fn law_repair_counts_its_losses(
    stats: RepairStats,
    a: Seq<u8>,
    p: Seq<u8>,
    after: RepairStats,
)
    requires
        a.len() % 188 == 0,
        a.len() > 0,
        a[0] == 0x47,
        p.len() == 188,
        is_repair_of(stats, a),
        is_repair_of(after, a + p),
    ensures
        repaired(a) matches Ok(kept) && kept.len() == 188 * stats.packets_kept,
        after.packets_kept == stats.packets_kept + (if p[0] == 0x47 {
            1int
        } else {
            0
        }),
        after.packets_dropped == stats.packets_dropped + (if p[0] != 0x47 && a[a.len() - 188] == 0x47 {
            1int
        } else {
            0
        }),
        after.resync_count == after.packets_dropped,
        stats.resync_count == stats.packets_dropped,
{
    let n = slots(a);
    let whole = a + p;
    lemma_from_sync(a, 0);
    lemma_from_sync(whole, 0);
    assert(a.skip(0) =~= a && whole.skip(0) =~= whole);
    assert(slots(whole) == n + 1);
    lemma_more_bytes(a, p, n);
    lemma_synced_packets(a, n);
    assert(whole[188 * n] == p[0]);
    assert(whole[188 * (n - 1)] == a[188 * (n - 1)]);
}

/// A segment is repaired where resync is on, and cut at the first loss where it is off.
pub proof fn law_resync_chooses_repair(raw: Seq<u8>)
    ensures
        prepared(raw, true) == repaired(raw),
        prepared(raw, false) == aligned(raw),
{
}

} // verus!
