//! Continuity helpers for stitching live MPEG-TS segments.
//!
//! Origin HLS `.ts` cuts usually restart continuity counters at 0. For a
//! continuous HTTP `/mpegts` stream the counters are rewritten so that they advance
//! across segments without gaps.

use std::collections::HashMap;
use vstd::prelude::*;

verus! {

broadcast use vstd::std_specs::hash::group_hash_axioms;

/// The length of an MPEG-TS packet in bytes.
pub const TS_PACKET_SIZE: usize = 188;

/// The byte that every MPEG-TS packet begins with.
pub const SYNC_BYTE: u8 = 0x47;

/// Per-PID continuity counter state spanning an entire stitch session.
#[derive(Debug, Clone)]
pub struct ContinuityState {
    /// Last continuity_counter written for each PID that carried a payload.
    last_cc: HashMap<u16, u8>,
}

impl View for ContinuityState {
    type V = Map<u16, u8>;

    closed spec fn view(&self) -> Map<u16, u8> {
        self.last_cc@
    }
}

/// Packet `k` of a run of whole packets.
pub open spec fn packet(ts: Seq<u8>, k: int) -> Seq<u8> {
    ts.subrange(TS_PACKET_SIZE * k, TS_PACKET_SIZE * (k + 1))
}

/// The packet identifier: the low five bits of the second byte and the third byte.
pub open spec fn packet_pid(p: Seq<u8>) -> u16 {
    ((p[1] % 32) * 256 + p[2]) as u16
}

/// The packet carries a payload: the lower bit of its adaptation field control is set.
pub open spec fn has_payload(p: Seq<u8>) -> bool {
    (p[3] / 16) % 2 == 1
}

/// The continuity counter: the low four bits of the fourth byte.
pub open spec fn packet_cc(p: Seq<u8>) -> u8 {
    p[3] % 16
}

/// The packet with another continuity counter.
pub open spec fn with_cc(p: Seq<u8>, cc: u8) -> Seq<u8> {
    p.update(3, ((p[3] / 16) * 16 + cc) as u8)
}

/// The counter that the next payload packet of a PID gets: one more than the last, modulo
/// sixteen, and zero for a PID not seen yet.
pub open spec fn next_cc(last: Map<u16, u8>, pid: u16) -> u8 {
    if last.contains_key(pid) {
        ((last[pid] + 1) % 16) as u8
    } else {
        0
    }
}

/// What a packet becomes after the counters in `last`.
pub open spec fn rewritten(last: Map<u16, u8>, p: Seq<u8>) -> Seq<u8> {
    if p[0] != SYNC_BYTE {
        p
    } else if has_payload(p) {
        with_cc(p, next_cc(last, packet_pid(p)))
    } else if last.contains_key(packet_pid(p)) {
        with_cc(p, last[packet_pid(p)] % 16)
    } else {
        p
    }
}

/// The counters after a packet.
pub open spec fn counted(last: Map<u16, u8>, p: Seq<u8>) -> Map<u16, u8> {
    if p[0] == SYNC_BYTE && has_payload(p) {
        last.insert(packet_pid(p), next_cc(last, packet_pid(p)))
    } else {
        last
    }
}

/// The counters after the first `n` packets of `ts`.
pub open spec fn counters_after(last: Map<u16, u8>, ts: Seq<u8>, n: int) -> Map<u16, u8>
    decreases n,
{
    if n <= 0 {
        last
    } else {
        counted(counters_after(last, ts, n - 1), packet(ts, n - 1))
    }
}

/// `out` is `ts` with every packet rewritten in turn, from the counters in `last` on.
pub open spec fn is_rewrite(last: Map<u16, u8>, ts: Seq<u8>, out: Seq<u8>) -> bool {
    &&& out.len() == ts.len()
    &&& forall|k: int|
        0 <= k < ts.len() / TS_PACKET_SIZE as nat ==> #[trigger] packet(out, k) == rewritten(
            counters_after(last, ts, k),
            packet(ts, k),
        )
}

proof fn lemma_header_bits(b1: u8, b2: u8, b3: u8, cc: u8)
    ensures
        ((((b1 & 0x1f) as u16) << 8) | (b2 as u16)) == (b1 % 32) * 256 + b2,
        (((b3 >> 4) & 0x03) & 0x01) != 0 <==> (b3 / 16) % 2 == 1,
        cc < 16 ==> ((b3 & 0xf0) | cc) == (b3 / 16) * 16 + cc,
        cc & 0x0f == cc % 16,
{
    assert(((((b1 & 0x1f) as u16) << 8) | (b2 as u16)) == (b1 % 32) * 256 + b2) by (bit_vector);
    assert((((b3 >> 4) & 0x03) & 0x01) != 0 <==> (b3 / 16) % 2 == 1) by (bit_vector);
    assert(cc < 16 ==> ((b3 & 0xf0) | cc) == (b3 / 16) * 16 + cc) by (bit_vector);
    assert(cc & 0x0f == cc % 16) by (bit_vector);
}

impl ContinuityState {
    /// No PID seen yet.
    pub fn new() -> (state: Self)
        ensures
            state@ == Map::<u16, u8>::empty(),
    {
        ContinuityState { last_cc: HashMap::new() }
    }

    /// Rewrites continuity counters in-place so payload packets form a continuous
    /// sequence per PID across previously applied chunks.
    pub fn rewrite(&mut self, ts: &mut [u8])
        requires
            old(ts)@.len() % TS_PACKET_SIZE as nat == 0,
        ensures
            is_rewrite(old(self)@, old(ts)@, final(ts)@),
            final(self)@ == counters_after(
                old(self)@,
                old(ts)@,
                (old(ts)@.len() / TS_PACKET_SIZE as nat) as int,
            ),
    {
        let ghost source = ts@;
        let ghost start = self@;
        let ghost n = (source.len() / TS_PACKET_SIZE as nat) as int;
        let len: usize = ts.len();
        let mut at: usize = 0;
        let ghost mut k: int = 0;
        while at < len
            invariant
                0 <= k <= n,
                at == TS_PACKET_SIZE * k,
                len == TS_PACKET_SIZE * n,
                len == source.len(),
                ts@.len() == source.len(),
                self@ == counters_after(start, source, k),
                forall|j: int|
                    0 <= j < k ==> #[trigger] packet(ts@, j) == rewritten(
                        counters_after(start, source, j),
                        packet(source, j),
                    ),
                forall|i: int| at <= i < len ==> #[trigger] ts@[i] == source[i],
            decreases len - at,
        {
            let ghost before = ts@;
            let ghost last = self@;
            let ghost p = packet(source, k);
            assert(p[0] == source[at as int] && p[1] == source[at + 1] && p[2] == source[at + 2]
                && p[3] == source[at + 3]);
            assert(packet(before, k) =~= p);
            if ts[at] == SYNC_BYTE {
                let pid: u16 = (((ts[at + 1] & 0x1f) as u16) << 8) | ts[at + 2] as u16;
                let afc: u8 = (ts[at + 3] >> 4) & 0x03;
                let b3: u8 = ts[at + 3];
                proof {
                    lemma_header_bits(p[1], p[2], p[3], 0);
                    assert(pid == packet_pid(p));
                }
                if (afc & 0x01) != 0 {
                    let next: u8 = match self.last_cc.get(&pid) {
                        Some(prev) => {
                            proof {
                                lemma_header_bits(0, 0, 0, (*prev).wrapping_add(1));
                            }
                            (*prev).wrapping_add(1) & 0x0f
                        },
                        None => 0,
                    };
                    assert(next == next_cc(last, pid));
                    proof {
                        lemma_header_bits(p[1], p[2], p[3], next);
                    }
                    ts[at + 3] = (b3 & 0xf0) | next;
                    self.last_cc.insert(pid, next);
                    assert(packet(ts@, k) =~= with_cc(p, next));
                } else {
                    match self.last_cc.get(&pid) {
                        Some(prev) => {
                            // Adaptation-only: the counter must repeat the previous value.
                            proof {
                                lemma_header_bits(p[1], p[2], p[3], *prev);
                                lemma_header_bits(p[1], p[2], p[3], (*prev % 16) as u8);
                            }
                            let again: u8 = *prev & 0x0f;
                            ts[at + 3] = (b3 & 0xf0) | again;
                            assert(packet(ts@, k) =~= with_cc(p, again));
                        },
                        None => {},
                    }
                }
            }
            proof {
                assert(packet(ts@, k) == rewritten(last, p));
                assert forall|j: int| 0 <= j < k + 1 implies #[trigger] packet(ts@, j) == rewritten(
                    counters_after(start, source, j),
                    packet(source, j),
                ) by {
                    if j < k {
                        assert(packet(ts@, j) =~= packet(before, j));
                    }
                }
                k = k + 1;
            }
            at = at + TS_PACKET_SIZE;
        }
    }
}

impl Default for ContinuityState {
    fn default() -> (state: Self)
        ensures
            state@ == Map::<u16, u8>::empty(),
    {
        ContinuityState::new()
    }
}

proof fn lemma_counters_concat(last: Map<u16, u8>, a: Seq<u8>, b: Seq<u8>, na: int, m: int)
    requires
        a.len() == TS_PACKET_SIZE * na,
        0 <= m,
        TS_PACKET_SIZE * m <= b.len(),
    ensures
        counters_after(last, a + b, na + m) == counters_after(counters_after(last, a, na), b, m),
    decreases m,
{
    if m == 0 {
        lemma_counters_prefix(last, a, b, na, na);
    } else {
        lemma_counters_concat(last, a, b, na, m - 1);
        assert(packet(a + b, na + m - 1) =~= packet(b, m - 1));
    }
}

proof fn lemma_counters_prefix(last: Map<u16, u8>, a: Seq<u8>, b: Seq<u8>, na: int, m: int)
    requires
        a.len() == TS_PACKET_SIZE * na,
        0 <= m <= na,
    ensures
        counters_after(last, a + b, m) == counters_after(last, a, m),
    decreases m,
{
    if m > 0 {
        lemma_counters_prefix(last, a, b, na, m - 1);
        assert(packet(a + b, m - 1) =~= packet(a, m - 1));
    }
}

/// Rewriting a stream in chunks is rewriting it in one go: the counters run on across the cuts.
pub proof fn law_chunks_rewrite_as_one(
    last: Map<u16, u8>,
    a: Seq<u8>,
    out_a: Seq<u8>,
    b: Seq<u8>,
    out_b: Seq<u8>,
)
    requires
        a.len() % TS_PACKET_SIZE as nat == 0,
        b.len() % TS_PACKET_SIZE as nat == 0,
        is_rewrite(last, a, out_a),
        is_rewrite(
            counters_after(last, a, (a.len() / TS_PACKET_SIZE as nat) as int),
            b,
            out_b,
        ),
    ensures
        is_rewrite(last, a + b, out_a + out_b),
        counters_after(last, a + b, ((a + b).len() / TS_PACKET_SIZE as nat) as int)
            == counters_after(
            counters_after(last, a, (a.len() / TS_PACKET_SIZE as nat) as int),
            b,
            (b.len() / TS_PACKET_SIZE as nat) as int,
        ),
{
    let na = (a.len() / TS_PACKET_SIZE as nat) as int;
    let nb = (b.len() / TS_PACKET_SIZE as nat) as int;
    let mid = counters_after(last, a, na);
    assert((a + b).len() / TS_PACKET_SIZE as nat == na + nb);
    lemma_counters_concat(last, a, b, na, nb);
    assert forall|k: int| 0 <= k < na + nb implies #[trigger] packet(out_a + out_b, k) == rewritten(
        counters_after(last, a + b, k),
        packet(a + b, k),
    ) by {
        if k < na {
            lemma_counters_prefix(last, a, b, na, k);
            assert(packet(a + b, k) =~= packet(a, k));
            assert(packet(out_a + out_b, k) =~= packet(out_a, k));
        } else {
            lemma_counters_concat(last, a, b, na, k - na);
            assert(packet(a + b, k) =~= packet(b, k - na));
            assert(packet(out_a + out_b, k) =~= packet(out_b, k - na));
        }
    }
}

/// Packet `k` of `ts` is in sync, carries a payload, and belongs to `pid`.
pub open spec fn is_payload_of(ts: Seq<u8>, k: int, pid: u16) -> bool {
    &&& packet(ts, k)[0] == SYNC_BYTE
    &&& has_payload(packet(ts, k))
    &&& packet_pid(packet(ts, k)) == pid
}

proof fn lemma_counter_stays(last: Map<u16, u8>, ts: Seq<u8>, pid: u16, j: int, k: int)
    requires
        0 <= j < k,
        is_payload_of(ts, j, pid),
        forall|i: int| j < i < k ==> !is_payload_of(ts, i, pid),
    ensures
        counters_after(last, ts, k).contains_key(pid),
        counters_after(last, ts, k)[pid] == next_cc(counters_after(last, ts, j), pid),
    decreases k,
{
    if k > j + 1 {
        lemma_counter_stays(last, ts, pid, j, k - 1);
        assert(!is_payload_of(ts, k - 1, pid));
    }
}

/// Two payload packets of one PID with no other between them carry successive counters.
pub proof fn law_payload_counters_are_successive(
    last: Map<u16, u8>,
    ts: Seq<u8>,
    out: Seq<u8>,
    pid: u16,
    j: int,
    k: int,
)
    requires
        is_rewrite(last, ts, out),
        0 <= j < k < ts.len() / TS_PACKET_SIZE as nat,
        is_payload_of(ts, j, pid),
        is_payload_of(ts, k, pid),
        forall|i: int| j < i < k ==> !is_payload_of(ts, i, pid),
    ensures
        packet_cc(packet(out, k)) == (packet_cc(packet(out, j)) + 1) % 16,
{
    lemma_counter_stays(last, ts, pid, j, k);
    lemma_cc_of_with_cc(packet(ts, j), next_cc(counters_after(last, ts, j), pid));
    lemma_cc_of_with_cc(packet(ts, k), next_cc(counters_after(last, ts, k), pid));
}

/// The first payload packet of a PID goes on from the last counter given to that PID, and
/// starts at zero where there was none.
pub proof fn law_first_payload_counter(
    last: Map<u16, u8>,
    ts: Seq<u8>,
    out: Seq<u8>,
    pid: u16,
    k: int,
)
    requires
        is_rewrite(last, ts, out),
        0 <= k < ts.len() / TS_PACKET_SIZE as nat,
        is_payload_of(ts, k, pid),
        forall|i: int| 0 <= i < k ==> !is_payload_of(ts, i, pid),
    ensures
        packet_cc(packet(out, k)) == next_cc(last, pid),
{
    lemma_counter_untouched(last, ts, pid, k);
    lemma_cc_of_with_cc(packet(ts, k), next_cc(counters_after(last, ts, k), pid));
}

/// A packet without payload repeats the counter of the last payload packet of its PID.
pub proof fn law_adaptation_only_repeats_counter(
    last: Map<u16, u8>,
    ts: Seq<u8>,
    out: Seq<u8>,
    j: int,
    k: int,
)
    requires
        is_rewrite(last, ts, out),
        0 <= j < k < ts.len() / TS_PACKET_SIZE as nat,
        packet(ts, k)[0] == SYNC_BYTE,
        !has_payload(packet(ts, k)),
        is_payload_of(ts, j, packet_pid(packet(ts, k))),
        forall|i: int| j < i < k ==> !is_payload_of(ts, i, packet_pid(packet(ts, k))),
    ensures
        packet_cc(packet(out, k)) == packet_cc(packet(out, j)),
{
    let pid = packet_pid(packet(ts, k));
    lemma_counter_stays(last, ts, pid, j, k);
    lemma_cc_of_with_cc(packet(ts, j), next_cc(counters_after(last, ts, j), pid));
    lemma_cc_of_with_cc(packet(ts, k), (counters_after(last, ts, k)[pid] % 16) as u8);
}

proof fn lemma_counter_untouched(last: Map<u16, u8>, ts: Seq<u8>, pid: u16, k: int)
    requires
        0 <= k,
        forall|i: int| 0 <= i < k ==> !is_payload_of(ts, i, pid),
    ensures
        counters_after(last, ts, k).contains_key(pid) == last.contains_key(pid),
        last.contains_key(pid) ==> counters_after(last, ts, k)[pid] == last[pid],
    decreases k,
{
    if k > 0 {
        lemma_counter_untouched(last, ts, pid, k - 1);
        assert(!is_payload_of(ts, k - 1, pid));
    }
}

proof fn lemma_cc_of_with_cc(p: Seq<u8>, cc: u8)
    requires
        p.len() > 3,
        cc < 16,
    ensures
        packet_cc(with_cc(p, cc)) == cc,
        with_cc(p, cc)[3] / 16 == p[3] / 16,
{
    assert((p[3] / 16) * 16 + cc <= 255);
}

/// Nothing but continuity counters changes: every other bit of the stream is kept.
pub proof fn law_rewrite_keeps_all_but_counters(
    last: Map<u16, u8>,
    ts: Seq<u8>,
    out: Seq<u8>,
    i: int,
)
    requires
        ts.len() % TS_PACKET_SIZE as nat == 0,
        is_rewrite(last, ts, out),
        0 <= i < ts.len(),
    ensures
        i % TS_PACKET_SIZE as int != 3 ==> out[i] == ts[i],
        out[i] / 16 == ts[i] / 16,
{
    let k = i / TS_PACKET_SIZE as int;
    let j = i % TS_PACKET_SIZE as int;
    let p = packet(ts, k);
    assert(p[j] == ts[i]);
    assert(packet(out, k)[j] == out[i]);
    let state = counters_after(last, ts, k);
    lemma_cc_of_with_cc(p, next_cc(state, packet_pid(p)));
    lemma_cc_of_with_cc(p, (state[packet_pid(p)] % 16) as u8);
}

/// Packet `k` of a stream begins with the sync byte, and the low five bits of its second byte and
/// its third byte are these.
pub open spec fn is_packet_with(ts: Seq<u8>, k: int, high: u8, low: u8) -> bool {
    &&& ts[188 * k] == 0x47
    &&& ts[188 * k + 1] % 32 == high
    &&& ts[188 * k + 2] == low
}

/// Packet `k` of a stream is such a packet, and the fifth bit of its fourth byte says that it
/// carries a payload.
pub open spec fn is_payload_with(ts: Seq<u8>, k: int, high: u8, low: u8) -> bool {
    is_packet_with(ts, k, high, low) && (ts[188 * k + 3] / 16) % 2 == 1
}

/// How many of the first `n` packets are such payload packets.
pub open spec fn payloads_with(ts: Seq<u8>, n: int, high: u8, low: u8) -> nat
    decreases n,
{
    if n <= 0 {
        0
    } else if is_payload_with(ts, n - 1, high, low) {
        payloads_with(ts, n - 1, high, low) + 1
    } else {
        payloads_with(ts, n - 1, high, low)
    }
}

/// The identifier of a packet is the thirteen-bit number that the low five bits of its second byte
/// and its third byte spell, so packets that differ there have different identifiers.
pub proof fn law_identifier_is_thirteen_bits(p: Seq<u8>, q: Seq<u8>)
    ensures
        packet_pid(p) as int == (p[1] % 32) * 256 + p[2],
        packet_pid(p) < 8192,
        packet_pid(p) == packet_pid(q) <==> p[1] % 32 == q[1] % 32 && p[2] == q[2],
{
}

/// The key of an identifier.
spec fn key_of(high: u8, low: u8) -> u16 {
    (high * 256 + low) as u16
}

proof fn lemma_packet_bytes(ts: Seq<u8>, k: int)
    requires
        0 <= k,
        188 * (k + 1) <= ts.len(),
    ensures
        packet(ts, k).len() == 188,
        forall|i: int| 0 <= i < 188 ==> #[trigger] packet(ts, k)[i] == ts[188 * k + i],
{
}

proof fn lemma_one_more(n: int)
    ensures
        (n % 16 + 1) % 16 == (n + 1) % 16,
{
}

proof fn lemma_counters_by_count(last: Map<u16, u8>, ts: Seq<u8>, n: int, high: u8, low: u8)
    requires
        0 <= n,
        188 * n <= ts.len(),
        high < 32,
    ensures
        ({
            let key = key_of(high, low);
            let count = payloads_with(ts, n, high, low);
            let after = counters_after(last, ts, n);
            &&& after.contains_key(key) <==> last.contains_key(key) || count > 0
            &&& count == 0 && last.contains_key(key) ==> after[key] == last[key]
            &&& count > 0 ==> after[key] == (if last.contains_key(key) {
                (last[key] + count) % 16
            } else {
                (count - 1) % 16
            })
        }),
    decreases n,
{
    if n > 0 {
        lemma_counters_by_count(last, ts, n - 1, high, low);
        lemma_packet_bytes(ts, n - 1);
    }
}

/// Every identifier has its own counter. The payload packets with one and the same identifier are
/// counted in their order, modulo sixteen: in a fresh session from zero, and after other chunks on
/// from the last counter that this identifier got. Packets with other identifiers do not matter.
pub proof fn law_payload_packets_are_counted_per_identifier(
    last: Map<u16, u8>,
    ts: Seq<u8>,
    out: Seq<u8>,
    k: int,
    high: u8,
    low: u8,
)
    requires
        is_rewrite(last, ts, out),
        0 <= k,
        188 * (k + 1) <= ts.len(),
        is_payload_with(ts, k, high, low),
    ensures
        ({
            let key = (high * 256 + low) as u16;
            let before = payloads_with(ts, k, high, low);
            out[188 * k + 3] % 16 == (if last.contains_key(key) {
                (last[key] + 1 + before) % 16
            } else {
                before as int % 16
            })
        }),
{
    lemma_packet_bytes(ts, k);
    lemma_packet_bytes(out, k);
    lemma_counters_by_count(last, ts, k, high, low);
    let state = counters_after(last, ts, k);
    assert(packet(out, k) == rewritten(state, packet(ts, k)));
    let key = key_of(high, low);
    let before = payloads_with(ts, k, high, low) as int;
    assert(packet_pid(packet(ts, k)) == key);
    lemma_cc_of_with_cc(packet(ts, k), next_cc(state, key));
    lemma_one_more(last[key] + before);
    lemma_one_more(before - 1);
    assert(packet(out, k)[3] == out[188 * k + 3]);
    assert(out[188 * k + 3] % 16 == next_cc(state, key));
}

/// A packet without payload repeats the counter of the payload packet with its identifier that came
/// last, in this chunk or before it. Where none came, and where a packet is out of sync, it stays
/// as it is.
pub proof fn law_other_packets_repeat_the_counter(
    last: Map<u16, u8>,
    ts: Seq<u8>,
    out: Seq<u8>,
    k: int,
    high: u8,
    low: u8,
)
    requires
        is_rewrite(last, ts, out),
        0 <= k,
        188 * (k + 1) <= ts.len(),
        ts[188 * k + 1] % 32 == high,
        ts[188 * k + 2] == low,
        !is_payload_with(ts, k, high, low),
    ensures
        ({
            let key = (high * 256 + low) as u16;
            let before = payloads_with(ts, k, high, low);
            if ts[188 * k] != 0x47 || (before == 0 && !last.contains_key(key)) {
                out[188 * k + 3] == ts[188 * k + 3]
            } else {
                out[188 * k + 3] % 16 == (if last.contains_key(key) {
                    (last[key] + before) % 16
                } else {
                    (before - 1) % 16
                })
            }
        }),
{
    lemma_packet_bytes(ts, k);
    lemma_packet_bytes(out, k);
    lemma_counters_by_count(last, ts, k, high, low);
    let state = counters_after(last, ts, k);
    assert(packet(out, k) == rewritten(state, packet(ts, k)));
    lemma_cc_of_with_cc(packet(ts, k), (state[key_of(high, low)] % 16) as u8);
    assert(packet(out, k)[3] == out[188 * k + 3]);
}

/// What a session remembers after a chunk: for each identifier the counter of its last payload
/// packet, so that the next chunk goes on from there.
pub proof fn law_session_remembers_the_last_counters(
    last: Map<u16, u8>,
    ts: Seq<u8>,
    high: u8,
    low: u8,
)
    requires
        ts.len() % 188 == 0,
        high < 32,
    ensures
        ({
            let key = (high * 256 + low) as u16;
            let n = (ts.len() / 188) as int;
            let count = payloads_with(ts, n, high, low);
            let after = counters_after(last, ts, n);
            &&& after.contains_key(key) <==> last.contains_key(key) || count > 0
            &&& count == 0 && last.contains_key(key) ==> after[key] == last[key]
            &&& count > 0 ==> after[key] == (if last.contains_key(key) {
                (last[key] + count) % 16
            } else {
                (count - 1) % 16
            })
        }),
{
    lemma_counters_by_count(last, ts, (ts.len() / 188) as int, high, low);
}

} // verus!
