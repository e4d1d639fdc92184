//! Which transport streams are safe to hand to the demultiplexer.
//!
//! The demultiplexer calls itself once for every empty unit of a video stream, and its arithmetic
//! overflows on some parameter sets and on long runs of zeros. A [`Screen`] reads a stream ahead
//! of it, finds the packets that it finds, and tells the streams on which that could happen. It
//! takes more streams for video than the demultiplexer does, never fewer.

use crate::demux::tables;
use crate::demux::tables::{mark_streams, no_pid_vec, pid_at, read_table, PIDS};
use crate::demux::units;
use crate::demux::units::PidScreen;
use crate::mpegts::continuous;
use crate::mpegts::continuous::{SYNC_BYTE, TS_PACKET_SIZE};
use vstd::prelude::*;

verus! {

/// The stream type of H.264 video.
pub const AVC_STREAM: u8 = 0x1b;

/// The stream type of H.265 video.
pub const HEVC_STREAM: u8 = 0x24;

/// The size of a packet with parity bytes behind it.
pub const PARITY_PACKET_SIZE: usize = 204;

/// How many sync bytes in a row tell where packets begin.
pub const LOCK_SYNCS: usize = 5;

/// How many bytes are kept where no packet was found.
pub const KEPT_BYTES: usize = 1020;

/// Why a transport stream is refused.
#[derive(Debug, Clone, Copy, PartialEq, Eq, Structural)]
pub enum DemuxError {
    /// H.264 video that is not safe to decode.
    UnsafeAvc,
    /// H.265 video that is not safe to decode.
    UnsafeHevc,
}

/// The message for a refusal.
pub open spec fn demux_error_text(e: DemuxError) -> Seq<char> {
    match e {
        DemuxError::UnsafeAvc => "malformed H.264 video stream"@,
        DemuxError::UnsafeHevc => "malformed H.265 video stream"@,
    }
}

impl DemuxError {
    /// The message for the refusal.
    pub fn message(self) -> (text: &'static str)
        ensures
            text@ == demux_error_text(self),
    {
        match self {
            DemuxError::UnsafeAvc => "malformed H.264 video stream",
            DemuxError::UnsafeHevc => "malformed H.265 video stream",
        }
    }
}

/// How far apart packets begin.
#[derive(Debug, Clone, Copy, PartialEq, Eq, Structural)]
pub enum Stride {
    /// One packet after the other.
    Plain,
    /// Each packet has parity bytes behind it.
    Parity,
}

/// The stride in bytes.
pub open spec fn stride_size(stride: Stride) -> int {
    match stride {
        Stride::Plain => TS_PACKET_SIZE as int,
        Stride::Parity => PARITY_PACKET_SIZE as int,
    }
}

/// What is known of a transport stream.
#[verifier::ext_equal]
pub ghost struct ScreenView {
    /// What is known of each packet identifier.
    pub pids: Seq<units::PidView>,
    /// The identifiers that carry tables of streams.
    pub tables: Seq<bool>,
    /// The identifiers that may carry H.264 video.
    pub avc: Seq<bool>,
    /// The identifiers that may carry H.265 video.
    pub hevc: Seq<bool>,
    /// The section of the program association table that came in part.
    pub part: Seq<u8>,
    /// The bytes that wait for more.
    pub rest: Seq<u8>,
    /// How far apart packets begin, where that is known.
    pub stride: Option<Stride>,
}

/// Nothing came yet.
pub open spec fn blank() -> ScreenView {
    ScreenView {
        pids: Seq::new(PIDS as nat, |p: int| units::blank_pid()),
        tables: tables::no_pids(),
        avc: tables::no_pids(),
        hevc: tables::no_pids(),
        part: Seq::empty(),
        rest: Seq::empty(),
        stride: None,
    }
}

/// Something is known of every packet identifier.
pub open spec fn is_whole(s: ScreenView) -> bool {
    &&& s.pids.len() == PIDS
    &&& s.tables.len() == PIDS
    &&& s.avc.len() == PIDS
    &&& s.hevc.len() == PIDS
}

/// The packet begins a payload unit.
pub open spec fn begins_unit(p: Seq<u8>) -> bool {
    (p[1] / 64) % 2 == 1
}

/// Where the payload of a packet begins: behind the header and the adaptation field.
pub open spec fn payload_start(p: Seq<u8>) -> int {
    if (p[3] / 32) % 2 == 1 {
        5 + p[4]
    } else {
        4
    }
}

/// The payload of a packet; empty where it has none.
pub open spec fn payload_of(p: Seq<u8>) -> Seq<u8> {
    if continuous::has_payload(p) && payload_start(p) < TS_PACKET_SIZE {
        p.subrange(payload_start(p), TS_PACKET_SIZE as int)
    } else {
        Seq::empty()
    }
}

/// A payload of a stream or a table of streams.
pub open spec fn payload_read(
    s: ScreenView,
    pid: int,
    payload: Seq<u8>,
    begins: bool,
) -> ScreenView {
    let v = s.pids[pid];
    if s.tables[pid] {
        let window = units::window_of(v, payload, begins);
        ScreenView {
            pids: s.pids.update(pid, units::window_read(v, payload, begins)),
            avc: tables::with_streams(s.avc, window, AVC_STREAM, window.len() - 2),
            hevc: tables::with_streams(s.hevc, window, HEVC_STREAM, window.len() - 2),
            ..s
        }
    } else {
        ScreenView { pids: s.pids.update(pid, units::payload_read(v, payload, begins)), ..s }
    }
}

/// One packet.
pub open spec fn packet_read(s: ScreenView, p: Seq<u8>) -> ScreenView {
    let pid = tables::spelled_pid(p[1], p[2]);
    let payload = payload_of(p);
    if payload.len() == 0 {
        s
    } else if pid != 0 {
        payload_read(s, pid, payload, begins_unit(p))
    } else {
        let (named, part) = tables::table_read(s.tables, s.part, payload, begins_unit(p));
        ScreenView { tables: named, part, ..s }
    }
}

/// A sync byte stands at every stride from a place on, as often as tells that packets begin there.
pub open spec fn locks(bytes: Seq<u8>, at: int, stride: Stride) -> bool {
    forall|k: int|
        0 <= k < LOCK_SYNCS ==> 0 <= at + k * stride_size(stride) < bytes.len()
            && #[trigger] bytes[at + k * stride_size(stride)] == SYNC_BYTE
}

/// The first place from `at` on where packets begin, and how far apart they do.
pub open spec fn lock_from(bytes: Seq<u8>, at: int) -> Option<(int, Stride)>
    decreases bytes.len() - at,
{
    if at < 0 || at >= bytes.len() {
        None
    } else if locks(bytes, at, Stride::Plain) {
        Some((at, Stride::Plain))
    } else if locks(bytes, at, Stride::Parity) {
        Some((at, Stride::Parity))
    } else {
        lock_from(bytes, at + 1)
    }
}

/// Where packets are found to begin, a byte stands.
pub proof fn lemma_lock_stands_within(bytes: Seq<u8>, at: int)
    ensures
        lock_from(bytes, at) matches Some(found) ==> at <= found.0 < bytes.len() && 0 <= at,
    decreases bytes.len() - at,
{
    if 0 <= at < bytes.len() {
        lemma_lock_stands_within(bytes, at + 1);
    }
}

/// The last of some bytes.
pub open spec fn kept(bytes: Seq<u8>) -> Seq<u8> {
    if bytes.len() > KEPT_BYTES {
        bytes.skip(bytes.len() - KEPT_BYTES)
    } else {
        bytes
    }
}

/// The packets among the bytes that wait, as far as they are whole.
pub open spec fn run(s: ScreenView) -> ScreenView
    decreases
            s.rest.len(),
            if s.stride is None {
                1int
            } else {
                0
            },
{
    match s.stride {
        None => match lock_from(s.rest, 0) {
            None => ScreenView { rest: kept(s.rest), ..s },
            Some((at, stride)) => {
                proof {
                    lemma_lock_stands_within(s.rest, 0);
                }
                run(ScreenView { rest: s.rest.skip(at), stride: Some(stride), ..s })
            },
        },
        Some(stride) => if s.rest.len() < stride_size(stride) {
            s
        } else if s.rest[0] == SYNC_BYTE {
            run(
                ScreenView {
                    rest: s.rest.skip(stride_size(stride)),
                    ..packet_read(s, s.rest.take(TS_PACKET_SIZE as int))
                },
            )
        } else {
            run(ScreenView { rest: s.rest.skip(1), stride: None, ..s })
        },
    }
}

/// More bytes.
pub open spec fn taken(s: ScreenView, data: Seq<u8>) -> ScreenView {
    run(ScreenView { rest: s.rest + data, ..s })
}

/// The end of the input. What came last of each stream might end here.
pub open spec fn ended(s: ScreenView) -> ScreenView {
    ScreenView { pids: s.pids.map_values(|v: units::PidView| units::nal_checked(v)), ..s }
}

/// Identifier `p` may carry H.264 video that is not safe to decode.
pub open spec fn has_unsafe_avc(s: ScreenView, p: int) -> bool {
    0 <= p < PIDS && s.avc[p] && units::unsafe_avc(s.pids[p])
}

/// Identifier `p` may carry H.265 video that is not safe to decode.
pub open spec fn has_unsafe_hevc(s: ScreenView, p: int) -> bool {
    0 <= p < PIDS && s.hevc[p] && units::unsafe_hevc(s.pids[p])
}

/// Why a transport stream is refused; nothing where it is not.
pub open spec fn refusal(s: ScreenView) -> Option<DemuxError> {
    if exists|p: int| has_unsafe_avc(s, p) {
        Some(DemuxError::UnsafeAvc)
    } else if exists|p: int| has_unsafe_hevc(s, p) {
        Some(DemuxError::UnsafeHevc)
    } else {
        None
    }
}

/// Reads a transport stream ahead of the demultiplexer.
pub struct Screen {
    pids: Vec<PidScreen>,
    tables: Vec<bool>,
    avc: Vec<bool>,
    hevc: Vec<bool>,
    part: Vec<u8>,
    rest: Vec<u8>,
    stride: Option<Stride>,
}

impl View for Screen {
    type V = ScreenView;

    closed spec fn view(&self) -> ScreenView {
        ScreenView {
            pids: self.pids@.map_values(|p: PidScreen| p@),
            tables: self.tables@,
            avc: self.avc@,
            hevc: self.hevc@,
            part: self.part@,
            rest: self.rest@,
            stride: self.stride,
        }
    }
}

fn size_of_stride(stride: Stride) -> (size: usize)
    ensures
        size == stride_size(stride),
        TS_PACKET_SIZE <= size <= PARITY_PACKET_SIZE,
{
    match stride {
        Stride::Plain => TS_PACKET_SIZE,
        Stride::Parity => PARITY_PACKET_SIZE,
    }
}

fn try_lock(buf: &Vec<u8>, head: usize, at: usize, stride: Stride) -> (yes: bool)
    requires
        head + at < buf@.len(),
    ensures
        yes == locks(buf@.skip(head as int), at as int, stride),
{
    let ghost bytes = buf@.skip(head as int);
    let size: usize = size_of_stride(stride);
    let len: usize = buf.len() - head;
    if len - at <= 4 * size {
        assert(!locks(bytes, at as int, stride)) by {
            if locks(bytes, at as int, stride) {
                let last = bytes[at + 4 * stride_size(stride)];
            }
        }
        return false;
    }
    let first: usize = head + at;
    let yes: bool = buf[first] == SYNC_BYTE && buf[first + size] == SYNC_BYTE && buf[first + 2
        * size] == SYNC_BYTE && buf[first + 3 * size] == SYNC_BYTE && buf[first + 4 * size]
        == SYNC_BYTE;
    proof {
        assert forall|k: int| 0 <= k < LOCK_SYNCS implies 0 <= at + k * stride_size(stride)
            < bytes.len() && #[trigger] bytes[at + k * stride_size(stride)] == buf@[first + k
            * size] by {
            assert(k == 0 || k == 1 || k == 2 || k == 3 || k == 4);
        }
        if yes {
            assert forall|k: int| 0 <= k < LOCK_SYNCS implies #[trigger] bytes[at + k
                * stride_size(stride)] == SYNC_BYTE by {
                assert(k == 0 || k == 1 || k == 2 || k == 3 || k == 4);
            }
        } else if locks(bytes, at as int, stride) {
            assert(bytes[at + 0 * stride_size(stride)] == SYNC_BYTE);
            assert(bytes[at + 1 * stride_size(stride)] == SYNC_BYTE);
            assert(bytes[at + 2 * stride_size(stride)] == SYNC_BYTE);
            assert(bytes[at + 3 * stride_size(stride)] == SYNC_BYTE);
            assert(bytes[at + 4 * stride_size(stride)] == SYNC_BYTE);
        }
    }
    yes
}

fn find_lock(buf: &Vec<u8>, head: usize) -> (found: Option<(usize, Stride)>)
    requires
        head <= buf@.len(),
    ensures
        match found {
            Some((at, stride)) => lock_from(buf@.skip(head as int), 0) == Some((at as int, stride))
                && head + at < buf@.len(),
            None => lock_from(buf@.skip(head as int), 0) is None,
        },
{
    let ghost bytes = buf@.skip(head as int);
    let len: usize = buf.len() - head;
    let mut at: usize = 0;
    while at < len
        invariant
            head + len == buf@.len(),
            bytes == buf@.skip(head as int),
            bytes.len() == len,
            at <= len,
            lock_from(bytes, 0) == lock_from(bytes, at as int),
        decreases len - at,
    {
        if try_lock(buf, head, at, Stride::Plain) {
            return Some((at, Stride::Plain));
        }
        if try_lock(buf, head, at, Stride::Parity) {
            return Some((at, Stride::Parity));
        }
        at = at + 1;
    }
    None
}

fn bytes_from(buf: &Vec<u8>, head: usize) -> (bytes: Vec<u8>)
    requires
        head <= buf@.len(),
    ensures
        bytes@ == buf@.skip(head as int),
{
    let mut bytes: Vec<u8> = Vec::new();
    let mut i: usize = head;
    while i < buf.len()
        invariant
            head <= i <= buf@.len(),
            bytes@ == buf@.subrange(head as int, i as int),
        decreases buf@.len() - i,
    {
        bytes.push(buf[i]);
        assert(bytes@ =~= buf@.subrange(head as int, i + 1));
        i = i + 1;
    }
    assert(bytes@ =~= buf@.skip(head as int));
    bytes
}

proof fn lemma_rest_does_not_matter(s: ScreenView, rest: Seq<u8>, p: Seq<u8>)
    ensures
        packet_read(ScreenView { rest, ..s }, p) == (ScreenView { rest, ..packet_read(s, p) }),
{
}

impl Screen {
    /// A screen to which nothing came yet.
    pub fn new() -> (screen: Self)
        ensures
            screen@ == blank(),
    {
        let mut pids: Vec<PidScreen> = Vec::new();
        let mut i: usize = 0;
        while i < PIDS
            invariant
                i <= PIDS,
                pids@.len() == i,
                forall|j: int| 0 <= j < i ==> (#[trigger] pids@[j])@ == units::blank_pid(),
            decreases PIDS - i,
        {
            pids.push(PidScreen::new());
            i = i + 1;
        }
        let screen: Screen = Screen {
            pids,
            tables: no_pid_vec(),
            avc: no_pid_vec(),
            hevc: no_pid_vec(),
            part: Vec::new(),
            rest: Vec::new(),
            stride: None,
        };
        assert(screen@ =~= blank());
        screen
    }

    fn read_payload(&mut self, pid: usize, buf: &Vec<u8>, from: usize, to: usize, begins: bool)
        requires
            is_whole(old(self)@),
            pid < PIDS,
            from < to <= buf@.len(),
        ensures
            is_whole(final(self)@),
            final(self)@ == payload_read(
                old(self)@,
                pid as int,
                buf@.subrange(from as int, to as int),
                begins,
            ),
    {
        let ghost payload = buf@.subrange(from as int, to as int);
        let ghost s = self@;
        let mut now: PidScreen = PidScreen::new();
        std::mem::swap(&mut now, &mut self.pids[pid]);
        assert(now@ == s.pids[pid as int]);
        if self.tables[pid] {
            let window: Vec<u8> = now.read_window(buf, from, to, begins);
            mark_streams(&mut self.avc, &window, AVC_STREAM);
            mark_streams(&mut self.hevc, &window, HEVC_STREAM);
        } else {
            now.read_payload(buf, from, to, begins);
        }
        self.pids.set(pid, now);
        assert(self@.pids =~= payload_read(s, pid as int, payload, begins).pids);
    }

    fn read_packet(&mut self, buf: &Vec<u8>, at: usize)
        requires
            is_whole(old(self)@),
            at + TS_PACKET_SIZE <= buf@.len(),
        ensures
            is_whole(final(self)@),
            final(self)@ == packet_read(
                old(self)@,
                buf@.subrange(at as int, at + TS_PACKET_SIZE),
            ),
    {
        let ghost p = buf@.subrange(at as int, at + TS_PACKET_SIZE);
        assert(at + TS_PACKET_SIZE <= buf.len());
        let to: usize = at + TS_PACKET_SIZE;
        let start: usize = if (buf[at + 3] / 32) % 2 == 1 {
            5 + buf[at + 4] as usize
        } else {
            4
        };
        assert(start == payload_start(p));
        if (buf[at + 3] / 16) % 2 != 1 || start >= TS_PACKET_SIZE {
            return;
        }
        let from: usize = at + start;
        assert(buf@.subrange(from as int, to as int) =~= payload_of(p));
        let begins: bool = (buf[at + 1] / 64) % 2 == 1;
        let pid: usize = pid_at(buf[at + 1], buf[at + 2]);
        if pid != 0 {
            self.read_payload(pid, buf, from, to, begins);
        } else {
            let mut before: Vec<u8> = Vec::new();
            std::mem::swap(&mut before, &mut self.part);
            self.part = read_table(&mut self.tables, before, buf, from, to, begins);
        }
    }

    /// Look for packets, or read one, from `head` on. The result says from where to go on, and
    /// whether there may be more.
    fn step(&mut self, buf: &Vec<u8>, head: usize) -> (next: (usize, bool))
        requires
            is_whole(old(self)@),
            head <= buf@.len(),
        ensures
            is_whole(final(self)@),
            head <= next.0 <= buf@.len(),
            ({
                let before = ScreenView { rest: buf@.skip(head as int), ..old(self)@ };
                let after = ScreenView { rest: buf@.skip(next.0 as int), ..final(self)@ };
                if next.1 {
                    &&& run(before) == run(after)
                    &&& head < next.0 || (before.stride is None && after.stride is Some)
                } else {
                    run(before) == after
                }
            }),
    {
        let ghost rest = buf@.skip(head as int);
        match self.stride {
            None => match find_lock(buf, head) {
                None => {
                    let len: usize = buf.len() - head;
                    let from: usize = if len > KEPT_BYTES {
                        head + (len - KEPT_BYTES)
                    } else {
                        head
                    };
                    assert(buf@.skip(from as int) =~= kept(rest));
                    (from, false)
                },
                Some((at, stride)) => {
                    self.stride = Some(stride);
                    assert(buf@.skip(head + at) =~= rest.skip(at as int));
                    assert(head + at < buf.len());
                    (head + at, true)
                },
            },
            Some(stride) => {
                let size: usize = size_of_stride(stride);
                if buf.len() - head < size {
                    return (head, false);
                }
                assert(rest[0] == buf@[head as int]);
                if buf[head] == SYNC_BYTE {
                    assert(rest.take(TS_PACKET_SIZE as int) =~= buf@.subrange(
                        head as int,
                        head + TS_PACKET_SIZE,
                    ));
                    assert(rest.skip(size as int) =~= buf@.skip(head + size));
                    proof {
                        lemma_rest_does_not_matter(
                            self@,
                            rest,
                            buf@.subrange(head as int, head + TS_PACKET_SIZE),
                        );
                    }
                    self.read_packet(buf, head);
                    (head + size, true)
                } else {
                    assert(rest.skip(1) =~= buf@.skip(head + 1));
                    self.stride = None;
                    (head + 1, true)
                }
            },
        }
    }

    /// Read more bytes.
    pub fn take(&mut self, data: &[u8])
        requires
            is_whole(old(self)@),
        ensures
            is_whole(final(self)@),
            final(self)@ == taken(old(self)@, data@),
    {
        let mut buf: Vec<u8> = Vec::new();
        std::mem::swap(&mut buf, &mut self.rest);
        buf.extend_from_slice(data);
        let mut head: usize = 0;
        let mut more: bool = true;
        let ghost goal = taken(old(self)@, data@);
        assert(buf@.skip(0) =~= old(self)@.rest + data@);
        while more
            invariant
                is_whole(self@),
                head <= buf@.len(),
                more ==> goal == run(ScreenView { rest: buf@.skip(head as int), ..self@ }),
                !more ==> goal == (ScreenView { rest: buf@.skip(head as int), ..self@ }),
            decreases
                    buf@.len() - head,
                    if !more {
                        0int
                    } else if self@.stride is None {
                        2
                    } else {
                        1
                    },
        {
            let (next, again): (usize, bool) = self.step(&buf, head);
            head = next;
            more = again;
        }
        self.rest = bytes_from(&buf, head);
    }

    /// The input ends.
    pub fn end(&mut self)
        requires
            is_whole(old(self)@),
        ensures
            is_whole(final(self)@),
            final(self)@ == ended(old(self)@),
    {
        let mut p: usize = 0;
        while p < PIDS
            invariant
                p <= PIDS,
                is_whole(self@),
                self@ == (ScreenView { pids: self@.pids, ..old(self)@ }),
                forall|q: int| 0 <= q < p ==> #[trigger] self@.pids[q] == units::nal_checked(
                    old(self)@.pids[q],
                ),
                forall|q: int| p <= q < PIDS ==> #[trigger] self@.pids[q] == old(self)@.pids[q],
            decreases PIDS - p,
        {
            let ghost before = self@.pids;
            let mut now: PidScreen = PidScreen::new();
            std::mem::swap(&mut now, &mut self.pids[p]);
            assert(now@ == before[p as int]);
            now.check_nal();
            self.pids.set(p, now);
            assert(self@.pids =~= before.update(p as int, units::nal_checked(before[p as int])));
            p = p + 1;
        }
        assert(self@.pids =~= ended(old(self)@).pids);
    }

    /// Why the stream is refused; nothing where it is not.
    pub fn refused(&self) -> (error: Option<DemuxError>)
        requires
            is_whole(self@),
        ensures
            error == refusal(self@),
    {
        let ghost s = self@;
        let mut hevc: bool = false;
        let mut p: usize = 0;
        while p < PIDS
            invariant
                p <= PIDS,
                is_whole(s),
                s == self@,
                forall|q: int| 0 <= q < p ==> !has_unsafe_avc(s, q),
                hevc == (exists|q: int| q < p && has_unsafe_hevc(s, q)),
            decreases PIDS - p,
        {
            assert(s.pids[p as int] == self.pids@[p as int]@);
            if self.avc[p] && self.pids[p].is_unsafe_avc() {
                assert(has_unsafe_avc(s, p as int));
                return Some(DemuxError::UnsafeAvc);
            }
            if self.hevc[p] && self.pids[p].is_unsafe_hevc() {
                assert(has_unsafe_hevc(s, p as int));
                hevc = true;
            }
            p = p + 1;
        }
        if hevc {
            Some(DemuxError::UnsafeHevc)
        } else {
            None
        }
    }
}

/// What may be video that is not safe to decode under identifier `p` in `a` may be so in `b`.
pub open spec fn is_stricter_at(b: ScreenView, a: ScreenView, p: int) -> bool {
    &&& a.avc[p] ==> b.avc[p]
    &&& a.hevc[p] ==> b.hevc[p]
    &&& units::unsafe_avc(a.pids[p]) ==> units::unsafe_avc(b.pids[p])
    &&& units::unsafe_hevc(a.pids[p]) ==> units::unsafe_hevc(b.pids[p])
}

/// Whatever may be video that is not safe to decode in `a` may be so in `b`.
pub open spec fn is_stricter(b: ScreenView, a: ScreenView) -> bool {
    forall|p: int| 0 <= p < PIDS ==> #[trigger] is_stricter_at(b, a, p)
}

proof fn lemma_stricter_twice(c: ScreenView, b: ScreenView, a: ScreenView)
    requires
        is_stricter(c, b),
        is_stricter(b, a),
    ensures
        is_stricter(c, a),
{
    assert forall|p: int| 0 <= p < PIDS implies #[trigger] is_stricter_at(c, a, p) by {
        assert(is_stricter_at(c, b, p));
        assert(is_stricter_at(b, a, p));
    }
}

proof fn lemma_packet_is_stricter(s: ScreenView, p: Seq<u8>)
    requires
        is_whole(s),
    ensures
        is_whole(packet_read(s, p)),
        is_stricter(packet_read(s, p), s),
{
    let pid = tables::spelled_pid(p[1], p[2]);
    let payload = payload_of(p);
    let begins = begins_unit(p);
    let next = packet_read(s, p);
    if payload.len() > 0 && pid != 0 {
        let window = units::window_of(s.pids[pid], payload, begins);
        units::law_unsafe_stays_unsafe(s.pids[pid], payload, begins);
        if s.tables[pid] {
            tables::lemma_streams_stay(s.avc, window, AVC_STREAM, window.len() - 2);
            tables::lemma_streams_stay(s.hevc, window, HEVC_STREAM, window.len() - 2);
        }
    } else if payload.len() > 0 {
        tables::lemma_table_keeps_size(s.tables, s.part, payload, begins);
    }
    assert forall|q: int| 0 <= q < PIDS implies #[trigger] is_stricter_at(next, s, q) by {
        if q != pid {
            assert(next.pids[q] == s.pids[q]);
        }
    }
}

proof fn lemma_same_streams(b: ScreenView, a: ScreenView)
    requires
        b.pids == a.pids,
        b.avc == a.avc,
        b.hevc == a.hevc,
    ensures
        is_stricter(b, a),
{
}

proof fn lemma_run_is_stricter(s: ScreenView)
    requires
        is_whole(s),
    ensures
        is_whole(run(s)),
        is_stricter(run(s), s),
    decreases
            s.rest.len(),
            if s.stride is None {
                1int
            } else {
                0
            },
{
    match s.stride {
        None => {
            lemma_lock_stands_within(s.rest, 0);
            if let Some((at, stride)) = lock_from(s.rest, 0) {
                let next = ScreenView { rest: s.rest.skip(at), stride: Some(stride), ..s };
                lemma_run_is_stricter(next);
                lemma_same_streams(next, s);
                lemma_stricter_twice(run(next), next, s);
            } else {
                lemma_same_streams(run(s), s);
            }
        },
        Some(stride) => {
            if s.rest.len() >= stride_size(stride) {
                if s.rest[0] == SYNC_BYTE {
                    let p = s.rest.take(TS_PACKET_SIZE as int);
                    let read = packet_read(s, p);
                    let next = ScreenView { rest: s.rest.skip(stride_size(stride)), ..read };
                    lemma_packet_is_stricter(s, p);
                    lemma_same_streams(next, read);
                    lemma_stricter_twice(next, read, s);
                    lemma_run_is_stricter(next);
                    lemma_stricter_twice(run(next), next, s);
                } else {
                    let next = ScreenView { rest: s.rest.skip(1), stride: None, ..s };
                    lemma_run_is_stricter(next);
                    lemma_same_streams(next, s);
                    lemma_stricter_twice(run(next), next, s);
                }
            } else {
                lemma_same_streams(run(s), s);
            }
        },
    }
}

proof fn lemma_stricter_refuses(b: ScreenView, a: ScreenView)
    requires
        is_stricter(b, a),
        refusal(a) is Some,
    ensures
        refusal(b) is Some,
{
    if exists|p: int| has_unsafe_avc(a, p) {
        let p = choose|p: int| has_unsafe_avc(a, p);
        assert(is_stricter_at(b, a, p));
        assert(has_unsafe_avc(b, p));
    } else {
        let p = choose|p: int| has_unsafe_hevc(a, p);
        assert(is_stricter_at(b, a, p));
        assert(has_unsafe_hevc(b, p));
    }
}

/// A stream that is refused stays refused, whatever comes, and where it ends.
pub proof fn law_refused_stream_stays_refused(s: ScreenView, data: Seq<u8>)
    requires
        is_whole(s),
    ensures
        is_whole(taken(s, data)),
        is_whole(ended(s)),
        refusal(s) is Some ==> refusal(taken(s, data)) is Some && refusal(ended(s)) is Some,
{
    let start = ScreenView { rest: s.rest + data, ..s };
    lemma_run_is_stricter(start);
    lemma_same_streams(start, s);
    lemma_stricter_twice(run(start), start, s);
    assert forall|p: int| 0 <= p < PIDS implies #[trigger] is_stricter_at(ended(s), s, p) by {
        units::law_unsafe_stays_unsafe(s.pids[p], Seq::empty(), false);
    }
    if refusal(s) is Some {
        lemma_stricter_refuses(taken(s, data), s);
        lemma_stricter_refuses(ended(s), s);
    }
}

/// Where no table names a video stream, nothing is refused.
pub proof fn law_stream_without_video_is_not_refused(s: ScreenView)
    requires
        s.avc == tables::no_pids(),
        s.hevc == tables::no_pids(),
    ensures
        refusal(s) is None,
{
}

/// The payload of a packet stands behind its header of four bytes and, where the third flag of the
/// fourth byte says that there is one, behind an adaptation field, which tells its own length. The
/// fourth flag says that there is a payload at all.
pub proof fn law_payload_stands_behind_the_header(
    p: Seq<u8>,
    scrambling: int,
    field: bool,
    payload: bool,
    counter: int,
)
    requires
        p.len() == 188,
        0 <= scrambling < 4,
        0 <= counter < 16,
        p[3] == 64 * scrambling + (if field {
            32int
        } else {
            0
        }) + (if payload {
            16int
        } else {
            0
        }) + counter,
    ensures
        !payload ==> payload_of(p).len() == 0,
        payload && !field ==> payload_of(p) == p.skip(4),
        payload && field && p[4] <= 182 ==> payload_of(p) == p.skip(5 + p[4]),
        payload && field && p[4] > 182 ==> payload_of(p).len() == 0,
{
    assert(p.subrange(4, 188) =~= p.skip(4));
    if p[4] <= 182 {
        assert(p.subrange(5 + p[4], 188) =~= p.skip(5 + p[4]));
    }
}

/// The second flag of the second byte says that a unit begins in the packet.
pub proof fn law_second_flag_begins_a_unit(p: Seq<u8>, error: int, begins: bool, rest: int)
    requires
        p.len() == 188,
        0 <= error < 2,
        0 <= rest < 64,
        p[1] == 128 * error + (if begins {
            64int
        } else {
            0
        }) + rest,
    ensures
        begins_unit(p) == begins,
{
}

/// A packet says something of its own identifier alone: what is known of the others stays. One
/// without a payload says nothing.
pub proof fn law_packet_speaks_of_its_identifier(s: ScreenView, p: Seq<u8>, other: int)
    requires
        is_whole(s),
        0 <= other < 8192,
    ensures
        ({
            let pid = tables::spelled_pid(p[1], p[2]);
            let after = packet_read(s, p);
            &&& payload_of(p).len() == 0 ==> after == s
            &&& other != pid ==> after.pids[other] == s.pids[other]
            &&& pid != 0 ==> after.tables == s.tables && after.part == s.part
            &&& pid == 0 ==> after.pids == s.pids && after.avc == s.avc && after.hevc == s.hevc
            &&& pid == 0 && payload_of(p).len() > 0 ==> (after.tables, after.part)
                == tables::table_read(s.tables, s.part, payload_of(p), begins_unit(p))
            &&& after.rest == s.rest && after.stride == s.stride
        }),
{
}

/// The packets of an identifier that a program association table names carry tables of streams, in
/// which the stream types of H.264 and H.265 video stand before the identifiers that may carry
/// such video. The packets of any other identifier carry a stream.
pub proof fn law_named_identifiers_carry_tables(s: ScreenView, p: Seq<u8>)
    requires
        is_whole(s),
        payload_of(p).len() > 0,
        tables::spelled_pid(p[1], p[2]) != 0,
    ensures
        ({
            let pid = tables::spelled_pid(p[1], p[2]);
            let v = s.pids[pid];
            let after = packet_read(s, p);
            let window = units::window_of(v, payload_of(p), begins_unit(p));
            &&& s.tables[pid] ==> {
                &&& after.pids[pid] == units::window_read(v, payload_of(p), begins_unit(p))
                &&& after.avc == tables::with_streams(s.avc, window, 0x1b, window.len() - 2)
                &&& after.hevc == tables::with_streams(s.hevc, window, 0x24, window.len() - 2)
            }
            &&& !s.tables[pid] ==> {
                &&& after.pids[pid] == units::payload_read(v, payload_of(p), begins_unit(p))
                &&& after.avc == s.avc
                &&& after.hevc == s.hevc
            }
        }),
{
}

/// Packets begin where five sync bytes stand 188 or 204 bytes apart.
pub proof fn law_five_syncs_tell_the_beginning(bytes: Seq<u8>, at: int)
    requires
        0 <= at,
    ensures
        locks(bytes, at, Stride::Plain) <==> at + 752 < bytes.len() && bytes[at] == 0x47 && bytes[at
            + 188] == 0x47 && bytes[at + 376] == 0x47 && bytes[at + 564] == 0x47 && bytes[at + 752]
            == 0x47,
        locks(bytes, at, Stride::Parity) <==> at + 816 < bytes.len() && bytes[at] == 0x47
            && bytes[at + 204] == 0x47 && bytes[at + 408] == 0x47 && bytes[at + 612] == 0x47
            && bytes[at + 816] == 0x47,
{
    lemma_five_syncs(bytes, at, Stride::Plain);
    lemma_five_syncs(bytes, at, Stride::Parity);
}

proof fn lemma_five_syncs(bytes: Seq<u8>, at: int, stride: Stride)
    requires
        0 <= at,
    ensures
        ({
            let size = stride_size(stride);
            locks(bytes, at, stride) <==> at + 4 * size < bytes.len() && bytes[at] == SYNC_BYTE
                && bytes[at + size] == SYNC_BYTE && bytes[at + 2 * size] == SYNC_BYTE && bytes[at
                + 3 * size] == SYNC_BYTE && bytes[at + 4 * size] == SYNC_BYTE
        }),
{
    let size = stride_size(stride);
    if locks(bytes, at, stride) {
        assert(bytes[at + 0 * size] == SYNC_BYTE);
        assert(bytes[at + 1 * size] == SYNC_BYTE);
        assert(bytes[at + 2 * size] == SYNC_BYTE);
        assert(bytes[at + 3 * size] == SYNC_BYTE);
        assert(bytes[at + 4 * size] == SYNC_BYTE);
    }
    if at + 4 * size < bytes.len() && bytes[at] == SYNC_BYTE && bytes[at + size] == SYNC_BYTE
        && bytes[at + 2 * size] == SYNC_BYTE && bytes[at + 3 * size] == SYNC_BYTE && bytes[at + 4
        * size] == SYNC_BYTE {
        assert forall|k: int| 0 <= k < LOCK_SYNCS implies 0 <= at + k * size < bytes.len()
            && #[trigger] bytes[at + k * size] == SYNC_BYTE by {
            assert(k == 0 || k == 1 || k == 2 || k == 3 || k == 4);
        }
    }
}

/// Packets are taken to begin at the first place where they do; at one place the shorter stride
/// comes first.
pub proof fn law_first_beginning_is_found(bytes: Seq<u8>, from: int, at: int)
    requires
        0 <= from <= at < bytes.len(),
        forall|i: int|
            from <= i < at ==> !#[trigger] locks(bytes, i, Stride::Plain) && !locks(
                bytes,
                i,
                Stride::Parity,
            ),
    ensures
        locks(bytes, at, Stride::Plain) ==> lock_from(bytes, from) == Some((at, Stride::Plain)),
        !locks(bytes, at, Stride::Plain) && locks(bytes, at, Stride::Parity) ==> lock_from(
            bytes,
            from,
        ) == Some((at, Stride::Parity)),
        !locks(bytes, at, Stride::Plain) && !locks(bytes, at, Stride::Parity) && at + 1
            == bytes.len() ==> lock_from(bytes, from) is None,
    decreases at - from,
{
    if from < at {
        assert(!locks(bytes, from, Stride::Plain));
        law_first_beginning_is_found(bytes, from + 1, at);
    } else if at + 1 == bytes.len() {
        assert(lock_from(bytes, at + 1) is None);
    }
}

/// A packet whose beginning is known is read, with the parity bytes behind it where there are any,
/// and what follows it is read after it.
pub proof fn law_packets_are_read_in_order(
    s: ScreenView,
    packet: Seq<u8>,
    parity: Seq<u8>,
    more: Seq<u8>,
)
    requires
        s.rest.len() == 0,
        packet.len() == 188,
        packet[0] == 0x47,
        parity.len() == 16,
    ensures
        s.stride == Some(Stride::Plain) ==> taken(s, packet + more) == taken(
            packet_read(s, packet),
            more,
        ),
        s.stride == Some(Stride::Parity) ==> taken(s, packet + parity + more) == taken(
            packet_read(s, packet),
            more,
        ),
{
    let plain = packet + more;
    let spaced = packet + parity + more;
    assert(s.rest + plain =~= plain);
    assert(s.rest + spaced =~= spaced);
    assert(plain.take(188) =~= packet);
    assert(plain.skip(188) =~= more);
    assert(spaced.take(188) =~= packet);
    assert(spaced.skip(204) =~= more);
    lemma_rest_does_not_matter(s, plain, packet);
    lemma_rest_does_not_matter(s, spaced, packet);
    let after = packet_read(s, packet);
    assert(after.rest + more =~= more);
}

/// Where no sync byte stands where a packet should begin, packets are looked for from the next
/// byte on. Less than a packet waits.
pub proof fn law_lost_sync_is_looked_for(s: ScreenView, data: Seq<u8>)
    requires
        s.rest.len() == 0,
        s.stride is Some,
    ensures
        data.len() >= 204 && data[0] != 0x47 ==> taken(s, data) == taken(
            ScreenView { stride: None, ..s },
            data.skip(1),
        ),
        data.len() < 188 ==> taken(s, data) == (ScreenView { rest: data, ..s }),
{
    assert(s.rest + data =~= data);
    assert(s.rest + data.skip(1) =~= data.skip(1));
}

/// Where packets are found to begin, what stands before them is passed over. Where they are not,
/// the last 1020 bytes wait, and nothing else is known than before.
pub proof fn law_bytes_before_the_packets_are_passed_over(s: ScreenView, data: Seq<u8>)
    requires
        s.rest.len() == 0,
        s.stride is None,
    ensures
        lock_from(data, 0) matches Some(found) ==> taken(s, data) == taken(
            ScreenView { stride: Some(found.1), ..s },
            data.skip(found.0),
        ),
        lock_from(data, 0) is None && data.len() <= 1020 ==> taken(s, data) == (ScreenView {
            rest: data,
            ..s
        }),
        lock_from(data, 0) is None && data.len() > 1020 ==> taken(s, data) == (ScreenView {
            rest: data.skip(data.len() - 1020),
            ..s
        }),
{
    assert(s.rest + data =~= data);
    if let Some((at, stride)) = lock_from(data, 0) {
        assert(s.rest + data.skip(at) =~= data.skip(at));
    }
}

/// At the end every stream is looked at as if its last unit ended there, and nothing else changes.
pub proof fn law_end_looks_at_every_stream(s: ScreenView, p: int)
    requires
        is_whole(s),
        0 <= p < 8192,
    ensures
        ended(s).pids[p] == units::nal_checked(s.pids[p]),
        ended(s).avc == s.avc,
        ended(s).hevc == s.hevc,
        ended(s).tables == s.tables,
{
}

/// A stream is refused where some identifier may carry video of a kind that is not safe to decode
/// there, and only there. H.264 is named first.
pub proof fn law_refusal_names_unsafe_video(s: ScreenView, p: int)
    requires
        is_whole(s),
        0 <= p < 8192,
    ensures
        s.avc[p] && units::unsafe_avc(s.pids[p]) ==> refusal(s) == Some(DemuxError::UnsafeAvc),
        s.hevc[p] && units::unsafe_hevc(s.pids[p]) ==> refusal(s) is Some,
        refusal(s) == Some(DemuxError::UnsafeAvc) ==> exists|q: int|
            0 <= q < 8192 && #[trigger] s.avc[q] && units::unsafe_avc(s.pids[q]),
        refusal(s) == Some(DemuxError::UnsafeHevc) ==> exists|q: int|
            0 <= q < 8192 && #[trigger] s.hevc[q] && units::unsafe_hevc(s.pids[q]),
{
    if s.avc[p] && units::unsafe_avc(s.pids[p]) {
        assert(has_unsafe_avc(s, p));
    }
    if s.hevc[p] && units::unsafe_hevc(s.pids[p]) {
        assert(has_unsafe_hevc(s, p));
    }
    if exists|q: int| has_unsafe_avc(s, q) {
        let q = choose|q: int| has_unsafe_avc(s, q);
        assert(s.avc[q]);
    } else if exists|q: int| has_unsafe_hevc(s, q) {
        let q = choose|q: int| has_unsafe_hevc(s, q);
        assert(s.hevc[q]);
    }
}

} // verus!
