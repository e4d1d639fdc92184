//! The units of an elementary stream, as far as they tell whether it is safe to decode as video.
//!
//! A packetized unit begins with a prefix that tells its length. In what follows start codes set
//! the units of the video apart.

use crate::demux::sps;
use crate::demux::sps::{check_hevc_sps, check_sps, MAX_UNIT_BYTES};
use vstd::prelude::*;

verus! {

/// How many zeros in a row a message of the encoder never holds.
pub const MANY_ZEROS: usize = 256;

/// How many empty units in a row are too many.
pub const MANY_EMPTY_UNITS: usize = 256;

/// How many bytes of a packetized unit come before its content.
pub const UNIT_PREFIX: usize = 6;

/// As far as the place in a packetized unit is counted: no length reaches further.
pub const MAX_PLACE: usize = 70_000;

/// What the bytes of a payload are part of.
#[derive(Debug, Clone, Copy, PartialEq, Eq, Structural)]
pub enum NalKind {
    /// No start code was seen.
    Outside,
    /// A start code was seen, the header comes next.
    Start,
    /// A sequence parameter set of H.264.
    AvcSet,
    /// A sequence parameter set of H.265.
    HevcSet,
    /// A message of an H.264 encoder.
    Message,
    /// Any other unit.
    Other,
}

/// What is known of one packet identifier.
#[verifier::ext_equal]
pub ghost struct PidView {
    /// The last byte but one.
    pub before: u8,
    /// The last byte.
    pub last: u8,
    /// A packetized unit has begun and not ended.
    pub open: bool,
    /// How many of its bytes came.
    pub at: int,
    /// The two bytes of its length.
    pub high: u8,
    pub low: u8,
    /// How many zeros came last, as far as that matters.
    pub zeros: int,
    /// What comes now.
    pub kind: NalKind,
    /// The parameter set so far.
    pub nal: Seq<u8>,
    /// What comes now holds a byte that is not zero.
    pub filled: bool,
    /// How many empty units came last, as far as that matters.
    pub empties: int,
    /// Too many empty units came in a row.
    pub hollow: bool,
    /// As H.264 video this is not safe to decode.
    pub odd_avc: bool,
    /// As H.265 video this is not safe to decode.
    pub odd_hevc: bool,
}

/// Nothing came yet.
pub open spec fn blank_pid() -> PidView {
    PidView {
        before: 0,
        last: 0,
        open: false,
        at: 0,
        high: 0,
        low: 0,
        zeros: 0,
        kind: NalKind::Outside,
        nal: Seq::empty(),
        filled: false,
        empties: 0,
        hollow: false,
        odd_avc: false,
        odd_hevc: false,
    }
}

/// The bytes up to the last that is not zero.
pub open spec fn stripped(nal: Seq<u8>) -> Seq<u8>
    decreases nal.len(),
{
    if nal.len() > 0 && nal.last() == 0 {
        stripped(nal.drop_last())
    } else {
        nal
    }
}

/// What came is no parameter set of H.264, or a plain one, or too long to be taken up.
pub open spec fn is_safe_avc(kind: NalKind, nal: Seq<u8>) -> bool {
    kind == NalKind::AvcSet && nal.len() <= MAX_UNIT_BYTES ==> sps::is_plain_sps(stripped(nal))
}

/// What came is no parameter set of H.265, or a plain one, or too long to be taken up.
pub open spec fn is_safe_hevc(kind: NalKind, nal: Seq<u8>) -> bool {
    kind == NalKind::HevcSet && nal.len() <= MAX_UNIT_BYTES ==> sps::is_plain_hevc_sps(
        stripped(nal),
    )
}

/// What came might end here.
pub open spec fn nal_checked(v: PidView) -> PidView {
    PidView {
        odd_avc: v.odd_avc || !is_safe_avc(v.kind, v.nal),
        odd_hevc: v.odd_hevc || !is_safe_hevc(v.kind, v.nal),
        ..v
    }
}

/// What came ends here.
pub open spec fn nal_closed(v: PidView) -> PidView {
    PidView {
        zeros: 0,
        kind: NalKind::Outside,
        nal: Seq::empty(),
        filled: false,
        empties: 0,
        ..nal_checked(v)
    }
}

/// The packetized unit ends here.
pub open spec fn unit_ended(v: PidView) -> PidView {
    PidView { open: false, ..nal_closed(v) }
}

/// A new packetized unit begins.
pub open spec fn unit_begun(v: PidView) -> PidView {
    PidView { open: true, at: 0, high: 0, low: 0, ..nal_closed(v) }
}

/// What a header begins.
pub open spec fn kind_of(header: u8) -> NalKind {
    if header % 32 == 7 {
        NalKind::AvcSet
    } else if header % 32 == 6 {
        NalKind::Message
    } else if (header / 2) % 64 == 33 {
        NalKind::HevcSet
    } else {
        NalKind::Other
    }
}

/// One more zero, or none.
pub open spec fn zeros_after(zeros: int, b: u8) -> int {
    if b != 0 {
        0
    } else if zeros < MANY_ZEROS {
        zeros + 1
    } else {
        zeros
    }
}

/// How many empty units came last where a start code comes now.
pub open spec fn empties_after(v: PidView) -> int {
    if v.kind == NalKind::Outside || v.filled {
        0
    } else if v.empties < MANY_EMPTY_UNITS {
        v.empties + 1
    } else {
        v.empties
    }
}

/// One byte of what a packetized unit holds.
pub open spec fn content_read(v: PidView, b: u8) -> PidView {
    if b == 1 && v.zeros >= 2 {
        PidView {
            kind: NalKind::Start,
            empties: empties_after(v),
            hollow: v.hollow || empties_after(v) >= MANY_EMPTY_UNITS,
            ..nal_closed(v)
        }
    } else {
        PidView {
            zeros: zeros_after(v.zeros, b),
            kind: if v.kind == NalKind::Start {
                kind_of(b)
            } else {
                v.kind
            },
            nal: if v.kind == NalKind::Start {
                seq![b]
            } else if (v.kind == NalKind::AvcSet || v.kind == NalKind::HevcSet) && v.nal.len()
                <= MAX_UNIT_BYTES {
                v.nal.push(b)
            } else {
                v.nal
            },
            filled: v.filled || b != 0,
            odd_avc: v.odd_avc || (v.kind == NalKind::Message && b != 0 && v.zeros >= MANY_ZEROS),
            ..v
        }
    }
}

/// The length of a packetized unit behind the prefix; zero where it goes on to the next.
pub open spec fn unit_length(v: PidView) -> int {
    v.high * 256 + v.low
}

/// One byte of a payload. Before the first packetized unit begins, and behind its end, it does
/// not matter.
pub open spec fn byte_read(v: PidView, b: u8) -> PidView {
    if !v.open {
        v
    } else {
        let placed = PidView {
            at: if v.at < MAX_PLACE {
                v.at + 1
            } else {
                v.at
            },
            high: if v.at == 4 {
                b
            } else {
                v.high
            },
            low: if v.at == 5 {
                b
            } else {
                v.low
            },
            ..v
        };
        let read = if v.at < UNIT_PREFIX {
            placed
        } else {
            content_read(placed, b)
        };
        if read.at >= UNIT_PREFIX && unit_length(read) > 0 && read.at >= UNIT_PREFIX + unit_length(
            read,
        ) {
            unit_ended(read)
        } else {
            read
        }
    }
}

/// The first `n` bytes of a payload.
pub open spec fn bytes_read(v: PidView, payload: Seq<u8>, n: int) -> PidView
    decreases n,
{
    if n <= 0 {
        v
    } else {
        byte_read(bytes_read(v, payload, n - 1), payload[n - 1])
    }
}

/// Reads the payloads of one packet identifier.
pub struct PidScreen {
    before: u8,
    last: u8,
    open: bool,
    at: usize,
    high: u8,
    low: u8,
    zeros: usize,
    kind: NalKind,
    nal: Vec<u8>,
    filled: bool,
    empties: usize,
    hollow: bool,
    odd_avc: bool,
    odd_hevc: bool,
}

impl View for PidScreen {
    type V = PidView;

    closed spec fn view(&self) -> PidView {
        PidView {
            before: self.before,
            last: self.last,
            open: self.open,
            at: self.at as int,
            high: self.high,
            low: self.low,
            zeros: self.zeros as int,
            kind: self.kind,
            nal: self.nal@,
            filled: self.filled,
            empties: self.empties as int,
            hollow: self.hollow,
            odd_avc: self.odd_avc,
            odd_hevc: self.odd_hevc,
        }
    }
}

fn strip_zeros(nal: &Vec<u8>) -> (bytes: Vec<u8>)
    ensures
        bytes@ == stripped(nal@),
        bytes@.len() <= nal@.len(),
{
    let mut len: usize = nal.len();
    assert(nal@.take(len as int) =~= nal@);
    while len > 0 && nal[len - 1] == 0
        invariant
            len <= nal@.len(),
            stripped(nal@.take(len as int)) == stripped(nal@),
        decreases len,
    {
        assert(nal@.take(len as int).drop_last() =~= nal@.take(len - 1));
        len = len - 1;
    }
    let mut bytes: Vec<u8> = Vec::new();
    let mut i: usize = 0;
    while i < len
        invariant
            i <= len <= nal@.len(),
            bytes@ == nal@.take(i as int),
        decreases len - i,
    {
        bytes.push(nal[i]);
        i = i + 1;
        assert(bytes@ =~= nal@.take(i as int));
    }
    bytes
}

impl PidScreen {
    /// A reader to which nothing came yet.
    pub fn new() -> (screen: Self)
        ensures
            screen@ == blank_pid(),
    {
        PidScreen {
            before: 0,
            last: 0,
            open: false,
            at: 0,
            high: 0,
            low: 0,
            zeros: 0,
            kind: NalKind::Outside,
            nal: Vec::new(),
            filled: false,
            empties: 0,
            hollow: false,
            odd_avc: false,
            odd_hevc: false,
        }
    }

    /// Look at what came as if it ended here.
    pub fn check_nal(&mut self)
        ensures
            final(self)@ == nal_checked(old(self)@),
    {
        if self.kind == NalKind::AvcSet && self.nal.len() <= MAX_UNIT_BYTES {
            let set: Vec<u8> = strip_zeros(&self.nal);
            if !check_sps(&set) {
                self.odd_avc = true;
            }
        }
        if self.kind == NalKind::HevcSet && self.nal.len() <= MAX_UNIT_BYTES {
            let set: Vec<u8> = strip_zeros(&self.nal);
            if !check_hevc_sps(&set) {
                self.odd_hevc = true;
            }
        }
    }

    fn close_nal(&mut self)
        ensures
            final(self)@ == nal_closed(old(self)@),
    {
        self.check_nal();
        self.zeros = 0;
        self.kind = NalKind::Outside;
        self.nal.clear();
        self.filled = false;
        self.empties = 0;
        assert(self@ =~= nal_closed(old(self)@));
    }

    fn end_unit(&mut self)
        ensures
            final(self)@ == unit_ended(old(self)@),
    {
        self.close_nal();
        self.open = false;
    }

    fn begin_unit(&mut self)
        ensures
            final(self)@ == unit_begun(old(self)@),
    {
        self.close_nal();
        self.open = true;
        self.at = 0;
        self.high = 0;
        self.low = 0;
    }

    fn read_content(&mut self, b: u8)
        ensures
            final(self)@ == content_read(old(self)@, b),
    {
        if b == 1 && self.zeros >= 2 {
            let empties: usize = if self.kind == NalKind::Outside || self.filled {
                0
            } else if self.empties < MANY_EMPTY_UNITS {
                self.empties + 1
            } else {
                self.empties
            };
            self.close_nal();
            self.kind = NalKind::Start;
            self.empties = empties;
            if empties >= MANY_EMPTY_UNITS {
                self.hollow = true;
            }
            return;
        }
        match self.kind {
            NalKind::Start => {
                self.kind = if b % 32 == 7 {
                    NalKind::AvcSet
                } else if b % 32 == 6 {
                    NalKind::Message
                } else if (b / 2) % 64 == 33 {
                    NalKind::HevcSet
                } else {
                    NalKind::Other
                };
                self.nal.clear();
                self.nal.push(b);
            },
            NalKind::AvcSet => {
                if self.nal.len() <= MAX_UNIT_BYTES {
                    self.nal.push(b);
                }
            },
            NalKind::HevcSet => {
                if self.nal.len() <= MAX_UNIT_BYTES {
                    self.nal.push(b);
                }
            },
            NalKind::Message => {
                if b != 0 && self.zeros >= MANY_ZEROS {
                    self.odd_avc = true;
                }
            },
            _ => {},
        }
        self.filled = self.filled || b != 0;
        self.zeros = if b != 0 {
            0
        } else if self.zeros < MANY_ZEROS {
            self.zeros + 1
        } else {
            self.zeros
        };
        assert(self@ =~= content_read(old(self)@, b));
    }

    fn read(&mut self, b: u8)
        ensures
            final(self)@ == byte_read(old(self)@, b),
    {
        if !self.open {
            return;
        }
        let at: usize = self.at;
        if at < MAX_PLACE {
            self.at = at + 1;
        }
        if at == 4 {
            self.high = b;
        }
        if at == 5 {
            self.low = b;
        }
        if at >= UNIT_PREFIX {
            self.read_content(b);
        }
        let length: usize = self.high as usize * 256 + self.low as usize;
        if self.at >= UNIT_PREFIX && length > 0 && self.at >= UNIT_PREFIX + length {
            self.end_unit();
        }
    }

    fn read_all(&mut self, buf: &Vec<u8>, from: usize, to: usize)
        requires
            from <= to <= buf@.len(),
        ensures
            final(self)@ == bytes_read(
                old(self)@,
                buf@.subrange(from as int, to as int),
                to - from,
            ),
    {
        let ghost payload = buf@.subrange(from as int, to as int);
        let mut i: usize = from;
        while i < to
            invariant
                from <= i <= to <= buf@.len(),
                payload == buf@.subrange(from as int, to as int),
                self@ == bytes_read(old(self)@, payload, i - from),
            decreases to - i,
        {
            assert(payload[i - from] == buf@[i as int]);
            self.read(buf[i]);
            i = i + 1;
        }
    }

    /// Read the payload of a stream, which stands in `buf` between two places.
    pub fn read_payload(&mut self, buf: &Vec<u8>, from: usize, to: usize, begins: bool)
        requires
            from <= to <= buf@.len(),
        ensures
            final(self)@ == payload_read(old(self)@, buf@.subrange(from as int, to as int), begins),
    {
        if begins {
            self.begin_unit();
        }
        self.read_all(buf, from, to);
    }

    /// Read the payload of a table, which stands in `buf` between two places, and return the bytes
    /// that the table is read from.
    pub fn read_window(&mut self, buf: &Vec<u8>, from: usize, to: usize, begins: bool) -> (window:
        Vec<u8>)
        requires
            from < to <= buf@.len(),
        ensures
            window@ == window_of(old(self)@, buf@.subrange(from as int, to as int), begins),
            final(self)@ == window_read(old(self)@, buf@.subrange(from as int, to as int), begins),
    {
        let ghost payload = buf@.subrange(from as int, to as int);
        let first: usize = if begins {
            from + 1
        } else {
            from
        };
        let window: Vec<u8> = bytes_behind(self.before, self.last, buf, first, to);
        assert(window@ =~= window_of(self@, payload, begins));
        self.before = window[window.len() - 2];
        self.last = window[window.len() - 1];
        window
    }

    /// True for a stream that is not safe to decode as H.264 video.
    pub fn is_unsafe_avc(&self) -> (yes: bool)
        ensures
            yes == unsafe_avc(self@),
    {
        self.hollow || self.odd_avc
    }

    /// True for a stream that is not safe to decode as H.265 video.
    pub fn is_unsafe_hevc(&self) -> (yes: bool)
        ensures
            yes == unsafe_hevc(self@),
    {
        self.hollow || self.odd_hevc
    }
}

/// The bytes that a table is read from: the last two before, and the payload without the byte
/// that says where in it a table begins.
pub open spec fn window_of(v: PidView, payload: Seq<u8>, begins: bool) -> Seq<u8> {
    seq![v.before, v.last] + if begins {
        payload.skip(1)
    } else {
        payload
    }
}

/// What is known of an identifier after a payload of a table.
pub open spec fn window_read(v: PidView, payload: Seq<u8>, begins: bool) -> PidView {
    let window = window_of(v, payload, begins);
    PidView { before: window[window.len() - 2], last: window[window.len() - 1], ..v }
}

/// What is known of an identifier after a payload of a stream.
pub open spec fn payload_read(v: PidView, payload: Seq<u8>, begins: bool) -> PidView {
    let start = if begins {
        unit_begun(v)
    } else {
        v
    };
    bytes_read(start, payload, payload.len() as int)
}

/// Not safe to decode as H.264 video.
pub open spec fn unsafe_avc(v: PidView) -> bool {
    v.hollow || v.odd_avc
}

/// Not safe to decode as H.265 video.
pub open spec fn unsafe_hevc(v: PidView) -> bool {
    v.hollow || v.odd_hevc
}

fn bytes_behind(before: u8, last: u8, buf: &Vec<u8>, from: usize, to: usize) -> (window: Vec<u8>)
    requires
        from <= to <= buf@.len(),
    ensures
        window@ == seq![before, last] + buf@.subrange(from as int, to as int),
{
    let mut window: Vec<u8> = Vec::new();
    window.push(before);
    window.push(last);
    let mut i: usize = from;
    assert(window@ =~= seq![before, last] + buf@.subrange(from as int, i as int));
    while i < to
        invariant
            from <= i <= to <= buf@.len(),
            window@ == seq![before, last] + buf@.subrange(from as int, i as int),
        decreases to - i,
    {
        window.push(buf[i]);
        assert(window@ =~= seq![before, last] + buf@.subrange(from as int, i + 1));
        i = i + 1;
    }
    window
}

proof fn lemma_bytes_stay_unsafe(v: PidView, payload: Seq<u8>, n: int)
    ensures
        unsafe_avc(v) ==> unsafe_avc(bytes_read(v, payload, n)),
        unsafe_hevc(v) ==> unsafe_hevc(bytes_read(v, payload, n)),
    decreases n,
{
    if n > 0 {
        lemma_bytes_stay_unsafe(v, payload, n - 1);
    }
}

/// What is not safe to decode stays so, whatever comes.
pub proof fn law_unsafe_stays_unsafe(v: PidView, payload: Seq<u8>, begins: bool)
    ensures
        unsafe_avc(v) ==> unsafe_avc(payload_read(v, payload, begins)) && unsafe_avc(
            nal_checked(v),
        ),
        unsafe_hevc(v) ==> unsafe_hevc(payload_read(v, payload, begins)) && unsafe_hevc(
            nal_checked(v),
        ),
{
    let start = if begins {
        unit_begun(v)
    } else {
        v
    };
    lemma_bytes_stay_unsafe(start, payload, payload.len() as int);
}

/// The first `n` bytes of what a packetized unit of open length holds.
pub open spec fn contents_read(v: PidView, bytes: Seq<u8>, n: int) -> PidView
    decreases n,
{
    if n <= 0 {
        v
    } else {
        content_read(contents_read(v, bytes, n - 1), bytes[n - 1])
    }
}

/// Start codes with nothing between them.
pub open spec fn start_codes(n: nat) -> Seq<u8> {
    Seq::new(
        3 * n,
        |i: int|
            if i % 3 == 2 {
                1u8
            } else {
                0u8
            },
    )
}

proof fn lemma_start_codes_read(v: PidView, n: nat, k: nat)
    requires
        v.zeros >= 0,
        v.empties >= 0,
        0 < k <= n,
    ensures
        ({
            let after = contents_read(v, start_codes(n), 3 * k as int);
            &&& after.kind == NalKind::Start
            &&& !after.filled
            &&& after.zeros == 0
            &&& after.empties >= 0
            &&& after.empties >= k - 1 || after.hollow
            &&& k > MANY_EMPTY_UNITS ==> after.hollow
        }),
    decreases k,
{
    reveal_with_fuel(contents_read, 4);
    let codes = start_codes(n);
    if k > 1 {
        lemma_start_codes_read(v, n, (k - 1) as nat);
    }
    assert(codes[3 * k - 3] == 0);
    assert(codes[3 * k - 2] == 0);
    assert(codes[3 * k - 1] == 1);
}

/// A long run of start codes with nothing between them is found, wherever it stands, and makes
/// the stream unsafe.
pub proof fn law_empty_units_are_unsafe(v: PidView, n: nat)
    requires
        v.zeros >= 0,
        v.empties >= 0,
        n > MANY_EMPTY_UNITS,
    ensures
        unsafe_avc(contents_read(v, start_codes(n), 3 * n as int)),
        unsafe_hevc(contents_read(v, start_codes(n), 3 * n as int)),
{
    lemma_start_codes_read(v, n, n);
}

/// A parameter set that is not plain makes the stream unsafe, whether a start code, a new
/// packetized unit or the end of its own closes it, or the input ends.
pub proof fn law_odd_parameter_set_is_unsafe(v: PidView)
    requires
        v.nal.len() <= MAX_UNIT_BYTES,
    ensures
        v.kind == NalKind::AvcSet && !sps::is_plain_sps(stripped(v.nal)) ==> {
            &&& unsafe_avc(nal_checked(v))
            &&& unsafe_avc(unit_ended(v))
            &&& unsafe_avc(unit_begun(v))
            &&& v.zeros >= 2 ==> unsafe_avc(content_read(v, 1))
        },
        v.kind == NalKind::HevcSet && !sps::is_plain_hevc_sps(stripped(v.nal)) ==> {
            &&& unsafe_hevc(nal_checked(v))
            &&& unsafe_hevc(unit_ended(v))
            &&& unsafe_hevc(unit_begun(v))
            &&& v.zeros >= 2 ==> unsafe_hevc(content_read(v, 1))
        },
{
}

/// The zeros at the end of a unit are no part of it.
pub proof fn law_zeros_behind_a_unit_are_taken_off(nal: Seq<u8>, n: nat)
    requires
        nal.len() > 0 ==> nal.last() != 0,
    ensures
        stripped(nal + Seq::new(n, |i: int| 0u8)) == nal,
    decreases n,
{
    let zeros = Seq::new(n, |i: int| 0u8);
    let all = nal + zeros;
    if n > 0 {
        let fewer = Seq::new((n - 1) as nat, |i: int| 0u8);
        assert(all.drop_last() =~= nal + fewer);
        assert(all.last() == 0);
        law_zeros_behind_a_unit_are_taken_off(nal, (n - 1) as nat);
    } else {
        assert(all =~= nal);
    }
}

/// The low five bits of a header tell the units of H.264: seven is a parameter set and six a
/// message. Of what is neither, the six bits below the highest tell the parameter sets of H.265,
/// which have thirty-three.
pub proof fn law_header_tells_the_unit(header: u8)
    ensures
        kind_of(header) is AvcSet <==> header % 32 == 7,
        kind_of(header) is Message <==> header % 32 == 6,
        kind_of(header) is HevcSet <==> header == 66 || header == 67 || header == 194 || header
            == 195,
        !(kind_of(header) is Outside) && !(kind_of(header) is Start),
{
}

/// Two zeros and a one begin a unit, whatever came before, and the byte behind them tells what it
/// is and is its first. The start code is no part of it, and a unit before it ends.
pub proof fn law_start_code_begins_a_unit(v: PidView, header: u8)
    requires
        v.zeros >= 0,
    ensures
        ({
            let after = content_read(
                content_read(content_read(content_read(v, 0), 0), 1),
                header,
            );
            &&& after.kind == kind_of(header)
            &&& after.nal == seq![header]
            &&& after.filled == (header != 0)
        }),
{
}

/// Every byte of a parameter set is taken up, up to the first beyond four mebibytes; of other units
/// no more is kept than the header.
pub proof fn law_parameter_set_is_taken_up(v: PidView, b: u8)
    requires
        b != 1 || v.zeros < 2,
        !(v.kind is Start),
    ensures
        content_read(v, b).kind == v.kind,
        (v.kind is AvcSet || v.kind is HevcSet) && v.nal.len() <= 4_194_304 ==> content_read(
            v,
            b,
        ).nal == v.nal.push(b),
        !(v.kind is AvcSet || v.kind is HevcSet) || v.nal.len() > 4_194_304 ==> content_read(
            v,
            b,
        ).nal == v.nal,
{
}

/// Zeros in a row are counted up to two hundred and fifty-six. A message of an H.264 encoder that
/// has so many and then goes on is not safe; nothing else in the middle of a unit is.
pub proof fn law_zeros_in_a_message_are_unsafe(v: PidView, b: u8)
    requires
        b != 1 || v.zeros < 2,
        0 <= v.zeros <= 256,
    ensures
        ({
            let after = content_read(v, b);
            &&& b != 0 ==> after.zeros == 0
            &&& b == 0 && v.zeros < 256 ==> after.zeros == v.zeros + 1
            &&& b == 0 && v.zeros == 256 ==> after.zeros == 256
            &&& after.odd_avc <==> v.odd_avc || (v.kind is Message && b != 0 && v.zeros == 256)
            &&& after.odd_hevc == v.odd_hevc
            &&& after.hollow == v.hollow
            &&& after.filled <==> v.filled || b != 0
        }),
{
}

/// A unit between two start codes counts as empty where it holds nothing but zeros. Empty units in
/// a row are counted; the two hundred and fifty-sixth makes the stream unsafe, and a unit that is
/// not empty begins the count anew.
pub proof fn law_empty_units_are_counted(v: PidView)
    requires
        v.zeros >= 2,
        0 <= v.empties <= 256,
    ensures
        ({
            let after = content_read(v, 1);
            let empty = !(v.kind is Outside) && !v.filled;
            &&& after.kind is Start
            &&& after.zeros == 0
            &&& !after.filled
            &&& !empty ==> after.empties == 0
            &&& empty && v.empties < 256 ==> after.empties == v.empties + 1
            &&& after.hollow <==> v.hollow || (empty && v.empties >= 255)
        }),
{
}

/// A unit that ends makes the stream unsafe where it is a parameter set that is not plain, and
/// only there; sets beyond four mebibytes are left out.
pub proof fn law_only_odd_sets_are_unsafe(v: PidView)
    ensures
        nal_checked(v).odd_avc <==> v.odd_avc || (v.kind is AvcSet && v.nal.len() <= 4_194_304
            && !sps::is_plain_sps(stripped(v.nal))),
        nal_checked(v).odd_hevc <==> v.odd_hevc || (v.kind is HevcSet && v.nal.len() <= 4_194_304
            && !sps::is_plain_hevc_sps(stripped(v.nal))),
        nal_checked(v).hollow == v.hollow,
        nal_checked(v).kind == v.kind,
        nal_checked(v).nal == v.nal,
{
}

/// A packetized unit that begins ends what came before, and its first six bytes are no content:
/// the last two of them are its length.
pub proof fn law_prefix_tells_the_length(v: PidView, payload: Seq<u8>)
    requires
        payload.len() == 6,
    ensures
        ({
            let after = payload_read(v, payload, true);
            &&& after.open
            &&& after.at == 6
            &&& unit_length(after) == 256 * payload[4] + payload[5]
            &&& after.kind is Outside
            &&& after.nal.len() == 0
            &&& after.odd_avc == nal_checked(v).odd_avc
            &&& after.odd_hevc == nal_checked(v).odd_hevc
            &&& after.hollow == v.hollow
        }),
{
    reveal_with_fuel(bytes_read, 8);
}

/// Behind the prefix every byte is content, up to the length of the unit where that is not zero:
/// the byte that reaches it ends the unit. Without an open unit bytes do not matter.
pub proof fn law_content_goes_up_to_the_length(v: PidView, b: u8)
    requires
        6 <= v.at < 70_000,
    ensures
        !v.open ==> byte_read(v, b) == v,
        v.open && unit_length(v) > 0 && v.at + 1 >= 6 + unit_length(v) ==> byte_read(v, b)
            == unit_ended(content_read(PidView { at: v.at + 1, ..v }, b)),
        v.open && (unit_length(v) == 0 || v.at + 1 < 6 + unit_length(v)) ==> byte_read(v, b)
            == content_read(PidView { at: v.at + 1, ..v }, b),
        !unit_ended(v).open,
{
}

/// A payload is read byte by byte: its end is read after what comes before it.
pub proof fn law_payload_is_read_in_order(v: PidView, payload: Seq<u8>, b: u8)
    ensures
        payload_read(v, payload.push(b), false) == byte_read(payload_read(v, payload, false), b),
        payload_read(v, Seq::empty(), false) == v,
{
    lemma_bytes_before(v, payload, payload.push(b), payload.len() as int);
}

proof fn lemma_bytes_before(v: PidView, a: Seq<u8>, b: Seq<u8>, n: int)
    requires
        n <= a.len(),
        n <= b.len(),
        forall|i: int| 0 <= i < n ==> a[i] == b[i],
    ensures
        bytes_read(v, a, n) == bytes_read(v, b, n),
    decreases n,
{
    if n > 0 {
        lemma_bytes_before(v, a, b, n - 1);
    }
}

/// A table is read from its payload and the two bytes before; the byte that says where a table
/// begins is left out. The last two bytes are kept for the next payload.
pub proof fn law_table_is_read_across_payloads(v: PidView, payload: Seq<u8>, begins: bool, i: int)
    requires
        payload.len() >= 3,
    ensures
        ({
            let window = window_of(v, payload, begins);
            let after = window_read(v, payload, begins);
            let first = if begins {
                1int
            } else {
                0
            };
            &&& window.len() == 2 + payload.len() - first
            &&& window[0] == v.before
            &&& window[1] == v.last
            &&& first <= i < payload.len() ==> window[2 + i - first] == payload[i]
            &&& after.before == payload[payload.len() - 2]
            &&& after.last == payload[payload.len() - 1]
            &&& unsafe_avc(after) == unsafe_avc(v)
            &&& unsafe_hevc(after) == unsafe_hevc(v)
            &&& after.nal == v.nal
        }),
{
}

/// A stream to which nothing came is safe, and nothing of it is known.
pub proof fn law_blank_stream_is_safe()
    ensures
        !unsafe_avc(blank_pid()),
        !unsafe_hevc(blank_pid()),
        !blank_pid().open,
        blank_pid().nal.len() == 0,
        blank_pid().kind is Outside,
{
}

/// A stream is unsafe for both kinds of video where too many empty units came, and otherwise for
/// the one in which something odd came.
pub proof fn law_unsafe_is_hollow_or_odd(v: PidView)
    ensures
        v.hollow ==> unsafe_avc(v) && unsafe_hevc(v),
        !v.hollow ==> (unsafe_avc(v) <==> v.odd_avc) && (unsafe_hevc(v) <==> v.odd_hevc),
{
}

} // verus!
