//! Smooth egress: a segment leaves in slices spread over its duration.
//!
//! Sending a whole segment at once and sleeping until the next one makes players stall. So a
//! segment is cut at packet boundaries into slices, which leave at even intervals. Times are
//! counted in nanoseconds.

use crate::mpegts::continuous::TS_PACKET_SIZE;
use crate::mpegts::streamer::IDLE_TIMEOUT_NANOS;
use vstd::prelude::*;

verus! {

/// The shortest duration that a segment is paced by: a tenth of a second.
pub const MIN_SEGMENT_NANOS: u64 = 100_000_000;

/// The longest duration that a segment is paced by: sixty seconds.
pub const MAX_SEGMENT_NANOS: u64 = 60_000_000_000;

/// The shortest and the longest interval between two slices, in milliseconds.
pub const MIN_CHUNK_MS: u64 = 50;

pub const MAX_CHUNK_MS: u64 = 2000;

/// `x` brought into the range from `lo` to `hi`.
pub open spec fn clamped(x: int, lo: int, hi: int) -> int {
    if x < lo {
        lo
    } else if x > hi {
        hi
    } else {
        x
    }
}

/// `x` brought into the range from `lo` to `hi`.
pub fn clamp(x: u64, lo: u64, hi: u64) -> (y: u64)
    requires
        lo <= hi,
    ensures
        y == clamped(x as int, lo as int, hi as int),
{
    if x < lo {
        lo
    } else if x > hi {
        hi
    } else {
        x
    }
}

/// How a segment is cut.
#[derive(Debug, Clone, Copy, PartialEq, Eq, Structural)]
pub struct SlicePlan {
    /// The number of slices.
    pub slices: usize,
    /// The length of each slice but the last, which takes the rest.
    pub slice_bytes: usize,
    /// Nanoseconds from one slice to the next.
    pub interval_nanos: u64,
}

/// The least number of intervals of length `chunk` that cover `duration`.
pub open spec fn intervals(duration: int, chunk: int) -> int {
    (duration + chunk - 1) / chunk
}

/// The number of slices: one per interval of the target length, at least one, and no more than
/// there are packets.
pub open spec fn slice_count(len: int, duration: int, chunk_ms: int) -> int {
    let wanted = intervals(
        clamped(duration, MIN_SEGMENT_NANOS as int, MAX_SEGMENT_NANOS as int),
        clamped(chunk_ms, MIN_CHUNK_MS as int, MAX_CHUNK_MS as int) * 1_000_000,
    );
    let packets = len / TS_PACKET_SIZE as int;
    if packets < 1 {
        1
    } else if wanted > packets {
        packets
    } else {
        wanted
    }
}

/// `len` rounded down to whole packets.
pub open spec fn whole_packets(len: int) -> int {
    len / TS_PACKET_SIZE as int * TS_PACKET_SIZE
}

/// The cut of a segment of `len` bytes.
pub open spec fn is_slice_plan(plan: SlicePlan, len: int, duration: int, chunk_ms: int) -> bool {
    let slices = slice_count(len, duration, chunk_ms);
    &&& plan.slices == slices
    &&& plan.slice_bytes == whole_packets(len / slices)
    &&& plan.interval_nanos == clamped(
        duration,
        MIN_SEGMENT_NANOS as int,
        MAX_SEGMENT_NANOS as int,
    ) / slices
}

/// Cut a segment of `data_len` bytes and the given duration into slices about `chunk_ms`
/// milliseconds apart.
pub fn plan_smooth_slices(data_len: usize, duration_nanos: u64, chunk_ms: u64) -> (plan: SlicePlan)
    ensures
        is_slice_plan(plan, data_len as int, duration_nanos as int, chunk_ms as int),
        plan.slices >= 1,
{
    let duration: u64 = clamp(duration_nanos, MIN_SEGMENT_NANOS, MAX_SEGMENT_NANOS);
    let chunk: u64 = clamp(chunk_ms, MIN_CHUNK_MS, MAX_CHUNK_MS) * 1_000_000;
    let wanted: u64 = (duration + chunk - 1) / chunk;
    proof {
        lemma_intervals(duration as int, chunk as int);
    }
    let packets: usize = data_len / TS_PACKET_SIZE;
    let slices: usize = if packets < 1 {
        1
    } else if wanted > packets as u64 {
        packets
    } else {
        wanted as usize
    };
    let even: usize = data_len / slices;
    assert(even / 188 * 188 <= even);
    SlicePlan {
        slices,
        slice_bytes: even / TS_PACKET_SIZE * TS_PACKET_SIZE,
        interval_nanos: duration / slices as u64,
    }
}

proof fn lemma_intervals(duration: int, chunk: int)
    requires
        1 <= duration,
        1 <= chunk,
    ensures
        1 <= intervals(duration, chunk),
        duration <= intervals(duration, chunk) * chunk,
        duration <= intervals(duration, chunk) * chunk < duration + chunk,
{
    let n = intervals(duration, chunk);
    let top = duration + chunk - 1;
    assert(top == n * chunk + top % chunk && 0 <= top % chunk < chunk) by (nonlinear_arith)
        requires
            n == top / chunk,
            chunk >= 1,
    ;
    assert(n >= 1) by (nonlinear_arith)
        requires
            n * chunk > duration - 1,
            duration >= 1,
            chunk >= 1,
    ;
}

/// The end of slice `k`: an even share, but for the last slice.
pub open spec fn slice_end(len: int, slices: int, slice_bytes: int, k: int) -> int {
    if k + 1 >= slices {
        len
    } else {
        (k + 1) * slice_bytes
    }
}

/// Slice `k` of `data`.
pub open spec fn slice_of(data: Seq<u8>, slices: int, slice_bytes: int, k: int) -> Seq<u8> {
    data.subrange(k * slice_bytes, slice_end(data.len() as int, slices, slice_bytes, k))
}

/// The first `n` slices one after the other.
pub open spec fn slices_joined(data: Seq<u8>, slices: int, slice_bytes: int, n: int) -> Seq<u8>
    decreases n,
{
    if n <= 0 {
        Seq::empty()
    } else {
        slices_joined(data, slices, slice_bytes, n - 1) + slice_of(data, slices, slice_bytes, n - 1)
    }
}

proof fn lemma_slices_fit(len: int, slices: int, slice_bytes: int, k: int)
    requires
        0 <= k < slices,
        0 <= slice_bytes,
        slices * slice_bytes <= len,
    ensures
        0 <= k * slice_bytes <= slice_end(len, slices, slice_bytes, k) <= len,
        (k + 1) * slice_bytes <= len,
        (k + 1) * slice_bytes == k * slice_bytes + slice_bytes,
{
    assert(0 <= k * slice_bytes && (k + 1) * slice_bytes <= slices * slice_bytes && (k + 1)
        * slice_bytes == k * slice_bytes + slice_bytes) by (nonlinear_arith)
        requires
            0 <= k < slices,
            0 <= slice_bytes,
    ;
}

proof fn lemma_plan_fits(plan: SlicePlan, len: int, duration: int, chunk_ms: int)
    requires
        0 <= len,
        is_slice_plan(plan, len, duration, chunk_ms),
    ensures
        1 <= plan.slices,
        plan.slices * plan.slice_bytes <= len,
        plan.slice_bytes % TS_PACKET_SIZE == 0,
        TS_PACKET_SIZE <= len ==> TS_PACKET_SIZE <= plan.slice_bytes,
        plan.interval_nanos <= MAX_SEGMENT_NANOS,
{
    let duration = clamped(duration, MIN_SEGMENT_NANOS as int, MAX_SEGMENT_NANOS as int);
    let chunk = clamped(chunk_ms, MIN_CHUNK_MS as int, MAX_CHUNK_MS as int) * 1_000_000;
    lemma_intervals(duration, chunk);
    let n = plan.slices as int;
    let even = len / n;
    assert(n * even <= len) by (nonlinear_arith)
        requires
            even == len / n,
            n >= 1,
            len >= 0,
    ;
    assert(even >= 0) by (nonlinear_arith)
        requires
            even == len / n,
            n >= 1,
            len >= 0,
    ;
    let packets = len / 188;
    if packets >= 1 {
        assert(even >= 188) by (nonlinear_arith)
            requires
                even == len / n,
                1 <= n <= packets,
                packets * 188 <= len,
        ;
    }
    assert(plan.slice_bytes <= even);
    assert(duration / n <= duration) by (nonlinear_arith)
        requires
            n >= 1,
            duration >= 0,
    ;
    assert(n * plan.slice_bytes <= n * even) by (nonlinear_arith)
        requires
            plan.slice_bytes <= even,
            n >= 1,
    ;
}

/// The slices of a segment, laid end to end, are the segment.
pub proof fn law_slices_make_the_segment(
    data: Seq<u8>,
    plan: SlicePlan,
    duration: u64,
    chunk_ms: u64,
)
    requires
        is_slice_plan(plan, data.len() as int, duration as int, chunk_ms as int),
    ensures
        slices_joined(data, plan.slices as int, plan.slice_bytes as int, plan.slices as int)
            == data,
{
    lemma_plan_fits(plan, data.len() as int, duration as int, chunk_ms as int);
    let n = plan.slices as int;
    let b = plan.slice_bytes as int;
    lemma_joined_prefix(data, n, b, n - 1);
    lemma_slices_fit(data.len() as int, n, b, n - 1);
    assert(data.take((n - 1) * b) + data.subrange((n - 1) * b, data.len() as int) =~= data);
}

proof fn lemma_joined_prefix(data: Seq<u8>, slices: int, slice_bytes: int, n: int)
    requires
        0 <= n < slices,
        0 <= slice_bytes,
        slices * slice_bytes <= data.len(),
    ensures
        slices_joined(data, slices, slice_bytes, n) == data.take(n * slice_bytes),
    decreases n,
{
    if n > 0 {
        lemma_joined_prefix(data, slices, slice_bytes, n - 1);
        lemma_slices_fit(data.len() as int, slices, slice_bytes, n - 1);
        assert(data.take((n - 1) * slice_bytes) + data.subrange(
            (n - 1) * slice_bytes,
            n * slice_bytes,
        ) =~= data.take(n * slice_bytes));
    } else {
        assert(data.take(0) =~= Seq::empty());
    }
}

/// A segment of whole packets is cut at packet boundaries, and every slice holds a packet.
pub proof fn law_slices_are_whole_packets(
    data: Seq<u8>,
    plan: SlicePlan,
    duration: u64,
    chunk_ms: u64,
    k: int,
)
    requires
        data.len() > 0,
        data.len() % TS_PACKET_SIZE as nat == 0,
        is_slice_plan(plan, data.len() as int, duration as int, chunk_ms as int),
        0 <= k < plan.slices,
    ensures
        (k * plan.slice_bytes) % TS_PACKET_SIZE as int == 0,
        slice_of(data, plan.slices as int, plan.slice_bytes as int, k).len() > 0,
        slice_of(data, plan.slices as int, plan.slice_bytes as int, k).len()
            % TS_PACKET_SIZE as nat == 0,
{
    let len = data.len() as int;
    let n = plan.slices as int;
    let b = plan.slice_bytes as int;
    lemma_plan_fits(plan, len, duration as int, chunk_ms as int);
    lemma_slices_fit(len, n, b, k);
    let packets = b / 188;
    assert(b == 188 * packets);
    assert(k * b == 188 * (k * packets)) by (nonlinear_arith)
        requires
            b == 188 * packets,
    ;
}

/// The slices of a segment take no longer than the segment, within the limits of pacing, and
/// unless the packets are too few they are no further apart than asked for.
pub proof fn law_slices_fit_the_duration(plan: SlicePlan, len: usize, duration: u64, chunk_ms: u64)
    requires
        is_slice_plan(plan, len as int, duration as int, chunk_ms as int),
    ensures
        plan.slices * plan.interval_nanos <= clamped(
            duration as int,
            MIN_SEGMENT_NANOS as int,
            MAX_SEGMENT_NANOS as int,
        ),
        plan.slices < len / TS_PACKET_SIZE ==> plan.interval_nanos <= clamped(
            chunk_ms as int,
            MIN_CHUNK_MS as int,
            MAX_CHUNK_MS as int,
        ) * 1_000_000,
{
    let duration = clamped(duration as int, MIN_SEGMENT_NANOS as int, MAX_SEGMENT_NANOS as int);
    let chunk = clamped(chunk_ms as int, MIN_CHUNK_MS as int, MAX_CHUNK_MS as int) * 1_000_000;
    lemma_intervals(duration, chunk);
    let n = plan.slices as int;
    let t = plan.interval_nanos as int;
    assert(n * t <= duration) by (nonlinear_arith)
        requires
            t == duration / n,
            n >= 1,
            duration >= 0,
    ;
    if plan.slices < len / TS_PACKET_SIZE {
        assert(t <= chunk) by (nonlinear_arith)
            requires
                n * t <= duration,
                duration <= n * chunk,
                n >= 1,
        ;
    }
}

/// A segment on its way out, slice by slice.
#[derive(Debug)]
pub struct SmoothSegment {
    data: Vec<u8>,
    plan: SlicePlan,
    taken: usize,
}

impl SmoothSegment {
    /// The whole segment.
    pub closed spec fn data(self) -> Seq<u8> {
        self.data@
    }

    /// The cut.
    pub closed spec fn plan(self) -> SlicePlan {
        self.plan
    }

    /// How many slices have left.
    pub closed spec fn taken(self) -> int {
        self.taken as int
    }

    #[verifier::type_invariant]
    spec fn inv(self) -> bool {
        &&& self.taken <= self.plan.slices
        &&& 1 <= self.plan.slices
        &&& self.plan.slices * self.plan.slice_bytes <= self.data@.len()
        &&& self.plan.interval_nanos <= MAX_SEGMENT_NANOS
    }

    /// Start a segment. Without pacing it leaves in one piece.
    pub fn new(data: Vec<u8>, duration_nanos: u64, chunk_ms: u64, pace: bool) -> (segment: Self)
        ensures
            segment.data() == data@,
            segment.taken() == 0,
            pace ==> is_slice_plan(
                segment.plan(),
                data@.len() as int,
                duration_nanos as int,
                chunk_ms as int,
            ),
            !pace ==> {
                &&& segment.plan().slices == 1
                &&& segment.plan().slice_bytes == data@.len()
                &&& segment.plan().interval_nanos == clamped(
                    duration_nanos as int,
                    MIN_SEGMENT_NANOS as int,
                    MAX_SEGMENT_NANOS as int,
                )
            },
    {
        let len: usize = data.len();
        let plan: SlicePlan = if pace {
            let plan: SlicePlan = plan_smooth_slices(len, duration_nanos, chunk_ms);
            proof {
                lemma_plan_fits(plan, len as int, duration_nanos as int, chunk_ms as int);
            }
            plan
        } else {
            SlicePlan {
                slices: 1,
                slice_bytes: len,
                interval_nanos: clamp(duration_nanos, MIN_SEGMENT_NANOS, MAX_SEGMENT_NANOS),
            }
        };
        SmoothSegment { data, plan, taken: 0 }
    }

    /// Nanoseconds from one slice to the next.
    pub fn interval_nanos(&self) -> (nanos: u64)
        ensures
            nanos == self.plan().interval_nanos,
            nanos <= MAX_SEGMENT_NANOS,
    {
        proof {
            use_type_invariant(self);
        }
        self.plan.interval_nanos
    }

    /// True while slices are left.
    pub fn has_more(&self) -> (more: bool)
        ensures
            more == (self.taken() < self.plan().slices),
    {
        self.taken < self.plan.slices
    }

    /// The next slice; none when all have left.
    pub fn take_slice(&mut self) -> (slice: Option<Vec<u8>>)
        ensures
            final(self).data() == old(self).data(),
            final(self).plan() == old(self).plan(),
            old(self).taken() < old(self).plan().slices ==> {
                &&& slice matches Some(bytes)
                &&& bytes@ == slice_of(
                    old(self).data(),
                    old(self).plan().slices as int,
                    old(self).plan().slice_bytes as int,
                    old(self).taken(),
                )
                &&& final(self).taken() == old(self).taken() + 1
            },
            old(self).taken() >= old(self).plan().slices ==> slice is None && final(self).taken()
                == old(self).taken(),
    {
        proof {
            use_type_invariant(&*self);
        }
        if self.taken >= self.plan.slices {
            return None;
        }
        let k: usize = self.taken;
        let len: usize = self.data.len();
        let bytes: usize = self.plan.slice_bytes;
        proof {
            lemma_slices_fit(len as int, self.plan.slices as int, bytes as int, k as int);
        }
        let start: usize = k * bytes;
        let end: usize = if k + 1 == self.plan.slices {
            len
        } else {
            start + bytes
        };
        let mut slice: Vec<u8> = Vec::new();
        let mut i: usize = start;
        while i < end
            invariant
                start <= i <= end <= self.data@.len(),
                slice@ == self.data@.subrange(start as int, i as int),
            decreases end - i,
        {
            slice.push(self.data[i]);
            i = i + 1;
            assert(slice@ =~= self.data@.subrange(start as int, i as int));
        }
        self.taken = k + 1;
        Some(slice)
    }
}

/// The clock of one client's stream.
#[derive(Debug, Clone, Copy, PartialEq, Eq, Structural)]
pub struct Pacer {
    /// Send at media speed.
    pub pace: bool,
    /// When something was last ready to be sent.
    pub last_progress: u64,
    /// Nothing is sent before this time.
    pub deadline: Option<u64>,
    /// The source ran dry since something was last ready.
    pub underrun: bool,
}

/// What a stream does when no segment is there.
#[derive(Debug, Clone, Copy, PartialEq, Eq, Structural)]
pub enum IdleAction {
    /// Nothing came for too long: end the stream.
    Stop,
    /// Look again after the poll interval.
    Poll,
}

impl Pacer {
    /// The clock once a slice is ready: an underrun is over, and takes the deadline with it.
    pub open spec fn readied(self) -> Pacer {
        Pacer {
            deadline: if self.underrun {
                None
            } else {
                self.deadline
            },
            underrun: false,
            ..self
        }
    }

    /// The time to wait for, where there is one.
    pub open spec fn wait(self, now: u64) -> Option<u64> {
        match self.deadline {
            Some(deadline) if self.pace && now < deadline => Some(deadline),
            _ => None,
        }
    }

    /// The clock after a slice was sent.
    pub open spec fn sent(self, now: u64, interval_nanos: u64) -> Pacer {
        Pacer {
            deadline: if self.pace {
                Some((now + interval_nanos) as u64)
            } else {
                self.deadline
            },
            ..self
        }
    }

    /// The clock after the source ran dry.
    pub open spec fn idled(self) -> Pacer {
        Pacer { underrun: true, ..self }
    }

    /// Start the clock at `now`.
    pub fn start(pace: bool, now: u64) -> (pacer: Self)
        ensures
            pacer == (Pacer { pace, last_progress: now, deadline: None, underrun: false }),
    {
        Pacer { pace, last_progress: now, deadline: None, underrun: false }
    }

    /// A slice is ready at `now`. The result is the time to wait for, where there is one.
    ///
    /// After an underrun the pace is anchored anew: nothing is sent faster to catch up.
    pub fn on_ready(&mut self, now: u64) -> (wait_until: Option<u64>)
        ensures
            *final(self) == old(self).readied(),
            wait_until == old(self).readied().wait(now),
    {
        if self.underrun {
            self.deadline = None;
            self.underrun = false;
        }
        match self.deadline {
            Some(deadline) => if self.pace && now < deadline {
                Some(deadline)
            } else {
                None
            },
            None => None,
        }
    }

    /// The wait for a slice is over at `now`.
    pub fn on_due(&mut self, now: u64)
        ensures
            *final(self) == (Pacer { last_progress: now, ..*old(self) }),
    {
        self.last_progress = now;
    }

    /// A slice was sent at `now`, or a gap entered: the next is due one interval later.
    pub fn on_sent(&mut self, now: u64, interval_nanos: u64)
        requires
            now + interval_nanos <= u64::MAX,
        ensures
            *final(self) == old(self).sent(now, interval_nanos),
    {
        if self.pace {
            self.deadline = Some(now + interval_nanos);
        }
    }

    /// No segment is there at `now`.
    pub fn on_idle(&mut self, now: u64) -> (action: IdleAction)
        ensures
            *final(self) == old(self).idled(),
            action == (if now - old(self).last_progress >= IDLE_TIMEOUT_NANOS {
                IdleAction::Stop
            } else {
                IdleAction::Poll
            }),
    {
        self.underrun = true;
        if now >= self.last_progress && now - self.last_progress >= IDLE_TIMEOUT_NANOS {
            IdleAction::Stop
        } else {
            IdleAction::Poll
        }
    }
}

/// A paced stream leaves at least the interval between two slices: the second waits for the
/// first's interval to pass.
pub proof fn law_slices_keep_their_distance(
    pacer: Pacer,
    sent_at: u64,
    interval_nanos: u64,
    now: u64,
)
    requires
        pacer.pace,
        !pacer.underrun,
        sent_at + interval_nanos <= u64::MAX,
    ensures
        pacer.sent(sent_at, interval_nanos).readied().wait(now) == (if now < sent_at
            + interval_nanos {
            Some((sent_at + interval_nanos) as u64)
        } else {
            None
        }),
{
}

/// After an underrun the pace is anchored anew: what is ready next leaves at once, and what
/// follows it waits a full interval again, so nothing is sent in a burst to catch up.
pub proof fn law_underrun_anchors_anew(
    pacer: Pacer,
    now: u64,
    interval_nanos: u64,
    later: u64,
)
    requires
        pacer.pace,
        now + interval_nanos <= u64::MAX,
        later < now + interval_nanos,
    ensures
        pacer.idled().readied().wait(now) is None,
        pacer.idled().readied().sent(now, interval_nanos).readied().wait(later) == Some(
            (now + interval_nanos) as u64,
        ),
{
}

/// A stream without pacing never waits.
pub proof fn law_unpaced_never_waits(pacer: Pacer, now: u64)
    requires
        !pacer.pace,
    ensures
        pacer.readied().wait(now) is None,
{
}

/// A segment is paced by its own duration, but by no less than a tenth of a second and no more than
/// a minute.
pub open spec fn paced_duration(nanos: int) -> int {
    if nanos < 100_000_000 {
        100_000_000
    } else if nanos > 60_000_000_000 {
        60_000_000_000
    } else {
        nanos
    }
}

/// The interval that is asked for, in nanoseconds, but no less than fifty milliseconds and no more
/// than two seconds.
pub open spec fn asked_interval(chunk_ms: int) -> int {
    if chunk_ms < 50 {
        50_000_000
    } else if chunk_ms > 2_000 {
        2_000_000_000
    } else {
        chunk_ms * 1_000_000
    }
}

/// A segment is cut evenly. There are as many slices as intervals of the length asked for are needed
/// to cover its duration, but no more than packets. The slices are equal runs of whole packets, as
/// long as they can be, and their intervals equal parts of the duration.
pub proof fn law_segment_is_cut_evenly(plan: SlicePlan, len: int, duration: int, chunk_ms: int)
    requires
        0 <= len,
        is_slice_plan(plan, len, duration, chunk_ms),
    ensures
        1 <= plan.slices,
        len >= 188 ==> plan.slices * 188 <= len,
        len < 188 ==> plan.slices == 1,
        (plan.slices - 1) * asked_interval(chunk_ms) < paced_duration(duration),
        plan.slices * asked_interval(chunk_ms) >= paced_duration(duration) || plan.slices == len / 188
            || len < 188,
        plan.slice_bytes % 188 == 0,
        plan.slices * plan.slice_bytes <= len,
        len < plan.slices * (plan.slice_bytes + 188),
        plan.slices * plan.interval_nanos <= paced_duration(duration),
        paced_duration(duration) < plan.slices * (plan.interval_nanos + 1),
{
    let d = paced_duration(duration);
    let c = asked_interval(chunk_ms);
    lemma_intervals(d, c);
    lemma_plan_fits(plan, len, duration, chunk_ms);
    let wanted = intervals(d, c);
    let n = plan.slices as int;
    let packets = len / 188;
    assert(n * 188 <= packets * 188 || len < 188);
    assert((wanted - 1) * c < d) by (nonlinear_arith)
        requires
            wanted * c < d + c,
    ;
    assert((n - 1) * c < d) by (nonlinear_arith)
        requires
            n <= wanted || n == 1,
            (wanted - 1) * c < d,
            c >= 1,
            d >= 1,
    ;
    let even = len / n;
    assert(n * even <= len < n * (even + 1)) by (nonlinear_arith)
        requires
            even == len / n,
            n >= 1,
            len >= 0,
    ;
    let b = plan.slice_bytes as int;
    assert(b <= even < b + 188);
    assert(n * (even + 1) <= n * (b + 188)) by (nonlinear_arith)
        requires
            even + 1 <= b + 188,
            n >= 1,
    ;
    let t = plan.interval_nanos as int;
    assert(n * t <= d < n * (t + 1)) by (nonlinear_arith)
        requires
            t == d / n,
            n >= 1,
            d >= 0,
    ;
}

/// The slices follow one another: each begins where the one before ended, all but the last are of
/// the same length, and the last takes the rest.
pub proof fn law_slices_follow_one_another(data: Seq<u8>, slices: int, slice_bytes: int, k: int)
    requires
        0 <= k < slices,
        0 <= slice_bytes,
        slices * slice_bytes <= data.len(),
    ensures
        ({
            let slice = slice_of(data, slices, slice_bytes, k);
            &&& k + 1 < slices ==> slice == data.subrange(
                k * slice_bytes,
                k * slice_bytes + slice_bytes,
            )
            &&& k + 1 == slices ==> slice == data.skip(k * slice_bytes)
        }),
{
    lemma_slices_fit(data.len() as int, slices, slice_bytes, k);
    assert(data.subrange(k * slice_bytes, data.len() as int) =~= data.skip(k * slice_bytes));
}

/// What moves the clock of a stream. A slice that was sent sets the time of the next, one interval
/// later, and nothing else; without pacing it sets none. Running dry is noted and nothing else. A
/// slice that is ready ends that, and the time set before no longer counts then.
pub proof fn law_clock_is_moved_by_what_is_sent(pacer: Pacer, now: u64, interval_nanos: u64)
    requires
        now + interval_nanos <= u64::MAX,
    ensures
        pacer.pace ==> pacer.sent(now, interval_nanos) == (Pacer {
            pace: true,
            last_progress: pacer.last_progress,
            deadline: Some((now + interval_nanos) as u64),
            underrun: pacer.underrun,
        }),
        !pacer.pace ==> pacer.sent(now, interval_nanos) == pacer,
        pacer.idled() == (Pacer {
            pace: pacer.pace,
            last_progress: pacer.last_progress,
            deadline: pacer.deadline,
            underrun: true,
        }),
        !pacer.underrun ==> pacer.readied() == pacer,
        pacer.underrun ==> pacer.readied() == (Pacer {
            pace: pacer.pace,
            last_progress: pacer.last_progress,
            deadline: None,
            underrun: false,
        }),
{
}

/// A paced slice waits for its time where that is still to come, and for nothing else.
pub proof fn law_slice_waits_for_its_time(pacer: Pacer, now: u64, time: u64)
    ensures
        pacer.wait(now) == Some(time) <==> pacer.pace && pacer.deadline == Some(time) && now < time,
        pacer.deadline is None ==> pacer.wait(now) is None,
        pacer.deadline == Some(time) && time <= now ==> pacer.wait(now) is None,
{
}

} // verus!
