//! One `/mpegts` client's stream, from the first look at the directory to its end.
//!
//! An [`EgressStream`] answers every event with the next action. The caller performs the action
//! (looks at the directory, reads a file, waits, sends) and hands back the event. Times are
//! counted in nanoseconds of one clock.

use crate::mpegts::egress;
use crate::mpegts::egress::{IdleAction, Pacer, SlicePlan, SmoothSegment, MAX_SEGMENT_NANOS};
use crate::mpegts::streamer;
use crate::mpegts::streamer::{
    BufferWait, ChunkPlan, MpegTsStreamOpts, MpegTsStreamer, SegmentIndex, StreamError,
};
use vstd::prelude::*;
use vstd::string::*;

verus! {

/// What the caller does next.
#[derive(Debug)]
pub enum EgressAction {
    /// Look at the directory: [`EgressStream::on_scan`].
    Scan,
    /// Sleep so many seconds, then look at the directory.
    SleepThenScan(u64),
    /// Read the media file `name` of segment `number`, and its duration:
    /// [`EgressStream::on_segment`].
    ReadSegment { number: u64, name: String },
    /// Read the duration of the gap at `number`: [`EgressStream::on_gap`].
    ReadGap { number: u64 },
    /// Wait until this time: [`EgressStream::on_due`].
    WaitUntil(u64),
    /// Send these bytes: [`EgressStream::on_sent`].
    Send(Vec<u8>),
    /// End the stream.
    End,
    /// End the stream with this error.
    Fail(StreamError),
}

/// What an [`EgressAction`] says.
pub ghost enum ActionView {
    Scan,
    SleepThenScan(u64),
    ReadSegment { number: u64, name: Seq<char> },
    ReadGap { number: u64 },
    WaitUntil(u64),
    Send(Seq<u8>),
    End,
    Fail(StreamError),
}

impl View for EgressAction {
    type V = ActionView;

    open spec fn view(&self) -> ActionView {
        match self {
            EgressAction::Scan => ActionView::Scan,
            EgressAction::SleepThenScan(secs) => ActionView::SleepThenScan(*secs),
            EgressAction::ReadSegment { number, name } => ActionView::ReadSegment {
                number: *number,
                name: name@,
            },
            EgressAction::ReadGap { number } => ActionView::ReadGap { number: *number },
            EgressAction::WaitUntil(time) => ActionView::WaitUntil(*time),
            EgressAction::Send(bytes) => ActionView::Send(bytes@),
            EgressAction::End => ActionView::End,
            EgressAction::Fail(e) => ActionView::Fail(*e),
        }
    }
}

/// What is on its way to the client.
#[derive(Debug)]
enum Outgoing {
    Nothing,
    /// A gap that lasts so many nanoseconds.
    Gap(u64),
    Segment(SmoothSegment),
}

/// What is on its way to the client.
pub ghost enum OutgoingView {
    Nothing,
    Gap(u64),
    Segment { data: Seq<u8>, plan: SlicePlan, taken: int },
}

impl View for Outgoing {
    type V = OutgoingView;

    closed spec fn view(&self) -> OutgoingView {
        match self {
            Outgoing::Nothing => OutgoingView::Nothing,
            Outgoing::Gap(nanos) => OutgoingView::Gap(*nanos),
            Outgoing::Segment(segment) => OutgoingView::Segment {
                data: segment.data(),
                plan: segment.plan(),
                taken: segment.taken(),
            },
        }
    }
}

/// The stream of one client.
#[derive(Debug)]
pub struct EgressStream {
    filling_since: Option<u64>,
    streamer: MpegTsStreamer,
    pacer: Pacer,
    chunk_ms: u64,
    outgoing: Outgoing,
}

/// What is known of the stream of one client.
pub ghost struct EgressState {
    /// The stream waits for the buffer to fill, since this time.
    pub filling_since: Option<u64>,
    /// The place in the numbering.
    pub streamer: MpegTsStreamer,
    /// The pace.
    pub pacer: Pacer,
    /// The target interval between two slices, in milliseconds.
    pub chunk_ms: u64,
    /// What is on its way.
    pub outgoing: OutgoingView,
}

impl View for EgressStream {
    type V = EgressState;

    closed spec fn view(&self) -> EgressState {
        EgressState {
            filling_since: self.filling_since,
            streamer: self.streamer,
            pacer: self.pacer,
            chunk_ms: self.chunk_ms,
            outgoing: self.outgoing@,
        }
    }
}

/// The time that a segment takes, within the limits of pacing.
pub open spec fn paced_nanos(nanos: u64) -> u64 {
    egress::clamped(
        nanos as int,
        egress::MIN_SEGMENT_NANOS as int,
        MAX_SEGMENT_NANOS as int,
    ) as u64
}

/// The wait for what is on its way is over.
pub open spec fn due(s: EgressState, now: u64) -> (EgressState, ActionView) {
    let s = EgressState { pacer: Pacer { last_progress: now, ..s.pacer }, ..s };
    match s.outgoing {
        OutgoingView::Nothing => (s, ActionView::Scan),
        OutgoingView::Gap(nanos) => (
            EgressState {
                pacer: s.pacer.sent(now, paced_nanos(nanos)),
                outgoing: OutgoingView::Nothing,
                ..s
            },
            ActionView::Scan,
        ),
        OutgoingView::Segment { data, plan, taken } => if taken < plan.slices {
            (
                EgressState {
                    outgoing: OutgoingView::Segment { data, plan, taken: taken + 1 },
                    ..s
                },
                ActionView::Send(
                    egress::slice_of(data, plan.slices as int, plan.slice_bytes as int, taken),
                ),
            )
        } else {
            (EgressState { outgoing: OutgoingView::Nothing, ..s }, ActionView::Scan)
        },
    }
}

/// What is on its way is ready to leave: at once, or when the pace allows.
pub open spec fn ready(s: EgressState, now: u64) -> (EgressState, ActionView) {
    let s = EgressState { pacer: s.pacer.readied(), ..s };
    match s.pacer.wait(now) {
        Some(time) => (s, ActionView::WaitUntil(time)),
        None => due(s, now),
    }
}

/// The directory was looked at while the buffer fills.
pub open spec fn filled(s: EgressState, since: u64, media: nat, now: u64) -> (
    EgressState,
    ActionView,
) {
    if media >= s.streamer.min_buffer {
        (
            EgressState {
                filling_since: None,
                pacer: Pacer { last_progress: now, ..s.pacer },
                ..s
            },
            ActionView::Scan,
        )
    } else if now - since >= streamer::IDLE_TIMEOUT_NANOS {
        (s, ActionView::Fail(StreamError::BufferNotReady))
    } else {
        (s, ActionView::SleepThenScan(s.streamer.poll_secs))
    }
}

/// The directory was looked at.
pub open spec fn scanned(s: EgressState, index: streamer::IndexView, now: u64) -> (
    EgressState,
    ActionView,
) {
    match s.filling_since {
        Some(since) => filled(s, since, index.media.dom().len(), now),
        None => {
            let (streamer, plan) = streamer::planned(s.streamer, index);
            let s = EgressState { streamer, ..s };
            match plan {
                Err(e) => (s, ActionView::Fail(e)),
                Ok(streamer::ChunkPlanView::Media { number, name }) => (
                    s,
                    ActionView::ReadSegment { number, name },
                ),
                Ok(streamer::ChunkPlanView::Gap { number }) => (
                    s,
                    ActionView::ReadGap { number },
                ),
                Ok(streamer::ChunkPlanView::Wait) => (
                    EgressState { pacer: s.pacer.idled(), ..s },
                    if now - s.pacer.last_progress >= streamer::IDLE_TIMEOUT_NANOS {
                        ActionView::End
                    } else {
                        ActionView::SleepThenScan(s.streamer.poll_secs)
                    },
                ),
            }
        },
    }
}

/// The segment was cut for its way to the client.
pub open spec fn is_cut(
    outgoing: OutgoingView,
    data: Seq<u8>,
    duration_nanos: u64,
    chunk_ms: u64,
    pace: bool,
) -> bool {
    outgoing matches OutgoingView::Segment { data: d, plan, taken } && d == data && taken == 0 && (
    if pace {
        egress::is_slice_plan(plan, data.len() as int, duration_nanos as int, chunk_ms as int)
    } else {
        plan.slices == 1 && plan.slice_bytes == data.len() && plan.interval_nanos == paced_nanos(
            duration_nanos,
        )
    })
}

/// What was on its way was sent.
pub open spec fn sent(s: EgressState, now: u64) -> (EgressState, ActionView) {
    match s.outgoing {
        OutgoingView::Segment { data, plan, taken } => {
            let s = EgressState { pacer: s.pacer.sent(now, plan.interval_nanos), ..s };
            if taken < plan.slices {
                ready(s, now)
            } else {
                (EgressState { outgoing: OutgoingView::Nothing, ..s }, ActionView::Scan)
            }
        },
        _ => (s, ActionView::Scan),
    }
}

impl EgressStream {
    /// A stream that begins to fill its buffer at `now`. The first action is to look at the
    /// directory.
    pub fn start(opts: &MpegTsStreamOpts, now: u64) -> (stream: Self)
        ensures
            stream@ == (EgressState {
                filling_since: Some(now),
                streamer: streamer::unjoined(*opts),
                pacer: Pacer {
                    pace: opts.pace_egress,
                    last_progress: now,
                    deadline: None,
                    underrun: false,
                },
                chunk_ms: opts.egress_chunk_ms,
                outgoing: OutgoingView::Nothing,
            }),
    {
        EgressStream {
            filling_since: Some(now),
            streamer: MpegTsStreamer::new(opts),
            pacer: Pacer::start(opts.pace_egress, now),
            chunk_ms: opts.egress_chunk_ms,
            outgoing: Outgoing::Nothing,
        }
    }

    /// The directory was looked at.
    pub fn on_scan(&mut self, index: &SegmentIndex, now: u64) -> (action: EgressAction)
        ensures
            (final(self)@, action@) == scanned(old(self)@, index@, now),
    {
        match self.filling_since {
            Some(since) => {
                let waited: u64 = now.saturating_sub(since);
                match self.streamer.wait_for_min_buffer(index, waited) {
                    BufferWait::Ready => {
                        self.filling_since = None;
                        self.pacer.on_due(now);
                        EgressAction::Scan
                    },
                    BufferWait::TimedOut => EgressAction::Fail(StreamError::BufferNotReady),
                    BufferWait::Poll => EgressAction::SleepThenScan(self.streamer.poll_secs),
                }
            },
            None => match self.streamer.next_chunk(index) {
                Ok(ChunkPlan::Media { number, name }) => EgressAction::ReadSegment {
                    number,
                    name,
                },
                Ok(ChunkPlan::Gap { number }) => EgressAction::ReadGap { number },
                Ok(ChunkPlan::Wait) => match self.pacer.on_idle(now) {
                    IdleAction::Stop => EgressAction::End,
                    IdleAction::Poll => EgressAction::SleepThenScan(self.streamer.poll_secs),
                },
                Err(e) => EgressAction::Fail(e),
            },
        }
    }

    /// Segment `number` was read.
    pub fn on_segment(&mut self, number: u64, bytes: Vec<u8>, duration_nanos: u64, now: u64) -> (
    action: EgressAction)
        requires
            now + MAX_SEGMENT_NANOS <= u64::MAX,
        ensures
            if streamer::is_sendable(bytes@) {
                exists|s: EgressState| #[trigger]
                    is_cut(
                        s.outgoing,
                        bytes@,
                        duration_nanos,
                        old(self)@.chunk_ms,
                        old(self)@.pacer.pace,
                    ) && s == (EgressState {
                        streamer: MpegTsStreamer {
                            next_number: Some(streamer::following(number)),
                            ..old(self)@.streamer
                        },
                        outgoing: s.outgoing,
                        ..old(self)@
                    }) && (final(self)@, action@) == ready(s, now)
            } else {
                &&& action@ == ActionView::Fail(StreamError::InvalidSegment { number })
                &&& final(self)@ == old(self)@
            },
    {
        match self.streamer.accept_chunk(number, bytes.as_slice()) {
            Ok(()) => {
                self.outgoing = Outgoing::Segment(
                    SmoothSegment::new(bytes, duration_nanos, self.chunk_ms, self.pacer.pace),
                );
                let ghost s = self@;
                assert(is_cut(
                    s.outgoing,
                    bytes@,
                    duration_nanos,
                    old(self)@.chunk_ms,
                    old(self)@.pacer.pace,
                ));
                self.offer(now)
            },
            Err(e) => EgressAction::Fail(e),
        }
    }

    /// The duration of the gap at `number` was read.
    pub fn on_gap(&mut self, number: u64, duration_nanos: u64, now: u64) -> (action: EgressAction)
        requires
            now + MAX_SEGMENT_NANOS <= u64::MAX,
        ensures
            (final(self)@, action@) == ready(
                (EgressState {
                    streamer: MpegTsStreamer {
                        next_number: Some(streamer::following(number)),
                        ..old(self)@.streamer
                    },
                    outgoing: OutgoingView::Gap(duration_nanos),
                    ..old(self)@
                }),
                now,
            ),
    {
        self.streamer.pass_gap(number);
        self.outgoing = Outgoing::Gap(duration_nanos);
        self.offer(now)
    }

    fn offer(&mut self, now: u64) -> (action: EgressAction)
        requires
            now + MAX_SEGMENT_NANOS <= u64::MAX,
        ensures
            (final(self)@, action@) == ready(old(self)@, now),
    {
        match self.pacer.on_ready(now) {
            Some(time) => EgressAction::WaitUntil(time),
            None => self.on_due(now),
        }
    }

    /// The wait for what is on its way is over.
    pub fn on_due(&mut self, now: u64) -> (action: EgressAction)
        requires
            now + MAX_SEGMENT_NANOS <= u64::MAX,
        ensures
            (final(self)@, action@) == due(old(self)@, now),
    {
        self.pacer.on_due(now);
        match &mut self.outgoing {
            Outgoing::Nothing => EgressAction::Scan,
            Outgoing::Gap(nanos) => {
                let nanos: u64 = egress::clamp(
                    *nanos,
                    egress::MIN_SEGMENT_NANOS,
                    MAX_SEGMENT_NANOS,
                );
                self.pacer.on_sent(now, nanos);
                self.outgoing = Outgoing::Nothing;
                EgressAction::Scan
            },
            Outgoing::Segment(segment) => match segment.take_slice() {
                Some(bytes) => EgressAction::Send(bytes),
                None => {
                    self.outgoing = Outgoing::Nothing;
                    EgressAction::Scan
                },
            },
        }
    }

    /// What was on its way was sent at `now`.
    pub fn on_sent(&mut self, now: u64) -> (action: EgressAction)
        requires
            now + MAX_SEGMENT_NANOS <= u64::MAX,
        ensures
            (final(self)@, action@) == sent(old(self)@, now),
    {
        match &self.outgoing {
            Outgoing::Segment(segment) => {
                let interval: u64 = segment.interval_nanos();
                let more: bool = segment.has_more();
                self.pacer.on_sent(now, interval);
                if more {
                    self.offer(now)
                } else {
                    self.outgoing = Outgoing::Nothing;
                    EgressAction::Scan
                }
            },
            _ => EgressAction::Scan,
        }
    }
}

/// A segment reaches the client whole, with and without pacing: every slice goes on where the
/// one before ended, and the last one completes the segment.
pub proof fn law_segment_is_sent_whole(
    s: EgressState,
    data: Seq<u8>,
    plan: SlicePlan,
    taken: int,
    duration: u64,
    chunk_ms: u64,
    pace: bool,
    now: u64,
)
    requires
        s.outgoing == (OutgoingView::Segment { data, plan, taken }),
        0 <= taken < plan.slices,
        is_cut(OutgoingView::Segment { data, plan, taken: 0 }, data, duration, chunk_ms, pace),
    ensures
        due(s, now).1 matches ActionView::Send(bytes) && egress::slices_joined(
            data,
            plan.slices as int,
            plan.slice_bytes as int,
            taken,
        ) + bytes == egress::slices_joined(
            data,
            plan.slices as int,
            plan.slice_bytes as int,
            taken + 1,
        ),
        due(s, now).0.outgoing == (OutgoingView::Segment { data, plan, taken: taken + 1 }),
        taken + 1 == plan.slices ==> egress::slices_joined(
            data,
            plan.slices as int,
            plan.slice_bytes as int,
            taken + 1,
        ) == data,
{
    if taken + 1 == plan.slices {
        if pace {
            egress::law_slices_make_the_segment(data, plan, duration, chunk_ms);
        } else {
            let len = plan.slice_bytes as int;
            assert(egress::slices_joined(data, 1, len, 0) =~= Seq::empty());
            assert(egress::slices_joined(data, 1, len, 1) =~= data);
        }
    }
}

/// Nothing is sent for a gap: the stream only pauses as long as the gap lasts, within the
/// limits of pacing.
pub proof fn law_gap_is_only_waited_for(s: EgressState, nanos: u64, now: u64)
    requires
        s.outgoing == OutgoingView::Gap(nanos),
        s.pacer.pace,
        now + paced_nanos(nanos) <= u64::MAX,
    ensures
        due(s, now).1 == ActionView::Scan,
        due(s, now).0.pacer.deadline == Some((now + paced_nanos(nanos)) as u64),
{
}

/// A paced stream sends nothing before its time, unless the source ran dry since.
pub proof fn law_nothing_is_sent_early(s: EgressState, now: u64)
    requires
        s.pacer.pace,
        ready(s, now).1 is Send,
    ensures
        s.pacer.underrun || s.pacer.deadline is None || s.pacer.deadline->0 <= now,
{
}

/// A stream does not start before the buffer is filled, and gives up when that takes a minute.
pub proof fn law_stream_starts_with_a_filled_buffer(
    s: EgressState,
    index: streamer::IndexView,
    now: u64,
)
    requires
        s.filling_since is Some,
    ensures
        scanned(s, index, now).0.filling_since is None <==> index.media.dom().len()
            >= s.streamer.min_buffer,
        scanned(s, index, now).1 == ActionView::Fail(StreamError::BufferNotReady)
            <==> index.media.dom().len() < s.streamer.min_buffer && now - s.filling_since->0
            >= streamer::IDLE_TIMEOUT_NANOS,
{
}

/// A gap and an unpaced segment take their own time, but no less than a tenth of a second and no
/// more than a minute.
pub proof fn law_time_of_a_segment_is_limited(nanos: u64)
    ensures
        nanos < 100_000_000 ==> paced_nanos(nanos) == 100_000_000,
        100_000_000 <= nanos <= 60_000_000_000 ==> paced_nanos(nanos) == nanos,
        nanos > 60_000_000_000 ==> paced_nanos(nanos) == 60_000_000_000,
{
}

/// What a look at the directory leads to once the stream runs: a segment or a gap that is planned is
/// read, an error ends the stream, and where nothing is planned the stream waits its poll interval,
/// and ends once nothing was ready for a minute.
pub proof fn law_plan_decides_what_is_read(
    s: EgressState,
    index: streamer::IndexView,
    now: u64,
)
    requires
        s.filling_since is None,
    ensures
        ({
            let (after, action) = scanned(s, index, now);
            let (planned, plan) = streamer::planned(s.streamer, index);
            &&& after.streamer == planned
            &&& after.filling_since is None
            &&& after.chunk_ms == s.chunk_ms
            &&& after.outgoing == s.outgoing
            &&& match plan {
                Ok(streamer::ChunkPlanView::Media { number, name }) => action
                    == (ActionView::ReadSegment { number, name }) && after.pacer == s.pacer,
                Ok(streamer::ChunkPlanView::Gap { number }) => action == (ActionView::ReadGap {
                    number,
                }) && after.pacer == s.pacer,
                Err(e) => action == ActionView::Fail(e),
                Ok(streamer::ChunkPlanView::Wait) => {
                    &&& now - s.pacer.last_progress >= 60_000_000_000 ==> action == ActionView::End
                    &&& now - s.pacer.last_progress < 60_000_000_000 ==> action
                        == ActionView::SleepThenScan(planned.poll_secs)
                    &&& after.pacer.underrun
                    &&& after.pacer.deadline == s.pacer.deadline
                    &&& after.pacer.last_progress == s.pacer.last_progress
                },
            }
        }),
{
}

/// What a look at the directory leads to while the buffer fills: once it holds the segments asked
/// for the stream begins, and counts from now; before that it waits its poll interval, and fails
/// once it waited a minute.
pub proof fn law_buffer_is_filled_before_the_start(
    s: EgressState,
    index: streamer::IndexView,
    now: u64,
    since: u64,
)
    requires
        s.filling_since == Some(since),
    ensures
        ({
            let (after, action) = scanned(s, index, now);
            let ready = index.media.dom().len() >= s.streamer.min_buffer;
            &&& after.streamer == s.streamer
            &&& after.outgoing == s.outgoing
            &&& after.chunk_ms == s.chunk_ms
            &&& ready ==> {
                &&& action == ActionView::Scan
                &&& after.filling_since is None
                &&& after.pacer == (Pacer { last_progress: now, ..s.pacer })
            }
            &&& !ready ==> after == s
            &&& !ready && now - since >= 60_000_000_000 ==> action == ActionView::Fail(
                StreamError::BufferNotReady,
            )
            &&& !ready && now - since < 60_000_000_000 ==> action == ActionView::SleepThenScan(
                s.streamer.poll_secs,
            )
        }),
{
}

/// What is on its way leaves when its time has come, and waits for it before that. A wait changes
/// neither what is on its way nor the place in the numbering.
pub proof fn law_outgoing_waits_for_its_time(s: EgressState, now: u64, time: u64)
    requires
        s.pacer.pace,
        !s.pacer.underrun,
        s.pacer.deadline == Some(time),
    ensures
        now < time ==> ready(s, now) == (s, ActionView::WaitUntil(time)),
        now >= time ==> ready(s, now) == due(s, now),
{
}

/// Without pacing, without a time that was set, and after the source ran dry, what is on its way
/// leaves at once.
pub proof fn law_outgoing_leaves_at_once_otherwise(s: EgressState, now: u64)
    requires
        !s.pacer.pace || s.pacer.underrun || s.pacer.deadline is None,
    ensures
        ({
            let fresh = EgressState {
                pacer: Pacer {
                    underrun: false,
                    deadline: if s.pacer.underrun {
                        None
                    } else {
                        s.pacer.deadline
                    },
                    ..s.pacer
                },
                ..s
            };
            ready(s, now) == due(fresh, now)
        }),
{
}

/// When its time has come, a segment sends its next slice, a gap sets its time and is over, and
/// where nothing is left the directory is looked at. Whatever it was, the stream made progress now;
/// the place in the numbering stays.
pub proof fn law_outgoing_leaves_slice_by_slice(s: EgressState, now: u64)
    requires
        now + 60_000_000_000 <= u64::MAX,
    ensures
        ({
            let (after, action) = due(s, now);
            &&& after.pacer.last_progress == now
            &&& after.pacer.pace == s.pacer.pace
            &&& after.pacer.underrun == s.pacer.underrun
            &&& after.streamer == s.streamer
            &&& after.filling_since == s.filling_since
            &&& after.chunk_ms == s.chunk_ms
            &&& match s.outgoing {
                OutgoingView::Nothing => action == ActionView::Scan && after.outgoing
                    == OutgoingView::Nothing && after.pacer.deadline == s.pacer.deadline,
                OutgoingView::Gap(nanos) => {
                    &&& action == ActionView::Scan
                    &&& after.outgoing == OutgoingView::Nothing
                    &&& !s.pacer.pace ==> after.pacer.deadline == s.pacer.deadline
                    &&& s.pacer.pace && 100_000_000 <= nanos <= 60_000_000_000
                        ==> after.pacer.deadline == Some((now + nanos) as u64)
                },
                OutgoingView::Segment { data, plan, taken } => {
                    &&& after.pacer.deadline == s.pacer.deadline
                    &&& taken < plan.slices ==> {
                        &&& action == ActionView::Send(
                            egress::slice_of(
                                data,
                                plan.slices as int,
                                plan.slice_bytes as int,
                                taken,
                            ),
                        )
                        &&& after.outgoing == (OutgoingView::Segment {
                            data,
                            plan,
                            taken: taken + 1,
                        })
                    }
                    &&& taken >= plan.slices ==> action == ActionView::Scan && after.outgoing
                        == OutgoingView::Nothing
                },
            }
        }),
{
}

/// A slice that was sent sets the time of the next one, an interval later. The next slice waits for
/// it; after the last the directory is looked at, and what is read then waits for it.
pub proof fn law_next_slice_waits_an_interval(
    s: EgressState,
    data: Seq<u8>,
    plan: SlicePlan,
    taken: int,
    now: u64,
)
    requires
        s.outgoing == (OutgoingView::Segment { data, plan, taken }),
        s.pacer.pace,
        !s.pacer.underrun,
        plan.interval_nanos > 0,
        now + plan.interval_nanos <= u64::MAX,
    ensures
        ({
            let (after, action) = sent(s, now);
            let time = (now + plan.interval_nanos) as u64;
            &&& after.pacer.deadline == Some(time)
            &&& after.streamer == s.streamer
            &&& taken < plan.slices ==> action == ActionView::WaitUntil(time) && after.outgoing
                == s.outgoing
            &&& taken >= plan.slices ==> action == ActionView::Scan && after.outgoing
                == OutgoingView::Nothing
        }),
{
}

/// Without pacing the next slice leaves at once. Where no segment is on its way there is nothing to
/// go on with.
pub proof fn law_unpaced_slices_follow_at_once(s: EgressState, now: u64)
    requires
        !s.pacer.pace,
        !s.pacer.underrun,
    ensures
        match s.outgoing {
            OutgoingView::Segment { data, plan, taken } => if taken < plan.slices {
                sent(s, now) == due(s, now)
            } else {
                sent(s, now) == (
                    (EgressState { outgoing: OutgoingView::Nothing, ..s }),
                    ActionView::Scan,
                )
            },
            _ => sent(s, now) == (s, ActionView::Scan),
        },
{
}

/// A segment that is taken up is sent from its beginning, all of it: in even slices where the stream
/// is paced, and in one piece where it is not.
pub proof fn law_segment_is_taken_up_whole(
    outgoing: OutgoingView,
    data: Seq<u8>,
    duration_nanos: u64,
    chunk_ms: u64,
    pace: bool,
)
    requires
        is_cut(outgoing, data, duration_nanos, chunk_ms, pace),
    ensures
        outgoing matches OutgoingView::Segment { data: bytes, plan, taken } && {
            &&& bytes == data
            &&& taken == 0
            &&& pace ==> egress::is_slice_plan(
                plan,
                data.len() as int,
                duration_nanos as int,
                chunk_ms as int,
            )
            &&& !pace ==> plan.slices == 1 && egress::slice_of(data, 1, plan.slice_bytes as int, 0)
                == data
        },
{
    if let OutgoingView::Segment { data: bytes, plan, taken } = outgoing {
        if !pace {
            let b = plan.slice_bytes as int;
            assert(0 * b == 0);
            assert(egress::slice_of(data, 1, b, 0) =~= data);
        }
    }
}

/// An action is shown in full: the bytes that are sent, the file that is read, the times that are
/// waited for, the error.
pub proof fn law_actions_are_shown_in_full(action: EgressAction)
    ensures
        match (action, action@) {
            (EgressAction::Scan, ActionView::Scan) => true,
            (EgressAction::SleepThenScan(secs), ActionView::SleepThenScan(shown)) => secs == shown,
            (
                EgressAction::ReadSegment { number, name },
                ActionView::ReadSegment { number: shown, name: text },
            ) => number == shown && name@ == text,
            (EgressAction::ReadGap { number }, ActionView::ReadGap { number: shown }) => number
                == shown,
            (EgressAction::WaitUntil(time), ActionView::WaitUntil(shown)) => time == shown,
            (EgressAction::Send(bytes), ActionView::Send(shown)) => bytes@ == shown,
            (EgressAction::End, ActionView::End) => true,
            (EgressAction::Fail(e), ActionView::Fail(shown)) => e == shown,
            _ => false,
        },
{
}

} // verus!
