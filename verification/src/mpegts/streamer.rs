//! Live-edge cursor that streams cached continuous `.ts` segments over HTTP.
//!
//! A client joins behind the live edge (holdback), follows the numbering, jumps forward when
//! it lags too far, and is sent away to reconnect when the numbering starts over. The caller
//! reads the directory and the files; what is read next is decided here.

use crate::double::{Double, TWO_BITS};
use crate::mpegts::continuous;
use crate::mpegts::continuous::{SYNC_BYTE, TS_PACKET_SIZE};
use crate::mpegts::repair;
use crate::mpegts::stitch;
use crate::mpegts::stitch::{parse_dur_seg_number, parse_ts_seg_number, ts_file_name};
use crate::number;
use crate::number::number_text;
use crate::text;
use std::collections::{BTreeMap, BTreeSet};
use vstd::prelude::*;
use vstd::string::*;

verus! {

broadcast use {
    vstd::std_specs::btree::group_btree_axioms,
    vstd::laws_cmp::group_laws_cmp,
};

/// Seconds between two looks at the directory where the options name none.
pub const DEFAULT_POLL_SECS: u64 = 2;

/// Nanoseconds without a new segment after which a stream ends.
pub const IDLE_TIMEOUT_NANOS: u64 = 60_000_000_000;

/// Options for one `/mpegts` client stream.
#[derive(Debug, Clone, Copy, PartialEq, Eq, Structural)]
pub struct MpegTsStreamOpts {
    pub poll_interval_secs: u64,
    pub holdback_segments: u64,
    pub min_buffer_segments: u64,
    pub max_segment_lag: u64,
    pub send_queue: usize,
    pub pace_egress: bool,
    pub egress_chunk_ms: u64,
    pub default_segment_duration_secs: Double,
}

impl Default for MpegTsStreamOpts {
    fn default() -> (opts: Self)
        ensures
            opts == (MpegTsStreamOpts {
                poll_interval_secs: 2,
                holdback_segments: 6,
                min_buffer_segments: 3,
                max_segment_lag: 10,
                send_queue: 32,
                pace_egress: true,
                egress_chunk_ms: 250,
                default_segment_duration_secs: Double { bits: TWO_BITS },
            }),
    {
        MpegTsStreamOpts {
            poll_interval_secs: 2,
            holdback_segments: 6,
            min_buffer_segments: 3,
            max_segment_lag: 10,
            send_queue: 32,
            pace_egress: true,
            egress_chunk_ms: 250,
            default_segment_duration_secs: Double { bits: TWO_BITS },
        }
    }
}

/// Each media segment of a directory with the file that holds it: of two files with the same
/// number the one read last counts.
pub open spec fn media_files(names: Seq<Seq<char>>) -> Map<u64, Seq<char>>
    decreases names.len(),
{
    if names.len() == 0 {
        Map::empty()
    } else {
        let before = media_files(names.drop_last());
        match stitch::segment_number(names.last(), ".ts"@) {
            Some(n) => before.insert(n, names.last()),
            None => before,
        }
    }
}

/// The numbers for which a directory holds a duration.
pub open spec fn duration_numbers(names: Seq<Seq<char>>) -> Set<u64>
    decreases names.len(),
{
    if names.len() == 0 {
        Set::empty()
    } else {
        let before = duration_numbers(names.drop_last());
        match stitch::segment_number(names.last(), ".dur"@) {
            Some(n) => before.insert(n),
            None => before,
        }
    }
}

/// What a directory offers to a stream.
pub ghost struct IndexView {
    /// The media segments, by number, with their file names.
    pub media: Map<u64, Seq<char>>,
    /// The numbers with a duration. One without media is a gap.
    pub durations: Set<u64>,
}

/// What a directory with files of these names offers.
pub open spec fn index_of(names: Seq<Seq<char>>) -> IndexView {
    IndexView { media: media_files(names), durations: duration_numbers(names) }
}

/// `n` is the least number of the set.
pub open spec fn is_least(all: Set<u64>, n: u64) -> bool {
    all.contains(n) && forall|m: u64| #[trigger] all.contains(m) ==> n <= m
}

/// `n` is the greatest number of the set.
pub open spec fn is_greatest(all: Set<u64>, n: u64) -> bool {
    all.contains(n) && forall|m: u64| #[trigger] all.contains(m) ==> m <= n
}

impl IndexView {
    /// Every number that stands for media or for a gap.
    pub open spec fn numbers(self) -> Set<u64> {
        self.media.dom().union(self.durations)
    }

    /// The oldest cached number.
    pub open spec fn floor(self) -> u64 {
        choose|n: u64| is_least(self.numbers(), n)
    }

    /// The newest cached number.
    pub open spec fn live_edge(self) -> u64 {
        choose|n: u64| is_greatest(self.numbers(), n)
    }
}

/// The first and the last number of a set, where it has any.
spec fn bounded_by(all: Set<u64>, bounds: Option<(u64, u64)>) -> bool {
    match bounds {
        Some((lo, hi)) => is_least(all, lo) && is_greatest(all, hi),
        None => all =~= Set::empty(),
    }
}

/// The segments of a channel directory, by number.
#[derive(Debug)]
pub struct SegmentIndex {
    media: BTreeMap<u64, String>,
    durations: BTreeSet<u64>,
    bounds: Option<(u64, u64)>,
}

impl View for SegmentIndex {
    type V = IndexView;

    closed spec fn view(&self) -> IndexView {
        IndexView {
            media: self.media@.map_values(|name: String| name@),
            durations: self.durations@,
        }
    }
}

fn widened(bounds: Option<(u64, u64)>, n: u64) -> (wider: Option<(u64, u64)>)
    ensures
        forall|all: Set<u64>|
            bounded_by(all, bounds) ==> #[trigger] bounded_by(all.insert(n), wider),
{
    match bounds {
        Some((lo, hi)) => Some(
            (
                if n < lo {
                    n
                } else {
                    lo
                },
                if n > hi {
                    n
                } else {
                    hi
                },
            ),
        ),
        None => Some((n, n)),
    }
}

impl SegmentIndex {
    #[verifier::type_invariant]
    spec fn inv(self) -> bool {
        bounded_by(self@.numbers(), self.bounds)
    }

    /// Find the segments among the file names of a channel directory.
    pub fn scan(names: &Vec<String>) -> (index: Self)
        ensures
            index@ == index_of(text::texts(names@)),
    {
        let mut media: BTreeMap<u64, String> = BTreeMap::new();
        let mut durations: BTreeSet<u64> = BTreeSet::new();
        let mut bounds: Option<(u64, u64)> = None;
        let mut i: usize = 0;
        let ghost all = text::texts(names@);
        let ghost file = |name: String| name@;
        assert(media@.map_values(file) =~= Map::empty());
        while i < names.len()
            invariant
                i <= names@.len(),
                all == text::texts(names@),
                file == (|name: String| name@),
                media@.map_values(file) == media_files(all.take(i as int)),
                durations@ == duration_numbers(all.take(i as int)),
                bounded_by(media@.dom().union(durations@), bounds),
            decreases names@.len() - i,
        {
            let name: &str = names[i].as_str();
            let ghost seen = media@.dom().union(durations@);
            proof {
                assert(all.take(i + 1).drop_last() =~= all.take(i as int));
                assert(all.take(i + 1).last() == name@);
            }
            match parse_ts_seg_number(name) {
                Some(n) => {
                    let ghost before = media@;
                    media.insert(n, name.to_owned());
                    bounds = widened(bounds, n);
                    proof {
                        assert(media@.map_values(file) =~= before.map_values(file).insert(
                            n,
                            name@,
                        ));
                        assert(media@.dom().union(durations@) =~= seen.insert(n));
                    }
                },
                None => {},
            }
            let ghost seen = media@.dom().union(durations@);
            match parse_dur_seg_number(name) {
                Some(n) => {
                    durations.insert(n);
                    bounds = widened(bounds, n);
                    assert(media@.dom().union(durations@) =~= seen.insert(n));
                },
                None => {},
            }
            i = i + 1;
        }
        proof {
            assert(all.take(i as int) =~= all);
            assert(media@.map_values(file).dom() =~= media@.dom());
        }
        SegmentIndex { media, durations, bounds }
    }

    /// How many media segments there are.
    pub fn media_count(&self) -> (count: usize)
        ensures
            count == self@.media.dom().len(),
    {
        assert(self@.media.dom() =~= self.media@.dom());
        self.media.len()
    }
}

/// True when a channel directory with files of these names has at least `min_buffer`
/// continuous TS segments.
pub fn channel_mpegts_ready(names: &Vec<String>, min_buffer: u64) -> (ready: bool)
    ensures
        ready == (media_files(text::texts(names@)).dom().len() >= (if min_buffer == 0 {
            1
        } else {
            min_buffer as int
        })),
{
    let need: u64 = if min_buffer == 0 {
        1
    } else {
        min_buffer
    };
    let index: SegmentIndex = SegmentIndex::scan(names);
    index.media_count() as u64 >= need
}

/// How a cursor was moved.
#[derive(Debug, Clone, Copy, PartialEq, Eq, Structural)]
pub enum CursorJump {
    Stay,
    Forward,
    Rewind,
}

/// Where a client may safely read: `holdback` segments behind the live edge, but not below
/// the oldest cached segment.
pub open spec fn safe_edge(live_edge: u64, floor: u64, holdback: u64) -> u64 {
    if live_edge - holdback > floor {
        (live_edge - holdback) as u64
    } else {
        floor
    }
}

/// Where a client reads next, and how far off its own cursor that is.
pub open spec fn resolved_cursor(
    current: Option<u64>,
    live_edge: u64,
    floor: u64,
    holdback: u64,
    max_lag: u64,
) -> (u64, CursorJump) {
    let lag = if max_lag == 0 {
        1
    } else {
        max_lag as int
    };
    let safe = safe_edge(live_edge, floor, holdback);
    match current {
        None => (safe, CursorJump::Stay),
        Some(n) => if n + lag < safe {
            (safe, CursorJump::Forward)
        } else if live_edge + lag < n {
            (safe, CursorJump::Rewind)
        } else if n < floor {
            (safe, CursorJump::Forward)
        } else {
            (n, CursorJump::Stay)
        },
    }
}

/// Decide where a client reads next.
pub fn resolve_cursor(
    current: Option<u64>,
    live_edge: u64,
    floor: u64,
    holdback: u64,
    max_lag: u64,
) -> (cursor: (u64, CursorJump))
    ensures
        cursor == resolved_cursor(current, live_edge, floor, holdback, max_lag),
{
    let lag: u64 = if max_lag == 0 {
        1
    } else {
        max_lag
    };
    // Never aim below the oldest cached segment (holdback can exceed buffer depth).
    let behind: u64 = live_edge.saturating_sub(holdback);
    let safe: u64 = if behind > floor {
        behind
    } else {
        floor
    };
    match current {
        None => (safe, CursorJump::Stay),
        Some(n) => {
            if safe > n.saturating_add(lag) {
                (safe, CursorJump::Forward)
            } else if n > live_edge.saturating_add(lag) {
                (safe, CursorJump::Rewind)
            } else if n < floor {
                (safe, CursorJump::Forward)
            } else {
                (n, CursorJump::Stay)
            }
        },
    }
}

/// Why a stream ends with an error.
#[derive(Debug, Clone, Copy, PartialEq, Eq, Structural)]
pub enum StreamError {
    /// The live edge fell below the oldest segment that was there when the client joined.
    GenerationChanged,
    /// The client's cursor is far beyond the live edge.
    GenerationReset { cursor: u64, live_edge: u64 },
    /// The file of this segment does not hold whole packets.
    InvalidSegment { number: u64 },
    /// Too few segments came in time.
    BufferNotReady,
}

/// The message for a stream error.
pub open spec fn stream_error_text(e: StreamError) -> Seq<char> {
    match e {
        StreamError::GenerationChanged => "ts cache generation changed; reconnect"@,
        StreamError::GenerationReset { cursor, live_edge } => "upstream generation reset (cursor="@
            + number::decimal(cursor as nat) + " live_edge="@ + number::decimal(live_edge as nat)
            + ")"@,
        StreamError::InvalidSegment { number } => "invalid TS segment "@ + stitch::segment_name(
            number,
            ".ts"@,
        ),
        StreamError::BufferNotReady => "mpegts buffer not ready (min_buffer timeout)"@,
    }
}

impl StreamError {
    /// The message for the error.
    pub fn message(self) -> (message: String)
        ensures
            message@ == stream_error_text(self),
    {
        match self {
            StreamError::GenerationChanged => "ts cache generation changed; reconnect".to_owned(),
            StreamError::GenerationReset { cursor, live_edge } => {
                let mut message: String = "upstream generation reset (cursor=".to_owned();
                let at: String = number_text(cursor);
                let edge: String = number_text(live_edge);
                message.append(at.as_str());
                message.append(" live_edge=");
                message.append(edge.as_str());
                message.append(")");
                message
            },
            StreamError::InvalidSegment { number } => {
                let mut message: String = "invalid TS segment ".to_owned();
                let name: String = ts_file_name(number);
                message.append(name.as_str());
                message
            },
            StreamError::BufferNotReady =>
                "mpegts buffer not ready (min_buffer timeout)".to_owned(),
        }
    }
}

/// What a stream does next.
#[derive(Debug)]
pub enum ChunkPlan {
    /// Nothing to send yet.
    Wait,
    /// Read the media file `name` of segment `number`.
    Media { number: u64, name: String },
    /// Segment `number` has a duration only: pass over it.
    Gap { number: u64 },
}

/// What a [`ChunkPlan`] says.
pub ghost enum ChunkPlanView {
    Wait,
    Media { number: u64, name: Seq<char> },
    Gap { number: u64 },
}

impl View for ChunkPlan {
    type V = ChunkPlanView;

    open spec fn view(&self) -> ChunkPlanView {
        match self {
            ChunkPlan::Wait => ChunkPlanView::Wait,
            ChunkPlan::Media { number, name } => ChunkPlanView::Media {
                number: *number,
                name: name@,
            },
            ChunkPlan::Gap { number } => ChunkPlanView::Gap { number: *number },
        }
    }
}

/// The view of a planning result.
pub open spec fn plan_view(r: Result<ChunkPlan, StreamError>) -> Result<
    ChunkPlanView,
    StreamError,
> {
    match r {
        Ok(plan) => Ok(plan@),
        Err(e) => Err(e),
    }
}

/// Follows the segments of one channel for one client.
#[derive(Debug, Clone, Copy, PartialEq, Eq, Structural)]
pub struct MpegTsStreamer {
    /// Seconds between two looks at the directory.
    pub poll_secs: u64,
    pub holdback: u64,
    pub min_buffer: u64,
    pub max_lag: u64,
    /// The duration of a segment that has none of its own.
    pub default_dur: Double,
    /// The number that the client reads next; none before it joined.
    pub next_number: Option<u64>,
    /// The oldest number that was there when the client joined.
    pub gen_floor: Option<u64>,
}

/// The stream of a client that has not joined yet, with these options.
pub open spec fn unjoined(opts: MpegTsStreamOpts) -> MpegTsStreamer {
    MpegTsStreamer {
        poll_secs: if opts.poll_interval_secs == 0 {
            DEFAULT_POLL_SECS
        } else {
            opts.poll_interval_secs
        },
        holdback: opts.holdback_segments,
        min_buffer: if opts.min_buffer_segments == 0 {
            1
        } else {
            opts.min_buffer_segments
        },
        max_lag: if opts.max_segment_lag == 0 {
            1
        } else {
            opts.max_segment_lag
        },
        default_dur: stitch::written_duration(opts.default_segment_duration_secs),
        next_number: None,
        gen_floor: None,
    }
}

/// How long a client has to wait for the buffer.
#[derive(Debug, Clone, Copy, PartialEq, Eq, Structural)]
pub enum BufferWait {
    Ready,
    TimedOut,
    Poll,
}

/// The streamer after a look at the directory, and what it does next.
pub open spec fn planned(streamer: MpegTsStreamer, index: IndexView) -> (
    MpegTsStreamer,
    Result<ChunkPlanView, StreamError>,
) {
    if index.numbers() =~= Set::empty() {
        (streamer, Ok(ChunkPlanView::Wait))
    } else {
        let joined = match streamer.gen_floor {
            Some(floor) => floor,
            None => index.floor(),
        };
        let streamer = MpegTsStreamer { gen_floor: Some(joined), ..streamer };
        let (next, jump) = resolved_cursor(
            streamer.next_number,
            index.live_edge(),
            index.floor(),
            streamer.holdback,
            streamer.max_lag,
        );
        if index.live_edge() < joined {
            (streamer, Err(StreamError::GenerationChanged))
        } else if jump == CursorJump::Rewind {
            (
                streamer,
                Err(
                    StreamError::GenerationReset {
                        cursor: streamer.next_number->0,
                        live_edge: index.live_edge(),
                    },
                ),
            )
        } else {
            (
                MpegTsStreamer { next_number: Some(next), ..streamer },
                Ok(
                    if index.media.contains_key(next) {
                        ChunkPlanView::Media { number: next, name: index.media[next] }
                    } else if index.durations.contains(next) {
                        ChunkPlanView::Gap { number: next }
                    } else {
                        ChunkPlanView::Wait
                    },
                ),
            )
        }
    }
}

/// The bytes can be sent to a client: whole packets, the first in sync.
pub open spec fn is_sendable(bytes: Seq<u8>) -> bool {
    bytes.len() > 0 && bytes.len() % TS_PACKET_SIZE as nat == 0 && bytes[0] == SYNC_BYTE
}

/// The number after `number`; the last number has none after it.
pub open spec fn following(number: u64) -> u64 {
    if number < u64::MAX {
        (number + 1) as u64
    } else {
        u64::MAX
    }
}

impl MpegTsStreamer {
    /// A stream for a client that has not joined yet.
    pub fn new(opts: &MpegTsStreamOpts) -> (streamer: Self)
        ensures
            streamer == unjoined(*opts),
    {
        MpegTsStreamer {
            poll_secs: if opts.poll_interval_secs == 0 {
                DEFAULT_POLL_SECS
            } else {
                opts.poll_interval_secs
            },
            holdback: opts.holdback_segments,
            min_buffer: if opts.min_buffer_segments == 0 {
                1
            } else {
                opts.min_buffer_segments
            },
            max_lag: if opts.max_segment_lag == 0 {
                1
            } else {
                opts.max_segment_lag
            },
            default_dur: opts.default_segment_duration_secs.positive_or(Double { bits: TWO_BITS }),
            next_number: None,
            gen_floor: None,
        }
    }

    /// Decide whether a client that has waited `waited_nanos` may start: once the buffer holds
    /// `min_buffer` segments, and until it has waited too long.
    pub fn wait_for_min_buffer(&self, index: &SegmentIndex, waited_nanos: u64) -> (wait: BufferWait)
        ensures
            wait == (if index@.media.dom().len() >= self.min_buffer {
                BufferWait::Ready
            } else if waited_nanos >= IDLE_TIMEOUT_NANOS {
                BufferWait::TimedOut
            } else {
                BufferWait::Poll
            }),
    {
        if index.media_count() as u64 >= self.min_buffer {
            BufferWait::Ready
        } else if waited_nanos >= IDLE_TIMEOUT_NANOS {
            BufferWait::TimedOut
        } else {
            BufferWait::Poll
        }
    }

    /// Decide what to read next from a directory.
    pub fn next_chunk(&mut self, index: &SegmentIndex) -> (plan: Result<ChunkPlan, StreamError>)
        ensures
            planned(*old(self), index@) == (*final(self), plan_view(plan)),
    {
        proof {
            use_type_invariant(index);
        }
        assert(index@.media.dom() =~= index.media@.dom());
        let (floor, live_edge) = match index.bounds {
            Some((lo, hi)) => {
                proof {
                    assert(is_least(index@.numbers(), lo));
                    assert(is_greatest(index@.numbers(), hi));
                    assert(is_least(index@.numbers(), index@.floor()));
                    assert(is_greatest(index@.numbers(), index@.live_edge()));
                }
                (lo, hi)
            },
            None => {
                return Ok(ChunkPlan::Wait);
            },
        };
        let joined: u64 = match self.gen_floor {
            Some(number) => number,
            None => floor,
        };
        self.gen_floor = Some(joined);
        // True generation wipe: live edge fell below the floor the client joined with.
        if live_edge < joined {
            return Err(StreamError::GenerationChanged);
        }
        let (next, jump) = resolve_cursor(
            self.next_number,
            live_edge,
            floor,
            self.holdback,
            self.max_lag,
        );
        if jump == CursorJump::Rewind {
            let cursor: u64 = match self.next_number {
                Some(number) => number,
                None => 0,
            };
            return Err(StreamError::GenerationReset { cursor, live_edge });
        }
        self.next_number = Some(next);
        match index.media.get(&next) {
            Some(name) => Ok(ChunkPlan::Media { number: next, name: name.as_str().to_owned() }),
            None => {
                if index.durations.contains(&next) {
                    Ok(ChunkPlan::Gap { number: next })
                } else {
                    Ok(ChunkPlan::Wait)
                }
            },
        }
    }

    /// Check the bytes read for segment `number`, and move on behind it.
    pub fn accept_chunk(&mut self, number: u64, bytes: &[u8]) -> (result: Result<(), StreamError>)
        ensures
            result == (if is_sendable(bytes@) {
                Ok(())
            } else {
                Err(StreamError::InvalidSegment { number })
            }),
            *final(self) == (if is_sendable(bytes@) {
                MpegTsStreamer { next_number: Some(following(number)), ..*old(self) }
            } else {
                *old(self)
            }),
    {
        if bytes.len() == 0 || bytes.len() % TS_PACKET_SIZE != 0 || bytes[0] != SYNC_BYTE {
            return Err(StreamError::InvalidSegment { number });
        }
        self.next_number = Some(number.saturating_add(1));
        Ok(())
    }

    /// Move on behind the gap at `number`.
    pub fn pass_gap(&mut self, number: u64)
        ensures
            *final(self) == (MpegTsStreamer {
                next_number: Some(following(number)),
                ..*old(self)
            }),
    {
        self.next_number = Some(number.saturating_add(1));
    }

    /// The duration of a segment: what its duration file says where that is a duration, the
    /// default otherwise.
    pub fn segment_duration(&self, read: Option<Double>) -> (duration: Double)
        ensures
            duration == (match read {
                Some(d) if d.positive() => d,
                _ => self.default_dur,
            }),
    {
        match read {
            Some(d) => d.positive_or(self.default_dur),
            None => self.default_dur,
        }
    }
}

/// A client is never sent below the oldest cached segment.
pub proof fn law_cursor_is_cached_or_ahead(
    current: Option<u64>,
    live_edge: u64,
    floor: u64,
    holdback: u64,
    max_lag: u64,
)
    ensures
        floor <= resolved_cursor(current, live_edge, floor, holdback, max_lag).0,
{
}

/// A client that joins, or that is moved, reads at most `holdback` segments behind the live
/// edge, and not beyond it; where fewer are cached it reads the oldest of them.
pub proof fn law_moved_cursor_is_safe(
    current: Option<u64>,
    live_edge: u64,
    floor: u64,
    holdback: u64,
    max_lag: u64,
)
    requires
        floor <= live_edge,
        current is None || resolved_cursor(current, live_edge, floor, holdback, max_lag).1
            != CursorJump::Stay,
    ensures
        ({
            let cursor = resolved_cursor(current, live_edge, floor, holdback, max_lag).0;
            &&& live_edge - holdback <= cursor <= live_edge
            &&& cursor == floor || cursor == live_edge - holdback
        }),
{
}

/// A client that is left alone lags the safe edge by at most `max_lag` segments, and is at
/// most as many ahead of the live edge.
pub proof fn law_lag_is_bounded(
    n: u64,
    live_edge: u64,
    floor: u64,
    holdback: u64,
    max_lag: u64,
)
    requires
        1 <= max_lag,
        resolved_cursor(Some(n), live_edge, floor, holdback, max_lag).1 == CursorJump::Stay,
    ensures
        resolved_cursor(Some(n), live_edge, floor, holdback, max_lag).0 == n,
        safe_edge(live_edge, floor, holdback) <= n + max_lag,
        n <= live_edge + max_lag,
{
}

proof fn lemma_bounds_are_unique(index: IndexView, floor: u64, live_edge: u64)
    requires
        is_least(index.numbers(), floor),
        is_greatest(index.numbers(), live_edge),
    ensures
        index.floor() == floor,
        index.live_edge() == live_edge,
{
    assert(is_least(index.numbers(), index.floor()));
    assert(is_greatest(index.numbers(), index.live_edge()));
}

/// A client that keeps up reads the segments one after the other: where the segment at its
/// cursor is cached and within the lag allowed, that segment is next, and after it the one
/// with the following number.
pub proof fn law_segments_follow_in_order(
    streamer: MpegTsStreamer,
    index: IndexView,
    floor: u64,
    live_edge: u64,
    n: u64,
)
    requires
        is_least(index.numbers(), floor),
        is_greatest(index.numbers(), live_edge),
        streamer.next_number == Some(n),
        streamer.gen_floor matches Some(joined) ==> joined <= live_edge,
        index.media.contains_key(n),
        safe_edge(live_edge, floor, streamer.holdback) <= n + streamer.max_lag,
    ensures
        planned(streamer, index).1 == Ok::<ChunkPlanView, StreamError>(
            ChunkPlanView::Media { number: n, name: index.media[n] },
        ),
        planned(streamer, index).0.next_number == Some(n),
{
    lemma_bounds_are_unique(index, floor, live_edge);
    assert(index.numbers().contains(n));
}

/// No segment is sent twice, and none out of order: once the cursor of a client stands beyond
/// `last`, whatever is planned for it lies beyond `last`, and so does its cursor from then on.
/// The cursor moves on behind each segment and gap, until the numbers run out.
pub proof fn law_no_segment_is_sent_twice(streamer: MpegTsStreamer, index: IndexView, last: u64)
    requires
        streamer.next_number matches Some(n) && last < n,
    ensures
        planned(streamer, index).0.next_number matches Some(n) && last < n,
        planned(streamer, index).1 matches Ok(ChunkPlanView::Media { number, .. }) ==> {
            &&& last < number
            &&& last < following(number)
            &&& number < u64::MAX ==> number < following(number)
        },
        planned(streamer, index).1 matches Ok(ChunkPlanView::Gap { number }) ==> {
            &&& last < number
            &&& last < following(number)
            &&& number < u64::MAX ==> number < following(number)
        },
{
}

/// A stream that goes on stays within one generation: the live edge has not fallen below the
/// oldest segment that was there when the client joined.
pub proof fn law_stream_stays_in_generation(streamer: MpegTsStreamer, index: IndexView)
    requires
        !(index.numbers() =~= Set::empty()),
        planned(streamer, index).1 is Ok,
    ensures
        planned(streamer, index).0.gen_floor matches Some(joined) && joined <= index.live_edge(),
        streamer.gen_floor is Some ==> planned(streamer, index).0.gen_floor == streamer.gen_floor,
{
}

/// What the stitcher writes, a stream accepts: the rewrite of a run of packets is sendable.
pub proof fn law_stitched_segment_is_sendable(counters: Map<u16, u8>, ts: Seq<u8>, out: Seq<u8>)
    requires
        repair::is_packet_run(ts),
        continuous::is_rewrite(counters, ts, out),
    ensures
        is_sendable(out),
{
    assert(repair::in_sync(ts, 0));
    let p = continuous::packet(ts, 0);
    assert(continuous::packet(out, 0) == continuous::rewritten(
        continuous::counters_after(counters, ts, 0),
        p,
    ));
    assert(continuous::packet(out, 0)[0] == out[0]);
    assert(p[0] == ts[0]);
}

/// A number stands for media or for a gap in the directory.
pub open spec fn is_cached(index: IndexView, n: u64) -> bool {
    index.media.contains_key(n) || index.durations.contains(n)
}

/// The numbers in the directory run from `lo` to `hi`.
pub open spec fn runs_from_to(index: IndexView, lo: u64, hi: u64) -> bool {
    &&& is_cached(index, lo)
    &&& is_cached(index, hi)
    &&& forall|n: u64| #[trigger] is_cached(index, n) ==> lo <= n <= hi
}

proof fn lemma_bounds(index: IndexView, lo: u64, hi: u64)
    requires
        runs_from_to(index, lo, hi),
    ensures
        index.floor() == lo,
        index.live_edge() == hi,
        !(index.numbers() =~= Set::empty()),
{
    assert(index.numbers().contains(lo));
    assert(index.numbers().contains(hi));
    assert forall|m: u64| #[trigger] index.numbers().contains(m) implies lo <= m <= hi by {
        assert(is_cached(index, m));
    }
    lemma_bounds_are_unique(index, lo, hi);
}

/// The plan for a number: its media file where it has one, a gap where it has a duration only, and
/// a wait where it has neither.
pub open spec fn is_plan_for(
    index: IndexView,
    n: u64,
    plan: Result<ChunkPlanView, StreamError>,
) -> bool {
    if index.media.contains_key(n) {
        plan == Ok::<ChunkPlanView, StreamError>(
            ChunkPlanView::Media { number: n, name: index.media[n] },
        )
    } else if index.durations.contains(n) {
        plan == Ok::<ChunkPlanView, StreamError>(ChunkPlanView::Gap { number: n })
    } else {
        plan == Ok::<ChunkPlanView, StreamError>(ChunkPlanView::Wait)
    }
}

/// A client that joins reads first what lies its holdback behind the newest number, or the oldest
/// number where fewer are cached. Nothing else of its settings matters, and none is changed.
pub proof fn law_client_joins_behind_the_live_edge(
    streamer: MpegTsStreamer,
    index: IndexView,
    lo: u64,
    hi: u64,
    first: u64,
)
    requires
        runs_from_to(index, lo, hi),
        streamer.next_number is None,
        streamer.gen_floor is None || streamer.gen_floor->0 <= hi,
        first == lo || first == hi - streamer.holdback,
        first >= lo,
        first >= hi - streamer.holdback,
    ensures
        ({
            let (after, plan) = planned(streamer, index);
            &&& after.next_number == Some(first)
            &&& is_plan_for(index, first, plan)
            &&& after.gen_floor == (if streamer.gen_floor is None {
                Some(lo)
            } else {
                streamer.gen_floor
            })
            &&& after == (MpegTsStreamer {
                next_number: after.next_number,
                gen_floor: after.gen_floor,
                ..streamer
            })
        }),
{
    lemma_bounds(index, lo, hi);
}

/// A client within its lag reads on at its own number, whether that is cached or not: at most
/// `max_lag` segments, and at least one, behind the place where a client would join, as many ahead
/// of the newest number, and not below the oldest.
pub proof fn law_client_within_its_lag_reads_on(
    streamer: MpegTsStreamer,
    index: IndexView,
    lo: u64,
    hi: u64,
    n: u64,
)
    requires
        runs_from_to(index, lo, hi),
        streamer.next_number == Some(n),
        streamer.gen_floor is None || streamer.gen_floor->0 <= hi,
        lo <= n,
        ({
            let lag = if streamer.max_lag == 0 {
                1
            } else {
                streamer.max_lag as int
            };
            hi - streamer.holdback <= n + lag && n <= hi + lag
        }),
    ensures
        planned(streamer, index).0.next_number == Some(n),
        is_plan_for(index, n, planned(streamer, index).1),
{
    lemma_bounds(index, lo, hi);
}

/// A client that lags too far, or whose number was deleted, goes on where a client would join.
pub proof fn law_lagging_client_is_moved_forward(
    streamer: MpegTsStreamer,
    index: IndexView,
    lo: u64,
    hi: u64,
    n: u64,
    target: u64,
)
    requires
        runs_from_to(index, lo, hi),
        streamer.next_number == Some(n),
        streamer.gen_floor is None || streamer.gen_floor->0 <= hi,
        n < lo || hi - streamer.holdback > n + (if streamer.max_lag == 0 {
            1
        } else {
            streamer.max_lag as int
        }),
        target == lo || target == hi - streamer.holdback,
        target >= lo,
        target >= hi - streamer.holdback,
    ensures
        planned(streamer, index).0.next_number == Some(target),
        is_plan_for(index, target, planned(streamer, index).1),
        n < target,
{
    lemma_bounds(index, lo, hi);
}

/// A client ends where the numbering started over: where its number lies too far beyond the newest,
/// and where the newest fell below the oldest that was there when it joined. Nothing is sent then,
/// and its number stays.
pub proof fn law_client_ends_where_the_numbering_starts_over(
    streamer: MpegTsStreamer,
    index: IndexView,
    lo: u64,
    hi: u64,
    n: u64,
)
    requires
        runs_from_to(index, lo, hi),
    ensures
        streamer.gen_floor is Some && hi < streamer.gen_floor->0 ==> planned(streamer, index)
            == (streamer, Err::<ChunkPlanView, StreamError>(StreamError::GenerationChanged)),
        streamer.next_number == Some(n) && (streamer.gen_floor is None || streamer.gen_floor->0
            <= hi) && n > hi + (if streamer.max_lag == 0 {
            1
        } else {
            streamer.max_lag as int
        }) ==> {
            &&& planned(streamer, index).1 == Err::<ChunkPlanView, StreamError>(
                StreamError::GenerationReset { cursor: n, live_edge: hi },
            )
            &&& planned(streamer, index).0.next_number == Some(n)
        },
{
    lemma_bounds(index, lo, hi);
}

/// An empty directory is waited for, and changes nothing.
pub proof fn law_empty_directory_is_waited_for(streamer: MpegTsStreamer, index: IndexView)
    requires
        forall|n: u64| !#[trigger] is_cached(index, n),
    ensures
        planned(streamer, index) == (
            streamer,
            Ok::<ChunkPlanView, StreamError>(ChunkPlanView::Wait),
        ),
{
    assert forall|n: u64| !#[trigger] index.numbers().contains(n) by {
        assert(!is_cached(index, n));
    }
}

/// A client follows the settings that it was given; where these say zero it waits for one segment,
/// lags by one, and looks every two seconds. Before it joined it has no number.
pub proof fn law_client_takes_its_settings(opts: MpegTsStreamOpts)
    ensures
        ({
            let s = unjoined(opts);
            &&& s.holdback == opts.holdback_segments
            &&& s.min_buffer >= 1
            &&& opts.min_buffer_segments >= 1 ==> s.min_buffer == opts.min_buffer_segments
            &&& opts.min_buffer_segments == 0 ==> s.min_buffer == 1
            &&& opts.max_segment_lag >= 1 ==> s.max_lag == opts.max_segment_lag
            &&& opts.max_segment_lag == 0 ==> s.max_lag == 1
            &&& opts.poll_interval_secs >= 1 ==> s.poll_secs == opts.poll_interval_secs
            &&& opts.poll_interval_secs == 0 ==> s.poll_secs == 2
            &&& 0 < opts.default_segment_duration_secs.bits < 0x7ff0_0000_0000_0000
                ==> s.default_dur == opts.default_segment_duration_secs
            &&& s.next_number is None
            &&& s.gen_floor is None
        }),
{
}

/// What may be sent is a run of whole packets that begins with the sync byte, and the number after
/// it is one more, up to the last number.
pub proof fn law_whole_packets_are_sent(bytes: Seq<u8>, number: u64)
    ensures
        is_sendable(bytes) <==> bytes.len() >= 188 && bytes.len() % 188 == 0 && bytes[0] == 0x47,
        number < u64::MAX ==> following(number) == number + 1,
        following(u64::MAX) == u64::MAX,
{
}

/// A directory offers the media and the durations that its file names spell.
pub proof fn law_directory_offers_its_files(names: Seq<Seq<char>>, i: int, n: u64)
    requires
        0 <= i < names.len(),
    ensures
        names[i] == "seg_"@ + number::decimal(n as nat) + ".ts"@ ==> index_of(
            names,
        ).media.contains_key(n),
        names[i] == "seg_"@ + number::decimal(n as nat) + ".dur"@ ==> index_of(
            names,
        ).durations.contains(n),
    decreases names.len(),
{
    stitch::law_segment_name_round_trip(n, ".ts"@);
    stitch::law_segment_name_round_trip(n, ".dur"@);
    if i < names.len() - 1 {
        assert(names.drop_last()[i] == names[i]);
        law_directory_offers_its_files(names.drop_last(), i, n);
    }
}

/// A directory offers nothing else: media comes from a file of the directory whose name is `seg_`,
/// the number and `.ts`, and a duration from one that ends in `.dur`.
pub proof fn law_directory_offers_nothing_else(names: Seq<Seq<char>>, n: u64)
    ensures
        index_of(names).media.contains_key(n) ==> exists|i: int|
            0 <= i < names.len() && #[trigger] names[i] == index_of(names).media[n]
                && is_file_of(names[i], n, ".ts"@),
        index_of(names).durations.contains(n) ==> exists|i: int|
            0 <= i < names.len() && is_file_of(#[trigger] names[i], n, ".dur"@),
    decreases names.len(),
{
    if names.len() > 0 {
        let before = names.drop_last();
        let last = names.len() - 1;
        law_directory_offers_nothing_else(before, n);
        lemma_file_name(names.last(), ".ts"@);
        lemma_file_name(names.last(), ".dur"@);
        if index_of(names).media.contains_key(n) {
            if stitch::segment_number(names.last(), ".ts"@) == Some(n) {
                assert(names[last] == index_of(names).media[n]);
            } else {
                let i = choose|i: int|
                    0 <= i < before.len() && #[trigger] before[i] == index_of(before).media[n]
                        && is_file_of(before[i], n, ".ts"@);
                assert(names[i] == before[i]);
            }
        }
        if index_of(names).durations.contains(n) {
            if stitch::segment_number(names.last(), ".dur"@) == Some(n) {
                assert(is_file_of(names[last], n, ".dur"@));
            } else {
                let i = choose|i: int|
                    0 <= i < before.len() && is_file_of(#[trigger] before[i], n, ".dur"@);
                assert(names[i] == before[i]);
            }
        }
    }
}

/// The name is `seg_`, digits that stand for the number, with or without a `+`, and the suffix.
pub open spec fn is_file_of(name: Seq<char>, n: u64, suffix: Seq<char>) -> bool {
    let from = "seg_"@.len() as int;
    let to = name.len() - suffix.len();
    &&& from <= to
    &&& name == "seg_"@ + name.subrange(from, to) + suffix
    &&& number::u64_of(name.subrange(from, to)) == Some(n)
}

proof fn lemma_file_name(name: Seq<char>, suffix: Seq<char>)
    ensures
        stitch::segment_number(name, suffix) matches Some(n) ==> is_file_of(name, n, suffix),
{
    if let Some(n) = stitch::segment_number(name, suffix) {
        let rest = name.skip("seg_"@.len() as int);
        let digits = rest.take(rest.len() - suffix.len());
        assert(name =~= "seg_"@ + rest);
        assert(rest =~= digits + suffix);
        assert(digits =~= name.subrange("seg_"@.len() as int, name.len() - suffix.len()));
        assert(name =~= "seg_"@ + digits + suffix);
    }
}

/// A plan is shown in full: whether to wait, to read a file, with its number and name, or to pass
/// over a gap, with its number.
pub proof fn law_plans_are_shown_in_full(plan: ChunkPlan)
    ensures
        match (plan, plan@) {
            (ChunkPlan::Wait, ChunkPlanView::Wait) => true,
            (
                ChunkPlan::Media { number, name },
                ChunkPlanView::Media { number: shown, name: text },
            ) => number == shown && name@ == text,
            (ChunkPlan::Gap { number }, ChunkPlanView::Gap { number: shown }) => number == shown,
            _ => false,
        },
        plan_view(Ok(plan)) == Ok::<ChunkPlanView, StreamError>(plan@),
{
}

/// The message for a generation that was reset names the cursor and the live edge, and the one for
/// a broken segment ends with the name of its file.
pub proof fn law_messages_name_the_numbers(cursor: u64, live_edge: u64, number: u64)
    ensures
        text::has_suffix(
            stream_error_text(StreamError::GenerationReset { cursor, live_edge }),
            "(cursor="@ + number::decimal(cursor as nat) + " live_edge="@ + number::decimal(
                live_edge as nat,
            ) + ")"@,
        ),
        text::has_suffix(
            stream_error_text(StreamError::InvalidSegment { number }),
            "seg_"@ + number::decimal(number as nat) + ".ts"@,
        ),
{
    reveal_strlit("upstream generation reset (cursor=");
    reveal_strlit("(cursor=");
    let reset = stream_error_text(StreamError::GenerationReset { cursor, live_edge });
    let numbers = "(cursor="@ + number::decimal(cursor as nat) + " live_edge="@ + number::decimal(
        live_edge as nat,
    ) + ")"@;
    assert(reset.skip(reset.len() - numbers.len()) =~= numbers);
    let broken = stream_error_text(StreamError::InvalidSegment { number });
    let name = "seg_"@ + number::decimal(number as nat) + ".ts"@;
    assert(broken.skip(broken.len() - name.len()) =~= name);
}

} // verus!
