//! HLS → continuous TS stitch (no CMAF).
//!
//! The session tells the caller what to write to and to delete from the channel directory.

use crate::config::{CacheConfig, MpegTsConfig, RecoveryConfig};
use crate::double::{Double, TENTH_BITS};
use crate::hls::dedup;
use crate::hls::playlist::MediaPlaylist;
use crate::hls::pull;
use crate::hls::pull::{FailureAction, PollAction, PullSession, SegmentIngestDecision, SegmentPlan};
use crate::mpegts::continuous;
use crate::mpegts::repair;
use crate::mpegts::repair::TsError;
use crate::mpegts::stitch;
use crate::mpegts::stitch::{TsGap, TsSegment, TsStitcher};
use crate::text;
use vstd::prelude::*;

verus! {

/// The fewest segments that a session takes from the first playlist.
pub const MIN_KEEP_ON_START: usize = 3;

/// A change to the channel directory.
#[derive(Debug)]
pub enum CacheOp {
    /// Delete all media, for a new generation.
    Wipe,
    /// Write a segment and its duration.
    WriteSegment(TsSegment),
    /// Write a duration only.
    WriteGap(TsGap),
    /// Delete the segment with this number, and its duration.
    Delete(u64),
}

/// What a [`CacheOp`] says.
pub ghost enum CacheOpView {
    Wipe,
    WriteSegment { number: u64, data: Seq<u8>, duration_secs: Double },
    WriteGap(TsGap),
    Delete(u64),
}

impl View for CacheOp {
    type V = CacheOpView;

    open spec fn view(&self) -> CacheOpView {
        match self {
            CacheOp::Wipe => CacheOpView::Wipe,
            CacheOp::WriteSegment(segment) => CacheOpView::WriteSegment {
                number: segment.number,
                data: segment.data@,
                duration_secs: segment.duration_secs,
            },
            CacheOp::WriteGap(gap) => CacheOpView::WriteGap(*gap),
            CacheOp::Delete(number) => CacheOpView::Delete(*number),
        }
    }
}

/// The views of a list of changes.
pub open spec fn op_views(ops: Seq<CacheOp>) -> Seq<CacheOpView> {
    ops.map_values(|op: CacheOp| op@)
}

/// The deletion of the segments from `start` up to `end`.
pub open spec fn deletions(start: u64, end: u64) -> Seq<CacheOpView> {
    Seq::new((end - start) as nat, |i: int| CacheOpView::Delete((start + i) as u64))
}

/// What the beginning of a segment calls for.
#[derive(Debug)]
pub enum SegmentStart {
    /// Nothing: go on with the next segment.
    Skip,
    /// Make these changes, then fetch the segment.
    Fetch(Vec<CacheOp>),
}

/// What a fetched segment calls for.
#[derive(Debug)]
pub enum SegmentEnd {
    /// Nothing: it is no news.
    Skip,
    /// Make these changes.
    Ingested(Vec<CacheOp>),
    /// It holds no packets. Make these changes, which leave a gap in its place.
    Replaced(TsError, Vec<CacheOp>),
    /// It holds no packets: end the session.
    Failed(TsError),
}

/// A generation ends: counters and window start anew, the numbering goes on.
pub open spec fn reconnected(s: stitch::StitchState) -> stitch::StitchState {
    stitch::StitchState { counters: Map::empty(), start: s.next, last: None, ..s }
}

/// The longer of a duration and a tenth of a second.
pub open spec fn gap_duration(duration_secs: Double) -> Double {
    if duration_secs.reaches_tenth() {
        duration_secs
    } else {
        Double { bits: TENTH_BITS }
    }
}

/// A gap of the given duration takes the next number, and the window slides.
pub open spec fn gap_left(
    s: stitch::StitchState,
    duration_secs: Double,
    protected: Option<u64>,
) -> (stitch::StitchState, Seq<CacheOpView>) {
    let after = stitch::committed(s, protected);
    let gap = TsGap {
        number: s.next,
        duration_secs: stitch::written_duration(gap_duration(duration_secs)),
    };
    (after, seq![CacheOpView::WriteGap(gap)] + deletions(s.start, after.start))
}

/// What stands before a segment: a new generation where the numbering started over, a gap where
/// segments are missing, a new generation at a discontinuity.
pub open spec fn opened(
    s: stitch::StitchState,
    restart: bool,
    gap: bool,
    discontinuity: bool,
    duration_secs: Double,
    protected: Option<u64>,
) -> (stitch::StitchState, Seq<CacheOpView>) {
    let (s1, ops1) = if restart {
        (reconnected(s), seq![CacheOpView::Wipe])
    } else {
        (s, seq![])
    };
    let (s2, ops2) = if gap {
        gap_left(s1, duration_secs, protected)
    } else {
        (s1, seq![])
    };
    let (s3, ops3) = if discontinuity {
        (reconnected(s2), seq![CacheOpView::Wipe])
    } else {
        (s2, seq![])
    };
    (s3, ops1 + ops2 + ops3)
}

/// A segment whose rewritten packets are `data` takes the next number, and the window slides.
pub open spec fn stitched(
    s: stitch::StitchState,
    ts: Seq<u8>,
    data: Seq<u8>,
    duration_secs: Double,
    protected: Option<u64>,
) -> (stitch::StitchState, Seq<CacheOpView>) {
    let counted = stitch::StitchState {
        counters: continuous::counters_after(s.counters, ts, repair::slots(ts)),
        ..s
    };
    let after = stitch::committed(counted, protected);
    (
        after,
        seq![
            CacheOpView::WriteSegment {
                number: s.next,
                data,
                duration_secs: stitch::written_duration(duration_secs),
            },
        ] + deletions(s.start, after.start),
    )
}

/// What stands before the ingest of a fetched segment: a new generation where it replaces
/// another one.
pub open spec fn cleared(s: stitch::StitchState, decision: SegmentIngestDecision) -> (
    stitch::StitchState,
    Seq<CacheOpView>,
) {
    if decision == SegmentIngestDecision::ResetAndIngest {
        (reconnected(s), seq![CacheOpView::Wipe])
    } else {
        (s, seq![])
    }
}

/// The changes `first` and then those of stitching the packets `ts` lead from `s` to `after`.
pub open spec fn is_stitched(
    s: stitch::StitchState,
    ts: Seq<u8>,
    duration_secs: Double,
    protected: Option<u64>,
    first: Seq<CacheOpView>,
    after: stitch::StitchState,
    ops: Seq<CacheOpView>,
) -> bool {
    exists|data: Seq<u8>| #[trigger]
        continuous::is_rewrite(s.counters, ts, data) && after == stitched(
            s,
            ts,
            data,
            duration_secs,
            protected,
        ).0 && ops == first + stitched(s, ts, data, duration_secs, protected).1
}

/// Pulls one HLS playlist into the directory of a channel.
#[derive(Debug)]
pub struct MpegTsPull {
    session: PullSession,
    stitcher: TsStitcher,
}

/// The number of segments that a session takes from the first playlist: enough to fill the
/// holdback and the buffer.
pub open spec fn keep_of(mpegts: MpegTsConfig) -> int {
    let wanted = mpegts.live_holdback_segments + mpegts.min_buffer_segments;
    if wanted < MIN_KEEP_ON_START {
        MIN_KEEP_ON_START as int
    } else {
        wanted
    }
}

impl MpegTsPull {
    /// What the session remembers of the playlist.
    pub closed spec fn pull(&self) -> pull::PullState {
        self.session@
    }

    /// What the session knows of the directory.
    pub closed spec fn stitch(&self) -> stitch::StitchState {
        self.stitcher@
    }

    /// How many segments of the first playlist are taken.
    pub closed spec fn keep(&self) -> usize {
        self.session.keep()
    }

    /// Segments that cannot be had are skipped.
    pub closed spec fn skips_missing(&self) -> bool {
        self.session.skips_missing()
    }

    pub open spec fn wf(&self) -> bool {
        self.pull().valid() && self.stitch().valid()
    }

    /// The settings are the same.
    pub open spec fn same_settings(&self, other: &MpegTsPull) -> bool {
        self.keep() == other.keep() && self.skips_missing() == other.skips_missing()
    }

    /// Start a session in a directory that held files of these names; the media among them is
    /// to be wiped.
    pub fn start(
        names: &Vec<String>,
        cache: &CacheConfig,
        mpegts: &MpegTsConfig,
        recovery: &RecoveryConfig,
    ) -> (session: Self)
        requires
            cache.window_segments + 2 <= u64::MAX,
            mpegts.live_holdback_segments + mpegts.min_buffer_segments <= usize::MAX,
        ensures
            session.wf(),
            session.pull() == pull::fresh(),
            session.keep() == keep_of(*mpegts),
            session.skips_missing() == recovery.skip_missing_segments,
            session.stitch() == (stitch::StitchState {
                window: if cache.window_segments == 0 {
                    1
                } else {
                    cache.window_segments as nat
                },
                resync: recovery.ts_resync_packets,
                counters: Map::empty(),
                next: stitch::next_ts_number(text::texts(names@)),
                start: stitch::next_ts_number(text::texts(names@)),
                last: None,
            }),
    {
        let wanted: u64 = mpegts.live_holdback_segments + mpegts.min_buffer_segments;
        let keep: usize = if wanted < MIN_KEEP_ON_START as u64 {
            MIN_KEEP_ON_START
        } else {
            wanted as usize
        };
        MpegTsPull {
            session: PullSession::new(keep, recovery.skip_missing_segments),
            stitcher: TsStitcher::resume(
                names,
                cache.window_segments,
                recovery.ts_resync_packets,
            ),
        }
    }

    /// Take up a playlist.
    pub fn begin_playlist(&mut self, pl: &MediaPlaylist)
        requires
            old(self).wf(),
        ensures
            final(self).wf(),
            final(self).same_settings(old(self)),
            final(self).stitch() == old(self).stitch(),
            final(self).pull() == pull::begun(
                old(self).pull(),
                crate::hls::playlist::segment_views(pl.segments@),
                old(self).keep() as int,
            ),
    {
        self.session.begin_playlist(pl);
    }

    fn leave_gap(
        &mut self,
        duration_secs: Double,
        protected: Option<u64>,
        ops: &mut Vec<CacheOp>,
    )
        requires
            old(self).wf(),
        ensures
            final(self).wf(),
            final(self).same_settings(old(self)),
            final(self).pull() == old(self).pull(),
            final(self).stitch() == gap_left(old(self).stitch(), duration_secs, protected).0,
            op_views(final(ops)@) == op_views(old(ops)@) + gap_left(
                old(self).stitch(),
                duration_secs,
                protected,
            ).1,
    {
        let ghost before = ops@;
        let gap: TsGap = self.stitcher.skip_segment(duration_secs.at_least_tenth());
        ops.push(CacheOp::WriteGap(gap));
        assert(op_views(ops@) =~= op_views(before).push(CacheOpView::WriteGap(gap)));
        self.commit(protected, ops);
        assert(op_views(ops@) =~= op_views(before) + gap_left(
            old(self).stitch(),
            duration_secs,
            protected,
        ).1);
    }

    fn commit(&mut self, protected: Option<u64>, ops: &mut Vec<CacheOp>)
        requires
            old(self).wf(),
        ensures
            final(self).wf(),
            final(self).same_settings(old(self)),
            final(self).pull() == old(self).pull(),
            final(self).stitch() == stitch::committed(old(self).stitch(), protected),
            op_views(final(ops)@) == op_views(old(ops)@) + deletions(
                old(self).stitch().start,
                final(self).stitch().start,
            ),
    {
        let ghost before = op_views(ops@);
        let ghost start = self.stitch().start;
        let pruned: Vec<u64> = self.stitcher.commit_segment(protected);
        let ghost gone = deletions(start, self.stitch().start);
        let mut i: usize = 0;
        assert(before + gone.take(0) =~= before);
        while i < pruned.len()
            invariant
                i <= pruned@.len(),
                gone.len() == pruned@.len(),
                forall|j: int|
                    0 <= j < pruned@.len() ==> gone[j] == CacheOpView::Delete(
                        #[trigger] pruned@[j],
                    ),
                op_views(ops@) == before + gone.take(i as int),
            decreases pruned@.len() - i,
        {
            let ghost now = ops@;
            ops.push(CacheOp::Delete(pruned[i]));
            proof {
                assert(op_views(ops@) =~= op_views(now).push(
                    CacheOpView::Delete(pruned@[i as int]),
                ));
                assert(gone.take(i + 1) =~= gone.take(i as int).push(gone[i as int]));
                assert(before + gone.take(i + 1) =~= (before + gone.take(i as int)).push(
                    gone[i as int],
                ));
            }
            i = i + 1;
        }
        assert(gone.take(i as int) =~= gone);
    }

    fn restart(&mut self, ops: &mut Vec<CacheOp>)
        requires
            old(self).wf(),
        ensures
            final(self).wf(),
            final(self).same_settings(old(self)),
            final(self).pull() == old(self).pull(),
            final(self).stitch() == reconnected(old(self).stitch()),
            op_views(final(ops)@) == op_views(old(ops)@) + seq![CacheOpView::Wipe],
    {
        let ghost before = ops@;
        self.stitcher.prepare_for_reconnect();
        ops.push(CacheOp::Wipe);
        assert(op_views(ops@) =~= op_views(before) + seq![CacheOpView::Wipe]);
    }

    /// Look at the next segment of the playlist. Segments from `protected` on are kept.
    pub fn begin_segment(
        &mut self,
        channel: &str,
        seq: u64,
        discontinuity: bool,
        duration_secs: Double,
        protected: Option<u64>,
    ) -> (start: SegmentStart)
        requires
            old(self).wf(),
        ensures
            final(self).wf(),
            final(self).same_settings(old(self)),
            final(self).pull() == pull::planned(old(self).pull(), seq, discontinuity).0,
            match pull::planned(old(self).pull(), seq, discontinuity).1 {
                SegmentPlan::Skip => start is Skip && final(self).stitch() == old(self).stitch(),
                SegmentPlan::Fetch { restart, gap, discontinuity } => {
                    &&& start matches SegmentStart::Fetch(ops)
                    &&& (final(self).stitch(), op_views(ops@)) == opened(
                        old(self).stitch(),
                        restart,
                        gap,
                        discontinuity,
                        duration_secs,
                        protected,
                    )
                },
            },
    {
        match self.session.plan_segment(channel, seq, discontinuity) {
            SegmentPlan::Skip => SegmentStart::Skip,
            SegmentPlan::Fetch { restart, gap, discontinuity } => {
                let mut ops: Vec<CacheOp> = Vec::new();
                let ghost first = self.stitch();
                assert(op_views(ops@) =~= seq![]);
                if restart {
                    self.restart(&mut ops);
                }
                let ghost ops1 = op_views(ops@);
                if gap {
                    self.leave_gap(duration_secs, protected, &mut ops);
                }
                let ghost ops2 = op_views(ops@);
                if discontinuity {
                    self.restart(&mut ops);
                }
                assert(op_views(ops@) =~= opened(
                    first,
                    restart,
                    gap,
                    discontinuity,
                    duration_secs,
                    protected,
                ).1);
                SegmentStart::Fetch(ops)
            },
        }
    }

    /// Segment `seq` could not be fetched. The changes leave a gap in its place; without them
    /// the session ends.
    pub fn segment_failed(&mut self, seq: u64, duration_secs: Double, protected: Option<u64>) -> (
    changes: Option<Vec<CacheOp>>)
        requires
            old(self).wf(),
        ensures
            final(self).wf(),
            final(self).same_settings(old(self)),
            changes is Some == old(self).skips_missing(),
            match changes {
                Some(ops) => {
                    &&& final(self).pull() == pull::passed(old(self).pull(), seq)
                    &&& (final(self).stitch(), op_views(ops@)) == gap_left(
                        old(self).stitch(),
                        duration_secs,
                        protected,
                    )
                },
                None => final(self).pull() == old(self).pull() && final(self).stitch() == old(
                    self,
                ).stitch(),
            },
    {
        match self.session.segment_failed(seq) {
            FailureAction::Gap => {
                let mut ops: Vec<CacheOp> = Vec::new();
                assert(op_views(ops@) =~= seq![]);
                self.leave_gap(duration_secs, protected, &mut ops);
                assert(op_views(ops@) =~= gap_left(
                    old(self).stitch(),
                    duration_secs,
                    protected,
                ).1);
                Some(ops)
            },
            FailureAction::Abort => None,
        }
    }

    /// Segment `seq` was fetched.
    pub fn segment_fetched(
        &mut self,
        channel: &str,
        seq: u64,
        bytes: &[u8],
        duration_secs: Double,
        protected: Option<u64>,
    ) -> (end: SegmentEnd)
        requires
            old(self).wf(),
        ensures
            final(self).wf(),
            final(self).same_settings(old(self)),
            ({
                let (news, decision) = pull::taken_up(
                    old(self).pull(),
                    seq,
                    dedup::fingerprint_of(bytes@),
                );
                let (s, wiped) = cleared(old(self).stitch(), decision);
                if decision == SegmentIngestDecision::Skip {
                    &&& end is Skip
                    &&& final(self).pull() == news
                    &&& final(self).stitch() == s
                } else {
                    match repair::prepared(bytes@, s.resync) {
                        Ok(ts) => {
                            &&& final(self).pull() == pull::passed(news, seq)
                            &&& end matches SegmentEnd::Ingested(ops)
                            &&& is_stitched(
                                s,
                                ts,
                                duration_secs,
                                protected,
                                wiped,
                                final(self).stitch(),
                                op_views(ops@),
                            )
                        },
                        Err(e) => if old(self).skips_missing() {
                            &&& final(self).pull() == pull::passed(news, seq)
                            &&& end matches SegmentEnd::Replaced(error, ops)
                            &&& error == e
                            &&& (final(self).stitch(), op_views(ops@)) == (
                                gap_left(s, duration_secs, protected).0,
                                wiped + gap_left(s, duration_secs, protected).1,
                            )
                        } else {
                            &&& final(self).pull() == news
                            &&& final(self).stitch() == s
                            &&& end == SegmentEnd::Failed(e)
                        },
                    }
                }
            }),
    {
        let mut ops: Vec<CacheOp> = Vec::new();
        assert(op_views(ops@) =~= seq![]);
        match self.session.check_content_dedup(channel, seq, bytes) {
            SegmentIngestDecision::Skip => {
                return SegmentEnd::Skip;
            },
            SegmentIngestDecision::ResetAndIngest => {
                self.restart(&mut ops);
                self.session.record_content(channel, seq, bytes);
            },
            SegmentIngestDecision::Ingest => {},
        }
        let ghost s = self.stitch();
        let ghost wiped = op_views(ops@);
        match self.stitcher.push_segment(bytes, duration_secs) {
            Ok(segment) => {
                let ghost ts = repair::prepared(bytes@, s.resync)->Ok_0;
                let ghost data = segment.data@;
                let ghost written = CacheOp::WriteSegment(segment);
                let ghost before = ops@;
                ops.push(CacheOp::WriteSegment(segment));
                assert(op_views(ops@) =~= op_views(before).push(written@));
                self.commit(protected, &mut ops);
                self.session.segment_done(seq);
                proof {
                    assert(continuous::is_rewrite(s.counters, ts, data));
                    assert(op_views(ops@) =~= wiped + stitched(
                        s,
                        ts,
                        data,
                        duration_secs,
                        protected,
                    ).1);
                }
                SegmentEnd::Ingested(ops)
            },
            Err(e) => match self.session.segment_failed(seq) {
                FailureAction::Gap => {
                    self.leave_gap(duration_secs, protected, &mut ops);
                    SegmentEnd::Replaced(e, ops)
                },
                FailureAction::Abort => SegmentEnd::Failed(e),
            },
        }
    }

    /// Segment `seq` was stitched, but could not be written. The changes leave a gap under its
    /// number; without them the session ends.
    pub fn segment_unwritten(
        &mut self,
        seq: u64,
        duration_secs: Double,
        protected: Option<u64>,
    ) -> (changes: Option<Vec<CacheOp>>)
        requires
            old(self).wf(),
        ensures
            final(self).wf(),
            final(self).same_settings(old(self)),
            changes is Some == old(self).skips_missing(),
            ({
                let s = stitch::taken_back(old(self).stitch());
                match changes {
                    Some(ops) => {
                        &&& final(self).pull() == pull::passed(old(self).pull(), seq)
                        &&& (final(self).stitch(), op_views(ops@)) == gap_left(
                            s,
                            duration_secs,
                            protected,
                        )
                    },
                    None => final(self).pull() == old(self).pull() && final(self).stitch() == s,
                }
            }),
    {
        self.stitcher.take_back();
        self.segment_failed(seq, duration_secs, protected)
    }

    /// The playlist was gone through.
    pub fn end_playlist(&mut self, pl: &MediaPlaylist) -> (action: PollAction)
        requires
            old(self).wf(),
        ensures
            final(self).wf(),
            final(self).same_settings(old(self)),
            final(self).stitch() == old(self).stitch(),
            final(self).pull() == pull::ended(old(self).pull(), pl.media_sequence, pl.end_list),
            action == (if pl.end_list {
                PollAction::Finish
            } else {
                PollAction::PollAgain
            }),
    {
        self.session.end_playlist(pl)
    }
}

/// Segments and gaps are numbered one after the other, without a hole and without a number
/// twice, until the numbers run out.
pub proof fn law_every_write_takes_the_next_number(
    s: stitch::StitchState,
    ts: Seq<u8>,
    data: Seq<u8>,
    duration_secs: Double,
    protected: Option<u64>,
)
    requires
        s.valid(),
        s.next < u64::MAX,
    ensures
        stitched(s, ts, data, duration_secs, protected).0.next == s.next + 1,
        stitched(s, ts, data, duration_secs, protected).1[0] == (CacheOpView::WriteSegment {
            number: s.next,
            data,
            duration_secs: stitch::written_duration(duration_secs),
        }),
        gap_left(s, duration_secs, protected).0.next == s.next + 1,
        gap_left(s, duration_secs, protected).1[0] matches CacheOpView::WriteGap(gap)
            && gap.number == s.next,
{
}

/// A segment that could not be written leaves a gap under the number that it was to get, and the
/// segments that made way for it are deleted then.
pub proof fn law_unwritten_segment_leaves_a_gap_under_its_number(
    s: stitch::StitchState,
    ts: Seq<u8>,
    data: Seq<u8>,
    duration_secs: Double,
    protected: Option<u64>,
)
    requires
        s.valid(),
    ensures
        ({
            let tried = stitched(s, ts, data, duration_secs, protected).0;
            let (after, ops) = gap_left(stitch::taken_back(tried), duration_secs, protected);
            &&& after == tried
            &&& ops[0] matches CacheOpView::WriteGap(gap) && gap.number == s.next
            &&& ops.skip(1) == deletions(s.start, after.start)
        }),
{
    let tried = stitched(s, ts, data, duration_secs, protected).0;
    let (after, ops) = gap_left(stitch::taken_back(tried), duration_secs, protected);
    assert(after =~= tried);
    assert(ops.skip(1) =~= deletions(s.start, after.start));
}

/// A new generation never reuses a number: after a wipe the next segment gets the number that
/// it would have had anyway.
pub proof fn law_wipe_keeps_the_numbering(s: stitch::StitchState)
    ensures
        reconnected(s).next == s.next,
        reconnected(s).start == s.next,
        reconnected(s).counters =~= Map::empty(),
{
}

/// What stands before a segment is deleted or passed over, never overwritten: the numbering
/// does not go back.
pub proof fn law_numbering_never_goes_back(
    s: stitch::StitchState,
    restart: bool,
    gap: bool,
    discontinuity: bool,
    duration_secs: Double,
    protected: Option<u64>,
)
    requires
        s.valid(),
    ensures
        s.next <= opened(s, restart, gap, discontinuity, duration_secs, protected).0.next,
        opened(s, restart, gap, discontinuity, duration_secs, protected).0.valid(),
{
}

/// A gap lasts as long as the segment in whose place it stands: its duration is written as it is,
/// for every finite duration of at least one tenth of a second. A shorter one, a negative one and
/// what is no number count as one tenth, and an infinite one as two seconds.
pub proof fn law_gap_lasts_as_long_as_its_segment(
    s: stitch::StitchState,
    duration_secs: Double,
    protected: Option<u64>,
)
    ensures
        gap_left(s, duration_secs, protected).1[0] matches CacheOpView::WriteGap(gap) && {
            let d = duration_secs.bits;
            &&& gap.number == s.next
            &&& 0x3fb9_9999_9999_999a <= d < 0x7ff0_0000_0000_0000 ==> gap.duration_secs
                == duration_secs
            &&& d < 0x3fb9_9999_9999_999a || d > 0x7ff0_0000_0000_0000 ==> gap.duration_secs.bits
                == 0x3fb9_9999_9999_999a
            &&& d == 0x7ff0_0000_0000_0000 ==> gap.duration_secs.bits == 0x4000_0000_0000_0000
        },
{
}

/// A segment is written with its own duration, for every finite duration above zero, and with two
/// seconds for any other.
pub proof fn law_segment_is_written_with_its_duration(
    s: stitch::StitchState,
    ts: Seq<u8>,
    data: Seq<u8>,
    duration_secs: Double,
    protected: Option<u64>,
)
    ensures
        stitched(s, ts, data, duration_secs, protected).1[0] matches CacheOpView::WriteSegment {
            number,
            data: bytes,
            duration_secs: written,
        } && {
            let d = duration_secs.bits;
            &&& number == s.next
            &&& bytes == data
            &&& 0 < d < 0x7ff0_0000_0000_0000 ==> written == duration_secs
            &&& d == 0 || d >= 0x7ff0_0000_0000_0000 ==> written.bits == 0x4000_0000_0000_0000
        },
{
}

/// The numbers that a step makes room for are deleted, each once and in their order, and no other
/// number is: those below the new window that were not deleted before.
pub proof fn law_only_numbers_below_the_window_are_deleted(
    s: stitch::StitchState,
    ts: Seq<u8>,
    data: Seq<u8>,
    duration_secs: Double,
    protected: Option<u64>,
    i: int,
)
    requires
        s.valid(),
    ensures
        ({
            let (after, ops) = gap_left(s, duration_secs, protected);
            &&& ops.len() == 1 + after.start - s.start
            &&& 1 <= i < ops.len() ==> ops[i] == CacheOpView::Delete((s.start + i - 1) as u64)
        }),
        ({
            let (after, ops) = stitched(s, ts, data, duration_secs, protected);
            &&& ops.len() == 1 + after.start - s.start
            &&& 1 <= i < ops.len() ==> ops[i] == CacheOpView::Delete((s.start + i - 1) as u64)
        }),
{
}

/// What stands before a segment, step by step. Where nothing calls for it, nothing is done. Where
/// the numbering started over, and at a discontinuity, the directory is wiped, once for each. Where
/// segments are missing a gap is left as long as the segment, in the generation that it belongs to:
/// behind the wipe of a restart, and before the one of a discontinuity.
pub proof fn law_opening_wipes_and_leaves_a_gap(
    s: stitch::StitchState,
    duration_secs: Double,
    protected: Option<u64>,
)
    requires
        s.valid(),
    ensures
        opened(s, false, false, false, duration_secs, protected) == (s, Seq::<CacheOpView>::empty()),
        opened(s, true, false, false, duration_secs, protected) == (
            reconnected(s),
            seq![CacheOpView::Wipe],
        ),
        opened(s, false, false, true, duration_secs, protected) == (
            reconnected(s),
            seq![CacheOpView::Wipe],
        ),
        opened(s, false, true, false, duration_secs, protected) == gap_left(
            s,
            duration_secs,
            protected,
        ),
        ({
            let gap = gap_left(reconnected(s), duration_secs, protected);
            opened(s, true, true, false, duration_secs, protected) == (
                gap.0,
                seq![CacheOpView::Wipe] + gap.1,
            )
        }),
        ({
            let gap = gap_left(s, duration_secs, protected);
            opened(s, false, true, true, duration_secs, protected) == (
                reconnected(gap.0),
                gap.1.push(CacheOpView::Wipe),
            )
        }),
{
    let none = Seq::<CacheOpView>::empty();
    let wipe = seq![CacheOpView::Wipe];
    let gap = gap_left(s, duration_secs, protected).1;
    let late = gap_left(reconnected(s), duration_secs, protected).1;
    assert(none + none + none =~= none);
    assert(wipe + none + none =~= wipe);
    assert(none + none + wipe =~= wipe);
    assert(none + gap + none =~= gap);
    assert(wipe + late + none =~= wipe + late);
    assert(none + gap + wipe =~= gap.push(CacheOpView::Wipe));
}

/// A fetched segment that replaces another one is stitched into a wiped directory; any other goes on
/// in the one that is there.
pub proof fn law_replaced_segment_wipes_the_directory(s: stitch::StitchState)
    ensures
        cleared(s, SegmentIngestDecision::ResetAndIngest) == (
            reconnected(s),
            seq![CacheOpView::Wipe],
        ),
        cleared(s, SegmentIngestDecision::Ingest) == (s, Seq::<CacheOpView>::empty()),
        cleared(s, SegmentIngestDecision::Skip) == (s, Seq::<CacheOpView>::empty()),
{
}

/// A wiped directory keeps its settings: how many segments stay, and whether they are repaired.
pub proof fn law_wipe_keeps_the_settings(s: stitch::StitchState)
    ensures
        reconnected(s).window == s.window,
        reconnected(s).resync == s.resync,
        reconnected(s).last is None,
{
}

/// The first playlist is joined deep enough to fill the holdback and the buffer, and by three
/// segments at least.
pub proof fn law_first_playlist_fills_the_buffer(mpegts: MpegTsConfig)
    ensures
        keep_of(mpegts) >= 3,
        keep_of(mpegts) >= mpegts.live_holdback_segments + mpegts.min_buffer_segments,
        keep_of(mpegts) == 3 || keep_of(mpegts) == mpegts.live_holdback_segments
            + mpegts.min_buffer_segments,
{
}

/// The counters of a stitched segment go on from those before it, over every packet of it.
pub proof fn law_counters_run_through_the_segment(
    s: stitch::StitchState,
    ts: Seq<u8>,
    data: Seq<u8>,
    duration_secs: Double,
    protected: Option<u64>,
)
    ensures
        stitched(s, ts, data, duration_secs, protected).0.counters == continuous::counters_after(
            s.counters,
            ts,
            (ts.len() / 188) as int,
        ),
        gap_left(s, duration_secs, protected).0.counters == s.counters,
{
}

/// Stitching a segment adds to the changes before it: first the segment is written, under the next
/// number and with its packets rewritten, and all that follows deletes old segments. The counters
/// and the place are then those behind the segment.
pub proof fn law_stitched_segment_is_its_rewrite(
    s: stitch::StitchState,
    ts: Seq<u8>,
    duration_secs: Double,
    protected: Option<u64>,
    first: Seq<CacheOpView>,
    after: stitch::StitchState,
    ops: Seq<CacheOpView>,
    i: int,
)
    requires
        is_stitched(s, ts, duration_secs, protected, first, after, ops),
    ensures
        first.len() < ops.len(),
        ops.take(first.len() as int) == first,
        match ops[first.len() as int] {
            CacheOpView::WriteSegment { number, data, .. } => number == s.next
                && continuous::is_rewrite(s.counters, ts, data),
            _ => false,
        },
        first.len() < i < ops.len() ==> ops[i] is Delete,
        after.counters == continuous::counters_after(s.counters, ts, (ts.len() / 188) as int),
{
    let data = choose|data: Seq<u8>| #[trigger]
        continuous::is_rewrite(s.counters, ts, data) && after == stitched(
            s,
            ts,
            data,
            duration_secs,
            protected,
        ).0 && ops == first + stitched(s, ts, data, duration_secs, protected).1;
    assert(ops.take(first.len() as int) =~= first);
}

/// Two sessions with the same settings agree on each of them.
pub proof fn law_same_settings_agree(a: &MpegTsPull, b: &MpegTsPull)
    ensures
        a.same_settings(b) <==> a.keep() == b.keep() && (a.skips_missing() <==> b.skips_missing()),
{
}

/// A change says what it does in full: a segment with its number, its bytes and its duration, a gap
/// with its number and its duration, a deletion with its number. A list of changes says what each
/// of them does, in order.
pub proof fn law_changes_are_shown_in_full(ops: Seq<CacheOp>, i: int)
    requires
        0 <= i < ops.len(),
    ensures
        op_views(ops).len() == ops.len(),
        match (ops[i], op_views(ops)[i]) {
            (CacheOp::Wipe, CacheOpView::Wipe) => true,
            (
                CacheOp::WriteSegment(segment),
                CacheOpView::WriteSegment { number, data, duration_secs },
            ) => segment.number == number && segment.data@ == data && segment.duration_secs
                == duration_secs,
            (CacheOp::WriteGap(gap), CacheOpView::WriteGap(shown)) => gap == shown,
            (CacheOp::Delete(number), CacheOpView::Delete(shown)) => number == shown,
            _ => false,
        },
{
}

} // verus!
