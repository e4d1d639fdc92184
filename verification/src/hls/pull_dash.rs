//! HLS → demux → CMAF / DASH packager.
//!
//! The session tells the caller what to hand to the packager.

use crate::config::RecoveryConfig;
use crate::demux::screen::DemuxError;
use crate::demux::ts;
use crate::demux::ts::TsDemuxBridge;
use crate::demux::types::AccessUnit;
use crate::hls::dedup;
use crate::hls::playlist;
use crate::hls::playlist::MediaPlaylist;
use crate::hls::pull;
use crate::hls::pull::{
    FailureAction, PollAction, PullSession, SegmentIngestDecision, SegmentPlan, DASH_KEEP_ON_START,
};
use crate::mpegts::repair;
use crate::mpegts::repair::{prepare_ts_bytes, TsError};
use vstd::prelude::*;

verus! {

/// A call to the packager.
#[derive(Debug)]
pub enum PackagerOp {
    /// Start a new CMAF generation.
    Reconnect,
    /// Leave a gap as long as the segment.
    Gap,
    /// Wait for the next keyframe.
    SyncRecovery,
    /// Take up an access unit.
    Unit(AccessUnit),
}

/// What the beginning of a segment calls for.
#[derive(Debug)]
pub enum DashStart {
    /// Nothing: go on with the next segment.
    Skip,
    /// Make these calls, then fetch the segment.
    Fetch(Vec<PackagerOp>),
}

/// What a fetched segment calls for.
#[derive(Debug)]
pub enum DashEnd {
    /// Nothing: it is no news.
    Skip,
    /// Make these calls.
    Ingested(Vec<PackagerOp>),
    /// It holds no packets. Make these calls, which leave a gap in its place.
    Replaced(TsError, Vec<PackagerOp>),
    /// It holds no packets: end the session.
    Failed(TsError),
    /// It is not safe to demultiplex. Make these calls, which leave a gap in its place and start a
    /// new CMAF generation; without them end the session.
    Refused(DemuxError, Option<Vec<PackagerOp>>),
}

/// The demultiplexer of a session.
pub ghost struct DemuxState {
    /// What is known of the tracks.
    pub bridge: ts::BridgeState,
    /// What the demultiplexer was given.
    pub history: Seq<ts::DemuxInput>,
}

/// A demultiplexer that was given nothing.
pub open spec fn fresh_demux() -> DemuxState {
    DemuxState { bridge: ts::no_tracks(), history: Seq::empty() }
}

/// What stands before a segment: a new generation where the numbering started over, a gap where
/// segments are missing, and then a new generation at a discontinuity of the playlist, or
/// recovery of the sync at one of the stream.
pub open spec fn opened(d: DemuxState, restart: bool, gap: bool, discontinuity: bool) -> (
    DemuxState,
    Seq<PackagerOp>,
) {
    let (d1, ops1) = if restart {
        (fresh_demux(), seq![PackagerOp::Reconnect])
    } else {
        (d, seq![])
    };
    let ops2 = if gap {
        seq![PackagerOp::Gap]
    } else {
        seq![]
    };
    let (d3, ops3) = if discontinuity {
        (fresh_demux(), seq![PackagerOp::Reconnect])
    } else if d1.bridge.discontinuity {
        (
            DemuxState { bridge: ts::BridgeState { discontinuity: false, ..d1.bridge }, ..d1 },
            seq![PackagerOp::SyncRecovery],
        )
    } else {
        (d1, seq![])
    };
    (d3, ops1 + ops2 + ops3)
}

/// What stands before the ingest of a fetched segment: a new generation where it replaces
/// another one.
pub open spec fn cleared(d: DemuxState, decision: SegmentIngestDecision) -> (
    DemuxState,
    Seq<PackagerOp>,
) {
    if decision == SegmentIngestDecision::ResetAndIngest {
        (fresh_demux(), seq![PackagerOp::Reconnect])
    } else {
        (d, seq![])
    }
}

/// The calls for a list of access units.
pub open spec fn unit_ops(units: Seq<AccessUnit>) -> Seq<PackagerOp> {
    units.map_values(|unit: AccessUnit| PackagerOp::Unit(unit))
}

/// The packets `data` go through the demultiplexer.
pub open spec fn fed(d: DemuxState, data: Seq<u8>) -> (DemuxState, Seq<PackagerOp>) {
    let events = ts::fed_events(d.history, data);
    let (bridge, units) = ts::drained(d.bridge, events, events.len() as int);
    (
        DemuxState { bridge, history: d.history.push(ts::DemuxInput::Bytes(data)) },
        unit_ops(units),
    )
}

/// Pulls one HLS playlist into a DASH packager.
pub struct DashPull {
    session: PullSession,
    demux: TsDemuxBridge,
    ts_resync: bool,
}

impl DashPull {
    /// What the session remembers of the playlist.
    pub closed spec fn pull(&self) -> pull::PullState {
        self.session@
    }

    /// What the session knows of the stream.
    pub closed spec fn demux(&self) -> DemuxState {
        DemuxState { bridge: self.demux@, history: self.demux.history() }
    }

    /// How many segments of the first playlist are taken.
    pub closed spec fn keep(&self) -> usize {
        self.session.keep()
    }

    /// Segments that cannot be had are skipped.
    pub closed spec fn skips_missing(&self) -> bool {
        self.session.skips_missing()
    }

    /// Segments are repaired instead of truncated.
    pub closed spec fn resync(&self) -> bool {
        self.ts_resync
    }

    pub closed spec fn wf(&self) -> bool {
        self.session@.valid() && self.demux.wf()
    }

    /// The settings are the same.
    pub open spec fn same_settings(&self, other: &DashPull) -> bool {
        self.keep() == other.keep() && self.skips_missing() == other.skips_missing()
            && self.resync() == other.resync()
    }

    /// Start a session.
    pub fn start(recovery: &RecoveryConfig) -> (session: Self)
        ensures
            session.wf(),
            session.pull() == pull::fresh(),
            session.demux() == fresh_demux(),
            session.keep() == DASH_KEEP_ON_START,
            session.skips_missing() == recovery.skip_missing_segments,
            session.resync() == recovery.ts_resync_packets,
    {
        DashPull {
            session: PullSession::new(DASH_KEEP_ON_START, recovery.skip_missing_segments),
            demux: TsDemuxBridge::new(),
            ts_resync: recovery.ts_resync_packets,
        }
    }

    /// Take up a playlist.
    pub fn begin_playlist(&mut self, pl: &MediaPlaylist)
        requires
            old(self).wf(),
        ensures
            final(self).wf(),
            final(self).same_settings(old(self)),
            final(self).demux() == old(self).demux(),
            final(self).pull() == pull::begun(
                old(self).pull(),
                playlist::segment_views(pl.segments@),
                old(self).keep() as int,
            ),
    {
        self.session.begin_playlist(pl);
    }

    /// Look at the next segment of the playlist.
    pub fn begin_segment(&mut self, channel: &str, seq: u64, discontinuity: bool) -> (start:
        DashStart)
        requires
            old(self).wf(),
        ensures
            final(self).wf(),
            final(self).same_settings(old(self)),
            final(self).pull() == pull::planned(old(self).pull(), seq, discontinuity).0,
            match pull::planned(old(self).pull(), seq, discontinuity).1 {
                SegmentPlan::Skip => start is Skip && final(self).demux() == old(self).demux(),
                SegmentPlan::Fetch { restart, gap, discontinuity } => {
                    &&& start matches DashStart::Fetch(ops)
                    &&& (final(self).demux(), ops@) == opened(
                        old(self).demux(),
                        restart,
                        gap,
                        discontinuity,
                    )
                },
            },
    {
        match self.session.plan_segment(channel, seq, discontinuity) {
            SegmentPlan::Skip => DashStart::Skip,
            SegmentPlan::Fetch { restart, gap, discontinuity } => {
                let mut ops: Vec<PackagerOp> = Vec::new();
                if restart {
                    ops.push(PackagerOp::Reconnect);
                    self.demux = TsDemuxBridge::new();
                }
                if gap {
                    ops.push(PackagerOp::Gap);
                }
                let ts_discontinuity: bool = self.demux.take_discontinuity();
                if discontinuity {
                    ops.push(PackagerOp::Reconnect);
                    self.demux = TsDemuxBridge::new();
                } else if ts_discontinuity {
                    ops.push(PackagerOp::SyncRecovery);
                }
                assert(ops@ =~= opened(old(self).demux(), restart, gap, discontinuity).1);
                DashStart::Fetch(ops)
            },
        }
    }

    /// Segment `seq` could not be fetched. The calls leave a gap in its place; without them the
    /// session ends.
    pub fn segment_failed(&mut self, seq: u64) -> (calls: Option<Vec<PackagerOp>>)
        requires
            old(self).wf(),
        ensures
            final(self).wf(),
            final(self).same_settings(old(self)),
            final(self).demux() == old(self).demux(),
            calls is Some == old(self).skips_missing(),
            match calls {
                Some(ops) => ops@ == seq![PackagerOp::Gap] && final(self).pull() == pull::passed(
                    old(self).pull(),
                    seq,
                ),
                None => final(self).pull() == old(self).pull(),
            },
    {
        match self.session.segment_failed(seq) {
            FailureAction::Gap => {
                let mut ops: Vec<PackagerOp> = Vec::new();
                ops.push(PackagerOp::Gap);
                assert(ops@ =~= seq![PackagerOp::Gap]);
                Some(ops)
            },
            FailureAction::Abort => None,
        }
    }

    /// Segment `seq` was fetched.
    pub fn segment_fetched(&mut self, channel: &str, seq: u64, bytes: &[u8]) -> (end: DashEnd)
        requires
            old(self).wf(),
        ensures
            final(self).wf(),
            final(self).same_settings(old(self)),
            ({
                let (news, decision) = pull::taken_up(
                    old(self).pull(),
                    seq,
                    dedup::fingerprint_of(bytes@),
                );
                let (d, first) = cleared(old(self).demux(), decision);
                if decision == SegmentIngestDecision::Skip {
                    &&& end is Skip
                    &&& final(self).pull() == news
                    &&& final(self).demux() == d
                } else {
                    match repair::prepared(bytes@, old(self).resync()) {
                        Ok(data) => match ts::refused(
                            d.history.push(ts::DemuxInput::Bytes(data)),
                        ) {
                            None => {
                                &&& final(self).pull() == pull::passed(news, seq)
                                &&& end matches DashEnd::Ingested(ops)
                                &&& final(self).demux() == fed(d, data).0
                                &&& ops@ == first + fed(d, data).1
                            },
                            Some(e) => {
                                &&& final(self).demux() == fresh_demux()
                                &&& end matches DashEnd::Refused(error, calls)
                                &&& error == e
                                &&& calls is Some == old(self).skips_missing()
                                &&& match calls {
                                    Some(ops) => {
                                        &&& final(self).pull() == pull::passed(news, seq)
                                        &&& ops@ == seq![PackagerOp::Reconnect, PackagerOp::Gap]
                                    },
                                    None => final(self).pull() == news,
                                }
                            },
                        },
                        Err(e) => if old(self).skips_missing() {
                            &&& final(self).pull() == pull::passed(news, seq)
                            &&& final(self).demux() == d
                            &&& end matches DashEnd::Replaced(error, ops)
                            &&& error == e
                            &&& ops@ == first + seq![PackagerOp::Gap]
                        } else {
                            &&& final(self).pull() == news
                            &&& final(self).demux() == d
                            &&& end == DashEnd::Failed(e)
                        },
                    }
                }
            }),
    {
        let mut ops: Vec<PackagerOp> = Vec::new();
        match self.session.check_content_dedup(channel, seq, bytes) {
            SegmentIngestDecision::Skip => {
                return DashEnd::Skip;
            },
            SegmentIngestDecision::ResetAndIngest => {
                ops.push(PackagerOp::Reconnect);
                self.demux = TsDemuxBridge::new();
                self.session.record_content(channel, seq, bytes);
            },
            SegmentIngestDecision::Ingest => {},
        }
        let ghost first = ops@;
        assert(first =~= cleared(
            old(self).demux(),
            pull::taken_up(old(self).pull(), seq, dedup::fingerprint_of(bytes@)).1,
        ).1);
        match prepare_ts_bytes(bytes, self.ts_resync) {
            Ok(data) => match self.demux.feed(data.as_slice()) {
                Ok(units) => {
                    let ghost all = units@;
                    push_units(units, &mut ops);
                    self.session.segment_done(seq);
                    assert(first + unit_ops(all) == ops@);
                    DashEnd::Ingested(ops)
                },
                Err(e) => match self.session.segment_failed(seq) {
                    FailureAction::Gap => {
                        if ops.len() == 0 {
                            ops.push(PackagerOp::Reconnect);
                        }
                        ops.push(PackagerOp::Gap);
                        assert(ops@ =~= seq![PackagerOp::Reconnect, PackagerOp::Gap]);
                        DashEnd::Refused(e, Some(ops))
                    },
                    FailureAction::Abort => DashEnd::Refused(e, None),
                },
            },
            Err(e) => match self.session.segment_failed(seq) {
                FailureAction::Gap => {
                    ops.push(PackagerOp::Gap);
                    assert(ops@ =~= first + seq![PackagerOp::Gap]);
                    DashEnd::Replaced(e, ops)
                },
                FailureAction::Abort => DashEnd::Failed(e),
            },
        }
    }

    /// The playlist was gone through.
    pub fn end_playlist(&mut self, pl: &MediaPlaylist) -> (action: PollAction)
        requires
            old(self).wf(),
        ensures
            final(self).wf(),
            final(self).same_settings(old(self)),
            final(self).demux() == old(self).demux(),
            final(self).pull() == pull::ended(old(self).pull(), pl.media_sequence, pl.end_list),
            action == (if pl.end_list {
                PollAction::Finish
            } else {
                PollAction::PollAgain
            }),
    {
        self.session.end_playlist(pl)
    }

    /// The session ends: the last access units. A stream that is not safe to demultiplex up to its
    /// end is refused.
    pub fn finish(&mut self) -> (last: Result<Vec<AccessUnit>, DemuxError>)
        requires
            old(self).wf(),
        ensures
            final(self).wf(),
            final(self).same_settings(old(self)),
            final(self).pull() == old(self).pull(),
            match ts::refused(old(self).demux().history.push(ts::DemuxInput::End)) {
                None => {
                    let events = ts::end_events(old(self).demux().history);
                    &&& last matches Ok(units)
                    &&& (final(self).demux().bridge, units@) == ts::drained(
                        old(self).demux().bridge,
                        events,
                        events.len() as int,
                    )
                    &&& final(self).demux().history == old(self).demux().history.push(
                        ts::DemuxInput::End,
                    )
                },
                Some(e) => {
                    &&& last matches Err(error)
                    &&& error == e
                    &&& final(self).demux() == fresh_demux()
                },
            },
    {
        self.demux.finish_segment()
    }
}

fn push_units(units: Vec<AccessUnit>, ops: &mut Vec<PackagerOp>)
    ensures
        final(ops)@ == old(ops)@ + unit_ops(units@),
{
    let ghost all = units@;
    let ghost before = ops@;
    assert(before + unit_ops(all.take(0)) =~= before);
    for unit in it: units
        invariant
            it.seq() == all,
            ops@ == before + unit_ops(all.take(it.index() as int)),
    {
        let ghost n = it.index() as int;
        ops.push(PackagerOp::Unit(unit));
        assert(all.take(n + 1) =~= all.take(n).push(unit));
        assert(ops@ =~= before + unit_ops(all.take(n + 1)));
    }
    assert(all.take(all.len() as int) =~= all);
}

/// After a discontinuity of the playlist, and where the numbering started over, the
/// demultiplexer knows nothing of what came before.
pub proof fn law_new_generation_has_a_fresh_demultiplexer(
    d: DemuxState,
    restart: bool,
    gap: bool,
    discontinuity: bool,
)
    requires
        restart || discontinuity,
    ensures
        opened(d, restart, gap, discontinuity).0 == fresh_demux(),
{
}

/// A discontinuity of the stream is recovered from once: before the next segment it is no
/// longer pending.
pub proof fn law_stream_discontinuity_is_recovered_once(
    d: DemuxState,
    restart: bool,
    gap: bool,
    discontinuity: bool,
)
    ensures
        !opened(d, restart, gap, discontinuity).0.bridge.discontinuity,
        d.bridge.discontinuity && !restart && !discontinuity ==> opened(
            d,
            restart,
            gap,
            discontinuity,
        ).1.last() == PackagerOp::SyncRecovery,
{
}

/// Before a segment stand at most three calls, in this order: a new generation where the
/// numbering started over, a gap where segments are missing, and a new generation at a
/// discontinuity of the playlist, or else the recovery of the sync where the stream that goes on
/// broke.
pub proof fn law_calls_before_a_segment(
    d: DemuxState,
    restart: bool,
    gap: bool,
    discontinuity: bool,
)
    ensures
        ({
            let ops = opened(d, restart, gap, discontinuity).1;
            let before_gap = if restart {
                1int
            } else {
                0
            };
            let before_last = before_gap + if gap {
                1int
            } else {
                0
            };
            let broken = d.bridge.discontinuity && !restart;
            &&& ops.len() == before_last + if discontinuity || broken {
                1int
            } else {
                0
            }
            &&& restart ==> ops[0] is Reconnect
            &&& gap ==> ops[before_gap] is Gap
            &&& discontinuity ==> ops[before_last] is Reconnect
            &&& !discontinuity && broken ==> ops[before_last] is SyncRecovery
        }),
{
}

/// A segment that follows on within a generation finds the demultiplexer as the one before left
/// it, but for the discontinuity that was recovered from.
pub proof fn law_generation_keeps_its_demultiplexer(d: DemuxState, gap: bool)
    ensures
        ({
            let after = opened(d, false, gap, false).0;
            &&& after.history == d.history
            &&& after.bridge.video == d.bridge.video
            &&& after.bridge.audio == d.bridge.audio
            &&& after.bridge.sample_rate == d.bridge.sample_rate
            &&& !after.bridge.discontinuity
        }),
{
}

/// A new demultiplexer knows of no track, was given nothing, and has no discontinuity pending.
pub proof fn law_fresh_demultiplexer_knows_nothing()
    ensures
        fresh_demux().history.len() == 0,
        fresh_demux().bridge.video is None,
        fresh_demux().bridge.audio is None,
        !fresh_demux().bridge.discontinuity,
{
}

/// A fetched segment that replaces another one starts a new generation, and then goes through a
/// new demultiplexer; any other goes on where the last one ended.
pub proof fn law_replacing_segment_starts_a_generation(
    d: DemuxState,
    decision: SegmentIngestDecision,
)
    ensures
        decision is ResetAndIngest ==> {
            &&& cleared(d, decision).0 == fresh_demux()
            &&& cleared(d, decision).1.len() == 1
            &&& cleared(d, decision).1[0] is Reconnect
        },
        !(decision is ResetAndIngest) ==> {
            &&& cleared(d, decision).0 == d
            &&& cleared(d, decision).1.len() == 0
        },
{
}

/// The packets of a segment become part of what the demultiplexer was given, and every access
/// unit that it gives back is handed to the packager, in order and once.
pub proof fn law_access_units_are_handed_on(d: DemuxState, data: Seq<u8>, i: int)
    ensures
        ({
            let events = ts::fed_events(d.history, data);
            let (bridge, units) = ts::drained(d.bridge, events, events.len() as int);
            let (after, ops) = fed(d, data);
            &&& after.bridge == bridge
            &&& after.history.len() == d.history.len() + 1
            &&& after.history.last() == ts::DemuxInput::Bytes(data)
            &&& after.history.drop_last() == d.history
            &&& ops.len() == units.len()
            &&& 0 <= i < units.len() ==> ops[i] == PackagerOp::Unit(units[i])
        }),
{
    let after = fed(d, data).0;
    assert(after.history.drop_last() =~= d.history);
}

/// Two sessions with the same settings agree on each of them.
pub proof fn law_same_settings_agree(a: &DashPull, b: &DashPull)
    ensures
        a.same_settings(b) <==> a.keep() == b.keep() && (a.skips_missing() <==> b.skips_missing())
            && (a.resync() <==> b.resync()),
{
}

} // verus!
