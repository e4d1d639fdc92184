//! HLS pull session: which segments are fetched, and what becomes of them.
//!
//! A session polls a playlist. Each poll begins with [`PullSession::begin_playlist`], goes
//! through the segments, and ends with [`PullSession::end_playlist`]. The caller fetches.

use crate::config::OutputMode;
use crate::hls::dedup;
use crate::hls::dedup::{ContentDedupAction, SegmentDedup, SeqOrderAction};
use crate::hls::playlist;
use crate::hls::playlist::MediaPlaylist;
use crate::hls::recovery;
use crate::hls::recovery::detect_sequence_gap;
use std::collections::HashSet;
use vstd::prelude::*;

verus! {

broadcast use vstd::std_specs::hash::group_hash_axioms;

/// How many recent segments are remembered to recognize replays.
pub const DEDUP_CAPACITY: usize = 128;

/// How many sequence numbers are remembered before old ones are forgotten.
pub const MAX_SEEN: usize = 512;

/// How far below the playlist sequence numbers stay remembered.
pub const SEEN_MARGIN: u64 = 64;

/// How many segments a DASH session takes from the first playlist.
pub const DASH_KEEP_ON_START: usize = 3;

/// What a session remembers of the segments that came by.
#[verifier::ext_equal]
pub ghost struct PullState {
    /// The sequence numbers taken up or passed over.
    pub seen: Set<u64>,
    /// The recent segments and their fingerprints.
    pub dedup: dedup::DedupState,
    /// The last sequence number that was dealt with.
    pub last_seq: Option<u64>,
}

impl PullState {
    /// The window of recent segments is valid, and finitely many numbers are remembered.
    pub open spec fn valid(self) -> bool {
        self.dedup.valid() && self.seen.finite()
    }
}

/// What is to be done about a segment of the playlist.
#[derive(Debug, Clone, Copy, PartialEq, Eq, Structural)]
pub enum SegmentPlan {
    /// Nothing.
    Skip,
    /// Fetch it. Before that, in this order: start the output anew where the numbering started
    /// over, leave a gap where segments are missing, start the output anew at a discontinuity.
    Fetch { restart: bool, gap: bool, discontinuity: bool },
}

/// What is to be done with a fetched segment.
#[derive(Debug, Clone, Copy, PartialEq, Eq, Structural)]
pub enum SegmentIngestDecision {
    Skip,
    Ingest,
    /// Start the output anew, then ingest.
    ResetAndIngest,
}

/// What follows a segment that cannot be had.
#[derive(Debug, Clone, Copy, PartialEq, Eq, Structural)]
pub enum FailureAction {
    /// Leave a gap and go on.
    Gap,
    /// End the session with the error.
    Abort,
}

/// What follows a playlist.
#[derive(Debug, Clone, Copy, PartialEq, Eq, Structural)]
pub enum PollAction {
    /// The playlist is complete: end the session.
    Finish,
    /// Fetch the playlist again after the poll interval.
    PollAgain,
}

/// One pull session.
#[derive(Debug)]
pub struct PullSession {
    seen: HashSet<u64>,
    dedup: SegmentDedup,
    last_seq: Option<u64>,
    keep_on_start: usize,
    skip_missing: bool,
}

impl View for PullSession {
    type V = PullState;

    closed spec fn view(&self) -> PullState {
        PullState { seen: self.seen@, dedup: self.dedup@, last_seq: self.last_seq }
    }
}

/// A session that has seen nothing.
pub open spec fn fresh() -> PullState {
    PullState {
        seen: Set::empty(),
        dedup: dedup::DedupState { recent: Seq::empty(), capacity: DEDUP_CAPACITY as nat },
        last_seq: None,
    }
}

/// How many segments of the first playlist are passed over.
pub open spec fn passed_over(len: int, keep: int) -> int {
    if len > keep {
        len - keep
    } else {
        0
    }
}

/// The sequence numbers of the first `n` segments.
pub open spec fn first_seqs(segments: Seq<playlist::SegmentView>, n: int) -> Set<u64> {
    Set::new(|seq: u64| exists|i: int| 0 <= i < n && (#[trigger] segments[i]).seq == seq)
}

/// The session after a playlist came in: of the first one, all but the last segments are
/// passed over.
pub open spec fn begun(p: PullState, segments: Seq<playlist::SegmentView>, keep: int) -> PullState {
    let n = passed_over(segments.len() as int, keep);
    if p.seen =~= Set::empty() && n > 0 {
        PullState {
            seen: first_seqs(segments, n),
            last_seq: Some(segments[n - 1].seq),
            ..p
        }
    } else {
        p
    }
}

/// The session and the plan after a look at a segment of the playlist.
pub open spec fn planned(p: PullState, seq: u64, discontinuity: bool) -> (PullState, SegmentPlan) {
    let order = dedup::seq_order(p.last_seq, seq);
    let forgotten = dedup::DedupState { recent: Seq::empty(), ..p.dedup };
    if p.seen.contains(seq) {
        (p, SegmentPlan::Skip)
    } else if order == SeqOrderAction::SkipRewind {
        (PullState { seen: p.seen.insert(seq), ..p }, SegmentPlan::Skip)
    } else if order == SeqOrderAction::SequenceReset {
        (
            PullState { seen: Set::empty().insert(seq), dedup: forgotten, last_seq: None },
            SegmentPlan::Fetch { restart: true, gap: false, discontinuity },
        )
    } else {
        (
            PullState {
                seen: p.seen.insert(seq),
                dedup: if discontinuity {
                    forgotten
                } else {
                    p.dedup
                },
                last_seq: p.last_seq,
            },
            SegmentPlan::Fetch {
                restart: false,
                gap: recovery::has_gap(p.last_seq, seq),
                discontinuity,
            },
        )
    }
}

/// The session and the decision after a segment was fetched: where the output starts anew, the
/// recent segments are forgotten.
pub open spec fn decided(p: PullState, seq: u64, fingerprint: u64) -> (
    PullState,
    SegmentIngestDecision,
) {
    match p.dedup.action(seq, fingerprint) {
        ContentDedupAction::Accept => (
            PullState { dedup: p.dedup.checked(seq, fingerprint), ..p },
            SegmentIngestDecision::Ingest,
        ),
        ContentDedupAction::SkipDuplicate => (p, SegmentIngestDecision::Skip),
        ContentDedupAction::SkipReplay => (p, SegmentIngestDecision::Skip),
        ContentDedupAction::ResetOutput => (
            PullState {
                dedup: dedup::DedupState { recent: Seq::empty(), ..p.dedup },
                ..p
            },
            SegmentIngestDecision::ResetAndIngest,
        ),
    }
}

/// The session after the payload of a segment was shown to the window of recent segments once
/// more.
pub open spec fn recorded(p: PullState, seq: u64, fingerprint: u64) -> PullState {
    PullState { dedup: p.dedup.checked(seq, fingerprint), ..p }
}

/// The session and the decision after a fetched segment was taken up: one that starts the output
/// anew is the first that is remembered.
pub open spec fn taken_up(p: PullState, seq: u64, fingerprint: u64) -> (
    PullState,
    SegmentIngestDecision,
) {
    let (news, decision) = decided(p, seq, fingerprint);
    if decision == SegmentIngestDecision::ResetAndIngest {
        (recorded(news, seq, fingerprint), decision)
    } else {
        (news, decision)
    }
}

/// The session after segment `seq` was dealt with.
pub open spec fn passed(p: PullState, seq: u64) -> PullState {
    PullState { last_seq: Some(seq), ..p }
}

/// The lowest sequence number that stays remembered.
pub open spec fn kept_from(media_sequence: u64) -> u64 {
    if media_sequence < SEEN_MARGIN {
        0
    } else {
        (media_sequence - SEEN_MARGIN) as u64
    }
}

/// The session after a playlist was gone through: numbers far below it are forgotten once there
/// are many.
pub open spec fn ended(p: PullState, media_sequence: u64, end_list: bool) -> PullState {
    if !end_list && p.seen.len() > MAX_SEEN {
        PullState {
            seen: p.seen.filter(|seq: u64| seq >= kept_from(media_sequence)),
            ..p
        }
    } else {
        p
    }
}

impl PullSession {
    /// How many segments of the first playlist are taken.
    pub closed spec fn keep(&self) -> usize {
        self.keep_on_start
    }

    /// Segments that cannot be had are skipped.
    pub closed spec fn skips_missing(&self) -> bool {
        self.skip_missing
    }

    /// The settings are the same.
    pub open spec fn same_settings(&self, other: &PullSession) -> bool {
        self.keep() == other.keep() && self.skips_missing() == other.skips_missing()
    }

    /// A session that takes the last `keep_on_start` segments of the first playlist.
    pub fn new(keep_on_start: usize, skip_missing: bool) -> (session: Self)
        ensures
            session@.valid(),
            session@ == fresh(),
            session.keep() == keep_on_start,
            session.skips_missing() == skip_missing,
    {
        PullSession {
            seen: HashSet::new(),
            dedup: SegmentDedup::new(DEDUP_CAPACITY),
            last_seq: None,
            keep_on_start,
            skip_missing,
        }
    }

    /// Take up a playlist. Of the first one only the last segments are taken.
    pub fn begin_playlist(&mut self, pl: &MediaPlaylist)
        requires
            old(self)@.valid(),
        ensures
            final(self)@.valid(),
            final(self).same_settings(old(self)),
            final(self)@ == begun(
                old(self)@,
                playlist::segment_views(pl.segments@),
                old(self).keep() as int,
            ),
    {
        let ghost segments = playlist::segment_views(pl.segments@);
        let ghost before = self@;
        let len: usize = pl.segments.len();
        if self.seen.len() != 0 || len <= self.keep_on_start {
            return ;
        }
        let skip: usize = len - self.keep_on_start;
        let mut i: usize = 0;
        assert(self.seen@ =~= first_seqs(segments, 0));
        while i < skip
            invariant
                i <= skip <= len,
                len == pl.segments@.len(),
                segments == playlist::segment_views(pl.segments@),
                self.same_settings(old(self)),
                before.valid(),
                self.dedup@ == before.dedup,
                self.seen@.finite(),
                self.seen@ == first_seqs(segments, i as int),
                self.last_seq == (if i == 0 {
                    before.last_seq
                } else {
                    Some(segments[i - 1].seq)
                }),
            decreases skip - i,
        {
            let seq: u64 = pl.segments[i].seq;
            assert(segments[i as int].seq == seq);
            self.seen.insert(seq);
            self.last_seq = Some(seq);
            proof {
                lemma_next_seq(segments, i as int);
                assert(self.seen@ =~= first_seqs(segments, i + 1));
            }
            i = i + 1;
        }
    }

    /// Look at the next segment of the playlist.
    pub fn plan_segment(&mut self, channel: &str, seq: u64, discontinuity: bool) -> (plan:
        SegmentPlan)
        requires
            old(self)@.valid(),
        ensures
            final(self)@.valid(),
            final(self).same_settings(old(self)),
            (final(self)@, plan) == planned(old(self)@, seq, discontinuity),
    {
        if self.seen.contains(&seq) {
            return SegmentPlan::Skip;
        }
        let mut restart: bool = false;
        match SegmentDedup::check_seq_order(self.last_seq, seq) {
            SeqOrderAction::SkipRewind => {
                self.seen.insert(seq);
                return SegmentPlan::Skip;
            },
            SeqOrderAction::SequenceReset => {
                self.seen.clear();
                self.dedup.clear();
                self.last_seq = None;
                restart = true;
            },
            SeqOrderAction::Advance => {},
        }
        self.seen.insert(seq);
        let gap: bool = detect_sequence_gap(channel, self.last_seq, seq);
        if discontinuity {
            self.dedup.clear();
        }
        SegmentPlan::Fetch { restart, gap, discontinuity }
    }

    /// Segment `seq` could not be fetched, or does not hold what it should.
    pub fn segment_failed(&mut self, seq: u64) -> (action: FailureAction)
        requires
            old(self)@.valid(),
        ensures
            final(self)@.valid(),
            final(self).same_settings(old(self)),
            action == (if old(self).skips_missing() {
                FailureAction::Gap
            } else {
                FailureAction::Abort
            }),
            final(self)@ == (if old(self).skips_missing() {
                passed(old(self)@, seq)
            } else {
                old(self)@
            }),
    {
        if self.skip_missing {
            self.last_seq = Some(seq);
            FailureAction::Gap
        } else {
            FailureAction::Abort
        }
    }

    /// Segment `seq` was fetched: decide whether it is news. Where it replaces another one, the
    /// recent segments are forgotten, and it is to be recorded anew.
    pub fn check_content_dedup(&mut self, channel: &str, seq: u64, bytes: &[u8]) -> (decision:
        SegmentIngestDecision)
        requires
            old(self)@.valid(),
        ensures
            final(self)@.valid(),
            final(self).same_settings(old(self)),
            (final(self)@, decision) == decided(
                old(self)@,
                seq,
                dedup::fingerprint_of(bytes@),
            ),
    {
        match self.dedup.check_content(channel, seq, bytes) {
            ContentDedupAction::Accept => SegmentIngestDecision::Ingest,
            ContentDedupAction::SkipDuplicate => SegmentIngestDecision::Skip,
            ContentDedupAction::SkipReplay => SegmentIngestDecision::Skip,
            ContentDedupAction::ResetOutput => {
                self.dedup.clear();
                SegmentIngestDecision::ResetAndIngest
            },
        }
    }

    /// Show the payload of segment `seq` to the window of recent segments again, after the output
    /// was started anew for it.
    pub fn record_content(&mut self, channel: &str, seq: u64, bytes: &[u8])
        requires
            old(self)@.valid(),
        ensures
            final(self)@.valid(),
            final(self).same_settings(old(self)),
            final(self)@ == recorded(old(self)@, seq, dedup::fingerprint_of(bytes@)),
    {
        let _action: ContentDedupAction = self.dedup.check_content(channel, seq, bytes);
    }

    /// Segment `seq` was ingested.
    pub fn segment_done(&mut self, seq: u64)
        requires
            old(self)@.valid(),
        ensures
            final(self)@.valid(),
            final(self).same_settings(old(self)),
            final(self)@ == passed(old(self)@, seq),
    {
        self.last_seq = Some(seq);
    }

    /// The playlist was gone through.
    pub fn end_playlist(&mut self, pl: &MediaPlaylist) -> (action: PollAction)
        requires
            old(self)@.valid(),
        ensures
            final(self)@.valid(),
            final(self).same_settings(old(self)),
            final(self)@ == ended(old(self)@, pl.media_sequence, pl.end_list),
            action == (if pl.end_list {
                PollAction::Finish
            } else {
                PollAction::PollAgain
            }),
    {
        if pl.end_list {
            return PollAction::Finish;
        }
        if self.seen.len() > MAX_SEEN {
            self.forget_below(pl.media_sequence.saturating_sub(SEEN_MARGIN));
        }
        PollAction::PollAgain
    }

    fn forget_below(&mut self, min_keep: u64)
        requires
            old(self)@.valid(),
        ensures
            final(self)@.valid(),
            final(self).same_settings(old(self)),
            final(self)@ == (PullState {
                seen: old(self)@.seen.filter(|seq: u64| seq >= min_keep),
                ..old(self)@
            }),
    {
        let ghost all = self.seen@;
        let mut kept: HashSet<u64> = HashSet::new();
        for seq in it: self.seen.iter()
            invariant
                all == self.seen@,
                self@ == old(self)@,
                self.same_settings(old(self)),
                it.seq().unref().to_set() == all,
                forall|s: u64| #[trigger] kept@.contains(s) ==> all.contains(s) && s >= min_keep,
                forall|i: int|
                    0 <= i < it.index() && it.seq().unref()[i] >= min_keep ==> kept@.contains(
                        #[trigger] it.seq().unref()[i],
                    ),
                forall|s: u64| #[trigger]
                    all.contains(s) ==> exists|i: int|
                        0 <= i < it.seq().len() && #[trigger] it.seq().unref()[i] == s,
        {
            proof {
                let i = it.index() as int;
                assert(it.seq().unref()[i] == *seq);
                assert(it.seq().unref().to_set().contains(*seq));
            }
            if *seq >= min_keep {
                kept.insert(*seq);
            }
        }
        assert(forall|s: u64| #[trigger] all.contains(s) && s >= min_keep ==> kept@.contains(s));
        assert(kept@ =~= all.filter(|seq: u64| seq >= min_keep));
        self.seen = kept;
    }
}

/// A segment that was looked at is not fetched again: a second look at it finds nothing to do.
pub proof fn law_segment_is_planned_once(
    p: PullState,
    seq: u64,
    discontinuity: bool,
    again: bool,
)
    ensures
        planned(planned(p, seq, discontinuity).0, seq, again).1 == SegmentPlan::Skip,
{
}

/// Within a generation segments are fetched in ascending order: one that is fetched without a
/// restart lies above the last one that was dealt with.
pub proof fn law_segments_are_fetched_in_order(p: PullState, seq: u64, discontinuity: bool)
    requires
        planned(p, seq, discontinuity).1 matches SegmentPlan::Fetch { restart, .. } && !restart,
    ensures
        p.last_seq matches Some(last) ==> last < seq,
        planned(p, seq, discontinuity).0.last_seq == p.last_seq,
{
}

/// After a restart nothing of the generation before is remembered: neither numbers, nor
/// payloads, nor the place.
pub proof fn law_restart_forgets(p: PullState, seq: u64, discontinuity: bool)
    requires
        planned(p, seq, discontinuity).1 matches SegmentPlan::Fetch { restart, .. } && restart,
    ensures
        ({
            let after = planned(p, seq, discontinuity).0;
            &&& after.seen =~= Set::empty().insert(seq)
            &&& after.dedup.recent =~= Seq::empty()
            &&& after.last_seq is None
        }),
{
}

/// The session after the first `n` segments of a playlist came by, where `dealt[i]` says whether
/// segment `i`, once planned, was dealt with or skipped as no news.
pub open spec fn walked(
    p: PullState,
    segments: Seq<playlist::SegmentView>,
    dealt: Seq<bool>,
    n: int,
) -> PullState
    decreases n,
{
    if n <= 0 {
        p
    } else {
        let before = walked(p, segments, dealt, n - 1);
        let (after, plan) = planned(before, segments[n - 1].seq, segments[n - 1].discontinuity);
        if plan is Fetch && dealt[n - 1] {
            passed(after, segments[n - 1].seq)
        } else {
            after
        }
    }
}

/// Of the first playlist the last `keep` segments are fetched and the others are not, where the
/// sequence numbers ascend. Which of the fetched segments were news makes no difference.
pub proof fn law_first_playlist_is_joined_near_its_end(
    p: PullState,
    segments: Seq<playlist::SegmentView>,
    keep: int,
    dealt: Seq<bool>,
    i: int,
)
    requires
        p.seen =~= Set::empty(),
        p.last_seq is None,
        0 <= keep,
        0 <= i < segments.len(),
        forall|j: int, k: int|
            0 <= j < k < segments.len() ==> (#[trigger] segments[j]).seq < (
            #[trigger] segments[k]).seq,
    ensures
        ({
            let now = walked(begun(p, segments, keep), segments, dealt, i);
            planned(now, segments[i].seq, segments[i].discontinuity).1 is Fetch <==> i
                >= segments.len() - keep
        }),
{
    let n = passed_over(segments.len() as int, keep);
    let now = walked(begun(p, segments, keep), segments, dealt, i);
    lemma_walked(p, segments, keep, dealt, i);
    if i < n {
        assert(first_seqs(segments, n).contains(segments[i].seq));
    } else {
        lemma_seqs_ascend(segments, i);
        assert(!now.seen.contains(segments[i].seq));
    }
}

proof fn lemma_walked(
    p: PullState,
    segments: Seq<playlist::SegmentView>,
    keep: int,
    dealt: Seq<bool>,
    i: int,
)
    requires
        p.seen =~= Set::empty(),
        p.last_seq is None,
        0 <= keep,
        0 <= i <= segments.len(),
        forall|j: int, k: int|
            0 <= j < k < segments.len() ==> (#[trigger] segments[j]).seq < (
            #[trigger] segments[k]).seq,
    ensures
        ({
            let n = passed_over(segments.len() as int, keep);
            let known = first_seqs(
                segments,
                if i < n {
                    n
                } else {
                    i
                },
            );
            let now = walked(begun(p, segments, keep), segments, dealt, i);
            &&& now.seen =~= known
            &&& now.last_seq matches Some(last) ==> known.contains(last)
        }),
    decreases i,
{
    let n = passed_over(segments.len() as int, keep);
    let first = begun(p, segments, keep);
    if i == 0 {
        assert(first_seqs(segments, 0) =~= Set::empty());
        if n > 0 {
            assert(first_seqs(segments, n).contains(segments[n - 1].seq));
        }
    } else {
        lemma_walked(p, segments, keep, dealt, i - 1);
        let seq = segments[i - 1].seq;
        if i <= n {
            assert(first_seqs(segments, n).contains(seq));
        } else {
            lemma_next_seq(segments, i - 1);
            let before = walked(first, segments, dealt, i - 1);
            lemma_seqs_ascend(segments, i - 1);
            assert(!before.seen.contains(seq));
            assert(dedup::seq_order(before.last_seq, seq) == SeqOrderAction::Advance);
        }
    }
}

proof fn lemma_seqs_ascend(segments: Seq<playlist::SegmentView>, n: int)
    requires
        0 <= n < segments.len(),
        forall|j: int, k: int|
            0 <= j < k < segments.len() ==> (#[trigger] segments[j]).seq < (
            #[trigger] segments[k]).seq,
    ensures
        forall|s: u64| #[trigger] first_seqs(segments, n).contains(s) ==> s < segments[n].seq,
{
    assert forall|s: u64| #[trigger] first_seqs(segments, n).contains(s) implies s
        < segments[n].seq by {
        let j = choose|j: int| 0 <= j < n && (#[trigger] segments[j]).seq == s;
        assert(segments[j].seq < segments[n].seq);
    }
}

proof fn lemma_next_seq(segments: Seq<playlist::SegmentView>, i: int)
    requires
        0 <= i,
    ensures
        first_seqs(segments, i + 1) =~= first_seqs(segments, i).insert(segments[i].seq),
{
    assert forall|s: u64| #[trigger] first_seqs(segments, i + 1).contains(s) <==> first_seqs(
        segments,
        i,
    ).insert(segments[i].seq).contains(s) by {
        if first_seqs(segments, i + 1).contains(s) && s != segments[i].seq {
            let j = choose|j: int| 0 <= j < i + 1 && (#[trigger] segments[j]).seq == s;
            assert(j < i);
        }
    }
}

/// Forgetting old numbers never makes a segment of the playlist look new: those at and above its
/// start stay remembered.
pub proof fn law_playlist_numbers_stay_remembered(
    p: PullState,
    media_sequence: u64,
    end_list: bool,
    seq: u64,
)
    requires
        media_sequence <= seq,
    ensures
        ended(p, media_sequence, end_list).seen.contains(seq) <==> p.seen.contains(seq),
{
}

/// A replayed or repeated payload changes nothing: the session stays where it was.
pub proof fn law_skipped_payload_changes_nothing(p: PullState, seq: u64, fingerprint: u64)
    requires
        decided(p, seq, fingerprint).1 == SegmentIngestDecision::Skip,
    ensures
        decided(p, seq, fingerprint).0 == p,
{
}

/// What was ingested is remembered: the same segment is skipped when it comes again.
pub proof fn law_ingested_segment_is_remembered(p: PullState, seq: u64, fingerprint: u64)
    requires
        p.valid(),
        taken_up(p, seq, fingerprint).1 != SegmentIngestDecision::Skip,
    ensures
        taken_up(p, seq, fingerprint).0.dedup.recent.contains((seq, fingerprint)),
        decided(taken_up(p, seq, fingerprint).0, seq, fingerprint).1
            == SegmentIngestDecision::Skip,
{
    let after = taken_up(p, seq, fingerprint).0;
    assert(after.dedup.recent.last() == (seq, fingerprint));
}

/// Where the output starts anew, nothing of what came before is remembered: first nothing at all,
/// and once the segment is taken up, that segment alone.
pub proof fn law_reset_forgets_the_recent_segments(p: PullState, seq: u64, fingerprint: u64)
    requires
        p.valid(),
        decided(p, seq, fingerprint).1 == SegmentIngestDecision::ResetAndIngest,
    ensures
        decided(p, seq, fingerprint).0.dedup.recent =~= Seq::empty(),
        taken_up(p, seq, fingerprint).0.dedup.recent =~= seq![(seq, fingerprint)],
        taken_up(p, seq, fingerprint).0.seen == p.seen,
        taken_up(p, seq, fingerprint).0.last_seq == p.last_seq,
{
}

/// What a worker does next.
#[derive(Debug, Clone, Copy, PartialEq, Eq, Structural)]
pub enum WorkerAction {
    /// It was cancelled: end.
    Exit,
    /// Run a session in this mode.
    RunSession(OutputMode),
    /// Sleep so many seconds, then go on.
    Sleep(u64),
}

/// The endless pull loop of a channel: on any error sleep and retry until cancelled.
#[derive(Debug, Clone, Copy, PartialEq, Eq, Structural)]
pub struct PullWorker {
    reconnect_secs: u64,
    output_mode: OutputMode,
}

impl PullWorker {
    /// Seconds between two sessions.
    pub closed spec fn reconnect(self) -> u64 {
        self.reconnect_secs
    }

    /// The egress mode.
    pub closed spec fn mode(self) -> OutputMode {
        self.output_mode
    }

    /// There is at least a second between two sessions.
    pub open spec fn valid(self) -> bool {
        1 <= self.reconnect()
    }

    /// A worker that waits at least one second between two sessions.
    pub fn new(reconnect_secs: u64, output_mode: OutputMode) -> (worker: Self)
        ensures
            worker.valid(),
            worker.reconnect() == (if reconnect_secs == 0 {
                1
            } else {
                reconnect_secs
            }),
            worker.mode() == output_mode,
    {
        PullWorker {
            reconnect_secs: if reconnect_secs == 0 {
                1
            } else {
                reconnect_secs
            },
            output_mode,
        }
    }

    /// What is done before a session.
    pub open spec fn before(self, cancelled: bool) -> WorkerAction {
        if cancelled {
            WorkerAction::Exit
        } else {
            WorkerAction::RunSession(self.mode())
        }
    }

    /// What is done after a session, whether it failed or just ended.
    pub open spec fn after(self, cancelled: bool) -> WorkerAction {
        if cancelled {
            WorkerAction::Exit
        } else {
            WorkerAction::Sleep(self.reconnect())
        }
    }

    /// Decide whether to run a session.
    pub fn before_session(&self, cancelled: bool) -> (action: WorkerAction)
        ensures
            action == self.before(cancelled),
    {
        if cancelled {
            WorkerAction::Exit
        } else {
            WorkerAction::RunSession(self.output_mode)
        }
    }

    /// Decide what follows a session, and what is to be kept as the last error: the message of
    /// a session that failed takes the place of the one before.
    pub fn after_session(
        &self,
        cancelled: bool,
        error: Option<String>,
        last_error: Option<String>,
    ) -> (next: (WorkerAction, Option<String>))
        ensures
            next.0 == self.after(cancelled),
            next.1 == (if error is Some {
                error
            } else {
                last_error
            }),
    {
        let kept: Option<String> = match error {
            Some(message) => Some(message),
            None => last_error,
        };
        if cancelled {
            (WorkerAction::Exit, kept)
        } else {
            (WorkerAction::Sleep(self.reconnect_secs), kept)
        }
    }
}

/// A worker ends only when it is cancelled: otherwise it runs one session after the other, at
/// least a second apart.
pub proof fn law_worker_retries_until_cancelled(worker: PullWorker, cancelled: bool)
    requires
        worker.valid(),
    ensures
        worker.before(cancelled) == WorkerAction::Exit <==> cancelled,
        worker.after(cancelled) == WorkerAction::Exit <==> cancelled,
        !cancelled ==> worker.before(cancelled) == WorkerAction::RunSession(worker.mode()),
        !cancelled ==> worker.after(cancelled) == WorkerAction::Sleep(worker.reconnect()),
        worker.after(cancelled) matches WorkerAction::Sleep(secs) ==> secs >= 1,
{
}

/// A segment whose number lies above the last one, or that comes first of all, is fetched, and
/// its number is remembered. A gap is left exactly where the number skips one. Nothing starts
/// over; only a discontinuity makes the session forget the recent payloads.
pub proof fn law_next_segment_is_fetched(p: PullState, seq: u64, discontinuity: bool)
    requires
        !p.seen.contains(seq),
        p.last_seq matches Some(last) ==> last < seq,
    ensures
        ({
            let (after, plan) = planned(p, seq, discontinuity);
            &&& plan == SegmentPlan::Fetch {
                restart: false,
                gap: p.last_seq is Some && seq - p.last_seq->0 > 1,
                discontinuity,
            }
            &&& forall|n: u64| #[trigger] after.seen.contains(n) <==> p.seen.contains(n) || n == seq
            &&& after.last_seq == p.last_seq
            &&& after.dedup.capacity == p.dedup.capacity
            &&& discontinuity ==> after.dedup.recent.len() == 0
            &&& !discontinuity ==> after.dedup.recent == p.dedup.recent
        }),
{
}

/// A segment whose number was seen is passed over and changes nothing. So is one that lies up to
/// sixty-four below the last one, but its number is remembered.
pub proof fn law_seen_and_late_segments_are_passed_over(p: PullState, seq: u64, discontinuity: bool)
    ensures
        ({
            let (after, plan) = planned(p, seq, discontinuity);
            &&& p.seen.contains(seq) ==> plan is Skip && after == p
            &&& !p.seen.contains(seq) && p.last_seq is Some && 0 <= p.last_seq->0 - seq <= 64 ==> {
                &&& plan is Skip
                &&& forall|n: u64| #[trigger]
                    after.seen.contains(n) <==> p.seen.contains(n) || n == seq
                &&& after.dedup == p.dedup
                &&& after.last_seq == p.last_seq
            }
        }),
{
}

/// A segment that lies further than sixty-four below the last one starts the session over: it is
/// fetched, without a gap, and it alone is remembered.
pub proof fn law_numbering_that_starts_over_is_followed(
    p: PullState,
    seq: u64,
    last: u64,
    discontinuity: bool,
)
    requires
        !p.seen.contains(seq),
        p.last_seq == Some(last),
        seq + 64 < last,
    ensures
        ({
            let (after, plan) = planned(p, seq, discontinuity);
            &&& plan == SegmentPlan::Fetch { restart: true, gap: false, discontinuity }
            &&& forall|n: u64| #[trigger] after.seen.contains(n) <==> n == seq
            &&& after.dedup.recent.len() == 0
            &&& after.dedup.capacity == p.dedup.capacity
            &&& after.last_seq is None
        }),
{
}

/// Only a session that has seen nothing passes over segments, and only where the playlist holds
/// more than are kept: the ones before the last `keep`, which then count as seen, the last of them
/// as dealt with.
pub proof fn law_only_the_first_playlist_is_cut(
    p: PullState,
    segments: Seq<playlist::SegmentView>,
    keep: int,
    i: int,
)
    requires
        0 <= keep,
    ensures
        segments.len() <= keep ==> begun(p, segments, keep) == p,
        (exists|n: u64| #[trigger] p.seen.contains(n)) ==> begun(p, segments, keep) == p,
        begun(p, segments, keep).dedup == p.dedup,
        p.seen =~= Set::empty() && 0 <= i && i + keep < segments.len() ==> begun(
            p,
            segments,
            keep,
        ).seen.contains(segments[i].seq),
        p.seen =~= Set::empty() && 0 <= i && i + keep + 1 == segments.len() ==> begun(
            p,
            segments,
            keep,
        ).last_seq == Some(segments[i].seq),
        forall|n: u64| #[trigger]
            begun(p, segments, keep).seen.contains(n) ==> p.seen.contains(n) || exists|j: int|
                0 <= j && j + keep < segments.len() && (#[trigger] segments[j]).seq == n,
{
    let n = passed_over(segments.len() as int, keep);
    if 0 <= i && i + keep < segments.len() {
        assert(first_seqs(segments, n).contains(segments[i].seq));
    }
    assert forall|s: u64| #[trigger] begun(p, segments, keep).seen.contains(s) && !p.seen.contains(
        s,
    ) implies exists|j: int|
        0 <= j && j + keep < segments.len() && (#[trigger] segments[j]).seq == s by {
        let j = choose|j: int| 0 <= j < n && (#[trigger] segments[j]).seq == s;
        assert(0 <= j && j + keep < segments.len() && segments[j].seq == s);
    }
}

/// A payload that is news is ingested and remembered; one under a number that stood for another
/// payload starts the output anew; the rest are skipped and change nothing. Numbers and place stay
/// as they are.
pub proof fn law_payload_decides_the_ingest(p: PullState, seq: u64, fingerprint: u64)
    requires
        p.valid(),
    ensures
        ({
            let (after, decision) = decided(p, seq, fingerprint);
            let known = exists|i: int|
                0 <= i < p.dedup.recent.len() && (#[trigger] p.dedup.recent[i]).0 == seq;
            let repeated = exists|i: int|
                0 <= i < p.dedup.recent.len() && #[trigger] p.dedup.recent[i] == (seq, fingerprint);
            let replayed = exists|i: int|
                0 <= i < p.dedup.recent.len() && (#[trigger] p.dedup.recent[i]).1 == fingerprint;
            &&& after.seen == p.seen && after.last_seq == p.last_seq
            &&& decision == SegmentIngestDecision::ResetAndIngest <==> known && !repeated
            &&& decision == SegmentIngestDecision::Ingest <==> !known && !replayed
            &&& decision == SegmentIngestDecision::Skip ==> after == p
            &&& decision == SegmentIngestDecision::Ingest ==> after.dedup.recent.last() == (
                seq,
                fingerprint,
            )
            &&& decision == SegmentIngestDecision::ResetAndIngest ==> after.dedup.recent.len() == 0
            &&& after.dedup.capacity == p.dedup.capacity
        }),
{
    if p.dedup.recent.contains((seq, fingerprint)) {
        let i = choose|i: int|
            0 <= i < p.dedup.recent.len() && p.dedup.recent[i] == (seq, fingerprint);
        assert(p.dedup.recent[i].0 == seq && p.dedup.recent[i].1 == fingerprint);
    }
}

/// Taking up a segment decides as the first look at its payload does.
pub proof fn law_taking_up_keeps_the_decision(p: PullState, seq: u64, fingerprint: u64)
    ensures
        taken_up(p, seq, fingerprint).1 == decided(p, seq, fingerprint).1,
        taken_up(p, seq, fingerprint).0.seen == p.seen,
        taken_up(p, seq, fingerprint).0.last_seq == p.last_seq,
        decided(p, seq, fingerprint).1 != SegmentIngestDecision::ResetAndIngest ==> taken_up(
            p,
            seq,
            fingerprint,
        ).0 == decided(p, seq, fingerprint).0,
{
}

/// A segment that was dealt with becomes the last one, and nothing else changes: the one with the
/// next number follows without a gap.
pub proof fn law_dealt_with_segment_is_the_last(p: PullState, seq: u64, discontinuity: bool)
    requires
        seq < u64::MAX,
        !p.seen.contains((seq + 1) as u64),
    ensures
        passed(p, seq).last_seq == Some(seq),
        passed(p, seq).seen == p.seen,
        passed(p, seq).dedup == p.dedup,
        planned(passed(p, seq), (seq + 1) as u64, discontinuity).1 == (SegmentPlan::Fetch {
            restart: false,
            gap: false,
            discontinuity,
        }),
{
}

/// Numbers are forgotten only while the playlist goes on, only when more than five hundred and
/// twelve are remembered, and then exactly those further than sixty-four below the playlist.
pub proof fn law_only_old_numbers_are_forgotten(
    p: PullState,
    media_sequence: u64,
    end_list: bool,
    seq: u64,
)
    ensures
        ({
            let after = ended(p, media_sequence, end_list);
            &&& end_list || p.seen.len() <= 512 ==> after == p
            &&& !end_list && p.seen.len() > 512 ==> (after.seen.contains(seq) <==> p.seen.contains(
                seq,
            ) && seq + 64 >= media_sequence)
            &&& after.dedup == p.dedup
            &&& after.last_seq == p.last_seq
        }),
{
}

/// A new session has seen nothing and remembers up to a hundred and twenty-eight segments.
pub proof fn law_new_session_knows_nothing(seq: u64)
    ensures
        !fresh().seen.contains(seq),
        fresh().last_seq is None,
        fresh().dedup.recent.len() == 0,
        fresh().dedup.capacity == 128,
        fresh().valid(),
{
}

/// Two sessions with the same settings agree on each of them.
pub proof fn law_same_settings_agree(a: &PullSession, b: &PullSession)
    ensures
        a.same_settings(b) <==> a.keep() == b.keep() && (a.skips_missing() <==> b.skips_missing()),
{
}

} // verus!
