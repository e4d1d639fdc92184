//! Stitch HLS MPEG-TS segments into a continuous live TS cache.
//!
//! Origin `.ts` segments usually restart continuity counters each cut. A [`TsStitcher`]
//! rewrites the counters across segments and numbers the `seg_N.ts` files that the
//! `/live/<channel>/mpegts` streamer reads. It says what to write and what to delete; the
//! caller holds the directory.

use crate::double::{Double, TWO_BITS};
use crate::mpegts::continuous;
use crate::mpegts::continuous::ContinuityState;
use crate::mpegts::repair;
use crate::mpegts::repair::{align_ts_packets_truncate, prepare_ts_bytes, TsError};
use crate::number;
use crate::number::{number_text, parse_u64};
use crate::text;
use crate::text::{ends_with, same_text, starts_with, strip_prefix, strip_suffix};
use vstd::prelude::*;
use vstd::string::*;

verus! {

/// The name of a file of segment `number`.
pub open spec fn segment_name(number: u64, suffix: Seq<char>) -> Seq<char> {
    "seg_"@ + number::decimal(number as nat) + suffix
}

/// The number of the segment that a file name belongs to, among names with one suffix.
pub open spec fn segment_number(name: Seq<char>, suffix: Seq<char>) -> Option<u64> {
    let rest = name.skip("seg_"@.len() as int);
    if text::has_prefix(name, "seg_"@) && text::has_suffix(rest, suffix) {
        number::u64_of(rest.take(rest.len() - suffix.len()))
    } else {
        None
    }
}

/// A file name of a segment names that segment and no other.
pub proof fn law_segment_name_round_trip(number: u64, suffix: Seq<char>)
    ensures
        segment_number(segment_name(number, suffix), suffix) == Some(number),
{
    let name = segment_name(number, suffix);
    let digits = number::decimal(number as nat);
    let rest = name.skip("seg_"@.len() as int);
    assert(name.take("seg_"@.len() as int) =~= "seg_"@);
    assert(rest =~= digits + suffix);
    assert(rest.skip(rest.len() - suffix.len()) =~= suffix);
    assert(rest.take(rest.len() - suffix.len()) =~= digits);
    number::law_decimal_round_trip(number);
}

fn segment_file_name(number: u64, suffix: &str) -> (name: String)
    ensures
        name@ == segment_name(number, suffix@),
{
    let mut name: String = "seg_".to_owned();
    let digits: String = number_text(number);
    name.append(digits.as_str());
    name.append(suffix);
    name
}

/// The name of the media file of segment `number`.
pub fn ts_file_name(number: u64) -> (name: String)
    ensures
        name@ == segment_name(number, ".ts"@),
{
    segment_file_name(number, ".ts")
}

/// The name of the duration file of segment `number`.
pub fn dur_file_name(number: u64) -> (name: String)
    ensures
        name@ == segment_name(number, ".dur"@),
{
    segment_file_name(number, ".dur")
}

fn parse_seg_number(name: &str, suffix: &str) -> (number: Option<u64>)
    ensures
        number == segment_number(name@, suffix@),
{
    match strip_prefix(name, "seg_") {
        Some(rest) => match strip_suffix(rest, suffix) {
            Some(digits) => parse_u64(digits),
            None => None,
        },
        None => None,
    }
}

/// The number of the segment whose media file has this name.
pub fn parse_ts_seg_number(name: &str) -> (number: Option<u64>)
    ensures
        number == segment_number(name@, ".ts"@),
{
    parse_seg_number(name, ".ts")
}

/// The number of the segment whose duration file has this name.
pub fn parse_dur_seg_number(name: &str) -> (number: Option<u64>)
    ensures
        number == segment_number(name@, ".dur"@),
{
    parse_seg_number(name, ".dur")
}

/// The number of the segment whose CMAF file has this name.
pub fn parse_m4s_seg_number(name: &str) -> (number: Option<u64>)
    ensures
        number == segment_number(name@, ".m4s"@),
{
    parse_seg_number(name, ".m4s")
}

/// The greater of `next` and the number after the one that `name` names.
pub open spec fn number_after(next: u64, name: Seq<char>) -> u64 {
    match segment_number(name, ".ts"@) {
        Some(n) => if n < u64::MAX && next <= n {
            (n + 1) as u64
        } else if n == u64::MAX {
            u64::MAX
        } else {
            next
        },
        None => next,
    }
}

/// The first number above those of all segments in a directory, and at least one.
pub open spec fn next_ts_number(names: Seq<Seq<char>>) -> u64
    decreases names.len(),
{
    if names.len() == 0 {
        1
    } else {
        number_after(next_ts_number(names.drop_last()), names.last())
    }
}

/// The number to go on with in a directory that holds files of these names.
pub fn scan_next_ts_number(names: &Vec<String>) -> (next: u64)
    ensures
        next == next_ts_number(text::texts(names@)),
{
    let mut next: u64 = 1;
    let mut i: usize = 0;
    let ghost all = text::texts(names@);
    while i < names.len()
        invariant
            i <= names@.len(),
            all == text::texts(names@),
            next == next_ts_number(all.take(i as int)),
        decreases names@.len() - i,
    {
        assert(all.take(i + 1).drop_last() =~= all.take(i as int));
        assert(all.take(i + 1).last() == names@[i as int]@);
        match parse_ts_seg_number(names[i].as_str()) {
            Some(n) => {
                let after: u64 = n.saturating_add(1);
                if after > next {
                    next = after;
                }
            },
            None => {},
        }
        i = i + 1;
    }
    assert(all.take(i as int) =~= all);
    next
}

/// Numbering goes on above every segment that the directory held, unless the numbers run out.
pub proof fn law_next_number_is_fresh(names: Seq<Seq<char>>, i: int)
    requires
        0 <= i < names.len(),
        segment_number(names[i], ".ts"@) is Some,
    ensures
        segment_number(names[i], ".ts"@)->0 < next_ts_number(names) || next_ts_number(names)
            == u64::MAX,
        1 <= next_ts_number(names),
    decreases names.len(),
{
    lemma_next_number_positive(names.drop_last());
    if i < names.len() - 1 {
        assert(names.drop_last()[i] == names[i]);
        law_next_number_is_fresh(names.drop_last(), i);
    }
}

proof fn lemma_next_number_positive(names: Seq<Seq<char>>)
    ensures
        1 <= next_ts_number(names),
    decreases names.len(),
{
    if names.len() > 0 {
        lemma_next_number_positive(names.drop_last());
    }
}

/// A file that a session leaves behind: segments of either kind, an index, an init segment.
pub open spec fn is_stale_media(name: Seq<char>) -> bool {
    ||| name == "init.mp4"@
    ||| name == "index.mpd"@
    ||| text::has_prefix(name, "seg_"@) && (text::has_suffix(name, ".ts"@) || text::has_suffix(
        name,
        ".dur"@,
    ) || text::has_suffix(name, ".tmp"@) || text::has_suffix(name, ".m4s"@))
}

/// The files to delete before a session starts in a directory.
pub fn wipe_ts_media(names: &Vec<String>) -> (gone: Vec<String>)
    ensures
        text::texts(gone@) == text::texts(names@).filter(|name: Seq<char>| is_stale_media(name)),
{
    let ghost stale = |name: Seq<char>| is_stale_media(name);
    let ghost all = text::texts(names@);
    let mut gone: Vec<String> = Vec::new();
    let mut i: usize = 0;
    proof {
        reveal(Seq::filter);
        assert(text::texts(gone@) =~= all.take(0).filter(stale));
    }
    while i < names.len()
        invariant
            i <= names@.len(),
            all == text::texts(names@),
            stale == (|name: Seq<char>| is_stale_media(name)),
            text::texts(gone@) == all.take(i as int).filter(stale),
        decreases names@.len() - i,
    {
        let name: &str = names[i].as_str();
        let ghost before = gone@;
        proof {
            reveal(Seq::filter);
            assert(all.take(i + 1).drop_last() =~= all.take(i as int));
            assert(all.take(i + 1).last() == name@);
        }
        if same_text(name, "init.mp4") || same_text(name, "index.mpd") || (starts_with(
            name,
            "seg_",
        ) && (ends_with(name, ".ts") || ends_with(name, ".dur") || ends_with(name, ".tmp")
            || ends_with(name, ".m4s"))) {
            gone.push(name.to_owned());
            assert(text::texts(gone@) =~= text::texts(before).push(name@));
        }
        i = i + 1;
    }
    assert(all.take(i as int) =~= all);
    gone
}

/// One continuous segment, ready to be written as `seg_N.ts` with its duration.
#[derive(Debug)]
pub struct TsSegment {
    pub number: u64,
    pub data: Vec<u8>,
    pub duration_secs: Double,
}

/// A place in the numbering without media: only its duration is written.
#[derive(Debug, Clone, Copy, PartialEq, Eq, Structural)]
pub struct TsGap {
    pub number: u64,
    pub duration_secs: Double,
}

/// Decides the continuous MPEG-TS segments of one channel (`seg_1.ts`, …).
#[derive(Debug)]
pub struct TsStitcher {
    window_segments: usize,
    ts_resync: bool,
    continuity: ContinuityState,
    next_segment_number: u64,
    window_start: u64,
    committed_at: Option<(u64, u64)>,
}

/// What a [`TsStitcher`] knows.
#[verifier::ext_equal]
pub ghost struct StitchState {
    /// How many segments the sliding window keeps.
    pub window: nat,
    /// Repair segments instead of truncating them.
    pub resync: bool,
    /// The last continuity counter of each PID.
    pub counters: Map<u16, u8>,
    /// The number that the next segment gets.
    pub next: u64,
    /// The lowest number not deleted yet.
    pub start: u64,
    /// The number and the lowest number before the last segment was committed, as long as that
    /// can be taken back.
    pub last: Option<(u64, u64)>,
}

impl StitchState {
    /// At least one segment is kept, and what is written lies above what is deleted.
    pub open spec fn valid(self) -> bool {
        &&& 1 <= self.window
        &&& self.window + 2 <= u64::MAX
        &&& 1 <= self.start <= self.next
        &&& self.last matches Some((next, start)) ==> 1 <= start <= next
    }
}

impl View for TsStitcher {
    type V = StitchState;

    closed spec fn view(&self) -> StitchState {
        StitchState {
            window: self.window_segments as nat,
            resync: self.ts_resync,
            counters: self.continuity@,
            next: self.next_segment_number,
            start: self.window_start,
            last: self.committed_at,
        }
    }
}

/// The duration that is written for a segment: its own where it is one, two seconds otherwise.
pub open spec fn written_duration(duration_secs: Double) -> Double {
    if duration_secs.positive() {
        duration_secs
    } else {
        Double { bits: TWO_BITS }
    }
}

/// The first number that stays when the window is pruned: the window's segments and two more
/// are kept, and everything from `protected` on.
pub open spec fn pruned_until(state: StitchState, protected: Option<u64>) -> int {
    let window = state.next - state.window - 2;
    let end = match protected {
        Some(floor) => if floor < window {
            floor as int
        } else {
            window
        },
        None => window,
    };
    if end < state.start {
        state.start as int
    } else {
        end
    }
}

/// The state after a segment was written and the window pruned.
pub open spec fn committed(state: StitchState, protected: Option<u64>) -> StitchState {
    let advanced = StitchState {
        next: if state.next < u64::MAX {
            (state.next + 1) as u64
        } else {
            u64::MAX
        },
        last: Some((state.next, state.start)),
        ..state
    };
    StitchState { start: pruned_until(advanced, protected) as u64, ..advanced }
}

/// The state where the last segment was not written after all: its number is free again, and
/// nothing was deleted.
pub open spec fn taken_back(state: StitchState) -> StitchState {
    match state.last {
        Some((next, start)) => StitchState { next, start, last: None, ..state },
        None => state,
    }
}

impl TsStitcher {
    /// Resume numbering in a directory that holds files of these names (fresh session).
    pub fn resume(names: &Vec<String>, window_segments: usize, ts_resync: bool) -> (stitcher: Self)
        requires
            window_segments + 2 <= u64::MAX,
        ensures
            stitcher@.valid(),
            stitcher@ == (StitchState {
                window: if window_segments == 0 {
                    1
                } else {
                    window_segments as nat
                },
                resync: ts_resync,
                counters: Map::empty(),
                next: next_ts_number(text::texts(names@)),
                start: next_ts_number(text::texts(names@)),
                last: None,
            }),
    {
        let next: u64 = scan_next_ts_number(names);
        proof {
            lemma_next_number_positive(text::texts(names@));
        }
        TsStitcher {
            window_segments: if window_segments == 0 {
                1
            } else {
                window_segments
            },
            ts_resync,
            continuity: ContinuityState::new(),
            next_segment_number: next,
            window_start: next,
            committed_at: None,
        }
    }

    /// Forget continuity and the window (HLS discontinuity / reconnect); the numbering goes on.
    pub fn prepare_for_reconnect(&mut self)
        requires
            old(self)@.valid(),
        ensures
            final(self)@.valid(),
            final(self)@ == (StitchState {
                counters: Map::empty(),
                start: old(self)@.next,
                last: None,
                ..old(self)@
            }),
    {
        self.continuity = ContinuityState::new();
        self.window_start = self.next_segment_number;
        self.committed_at = None;
    }

    /// Ingest one HLS `.ts` segment: cut out its packets and rewrite their counters.
    ///
    /// The segment takes its number when it is written, with [`TsStitcher::commit_segment`].
    pub fn push_segment(&mut self, raw: &[u8], duration_secs: Double) -> (result: Result<
        TsSegment,
        TsError,
    >)
        requires
            old(self)@.valid(),
        ensures
            final(self)@.valid(),
            match repair::prepared(raw@, old(self)@.resync) {
                Ok(ts) => {
                    &&& result matches Ok(segment)
                    &&& segment.number == old(self)@.next
                    &&& segment.duration_secs == written_duration(duration_secs)
                    &&& continuous::is_rewrite(old(self)@.counters, ts, segment.data@)
                    &&& final(self)@ == (StitchState {
                        counters: continuous::counters_after(
                            old(self)@.counters,
                            ts,
                            repair::slots(ts),
                        ),
                        ..old(self)@
                    })
                },
                Err(e) => result == Err::<TsSegment, TsError>(e) && final(self)@ == old(self)@,
            },
    {
        match prepare_ts_bytes(raw, self.ts_resync) {
            Ok(prepared) => {
                let mut data: Vec<u8> = prepared;
                proof {
                    if self.ts_resync {
                        repair::law_repaired_is_packet_run(raw@);
                    } else {
                        repair::law_aligned_is_packet_run(raw@);
                    }
                }
                self.continuity.rewrite(data.as_mut_slice());
                Ok(
                    TsSegment {
                        number: self.next_segment_number,
                        data,
                        duration_secs: duration_secs.positive_or(Double { bits: TWO_BITS }),
                    },
                )
            },
            Err(e) => Err(e),
        }
    }

    /// Leave a gap of the given duration in place of a segment that could not be had.
    ///
    /// The gap takes its number when its duration is written, with
    /// [`TsStitcher::commit_segment`].
    pub fn skip_segment(&self, duration_secs: Double) -> (gap: TsGap)
        ensures
            gap == (TsGap {
                number: self@.next,
                duration_secs: written_duration(duration_secs),
            }),
    {
        TsGap {
            number: self.next_segment_number,
            duration_secs: duration_secs.positive_or(Double { bits: TWO_BITS }),
        }
    }

    /// Advance past the segment just written, and slide the window.
    ///
    /// Segments from `protected` on are still read by some client and stay. The result lists
    /// the segments to delete.
    pub fn commit_segment(&mut self, protected: Option<u64>) -> (pruned: Vec<u64>)
        requires
            old(self)@.valid(),
        ensures
            final(self)@.valid(),
            final(self)@ == committed(old(self)@, protected),
            pruned@ == Seq::new(
                (final(self)@.start - old(self)@.start) as nat,
                |i: int| (old(self)@.start + i) as u64,
            ),
    {
        self.committed_at = Some((self.next_segment_number, self.window_start));
        self.next_segment_number = self.next_segment_number.saturating_add(1);
        self.prune_window(protected)
    }

    /// Take the last commit back: the segment could not be written, so its number is free again,
    /// and none of the segments listed then was deleted.
    pub fn take_back(&mut self)
        requires
            old(self)@.valid(),
        ensures
            final(self)@.valid(),
            final(self)@ == taken_back(old(self)@),
    {
        if let Some((next, start)) = self.committed_at {
            self.next_segment_number = next;
            self.window_start = start;
            self.committed_at = None;
        }
    }

    fn prune_window(&mut self, protected: Option<u64>) -> (pruned: Vec<u64>)
        requires
            old(self)@.valid(),
        ensures
            final(self)@.valid(),
            final(self)@ == (StitchState {
                start: pruned_until(old(self)@, protected) as u64,
                ..old(self)@
            }),
            pruned@ == Seq::new(
                (final(self)@.start - old(self)@.start) as nat,
                |i: int| (old(self)@.start + i) as u64,
            ),
    {
        let ghost before = self@;
        let keep: u64 = self.window_segments as u64;
        let mut pruned: Vec<u64> = Vec::new();
        let mut start: u64 = self.window_start;
        let next: u64 = self.next_segment_number;
        let floor: u64 = match protected {
            Some(number) => number,
            None => u64::MAX,
        };
        while next - start > keep + 2 && start < floor
            invariant
                floor == (match protected {
                    Some(number) => number,
                    None => u64::MAX,
                }),
                before.valid(),
                before.next == next,
                before.window == keep,
                before.start <= start <= pruned_until(before, protected),
                start <= next,
                pruned@ == Seq::new(
                    (start - before.start) as nat,
                    |i: int| (before.start + i) as u64,
                ),
            decreases next - start,
        {
            pruned.push(start);
            start = start + 1;
            assert(pruned@ =~= Seq::new(
                (start - before.start) as nat,
                |i: int| (before.start + i) as u64,
            ));
        }
        self.window_start = start;
        pruned
    }
}

/// Find the packets of a segment, up to the first that is out of sync.
pub fn align_ts_packets(raw: &[u8]) -> (result: Result<Vec<u8>, TsError>)
    ensures
        repair::alignment(result) == repair::aligned(raw@),
{
    align_ts_packets_truncate(raw)
}

/// Sliding the window deletes neither a protected segment nor one of the newest: the window's
/// segments and two more stay.
pub proof fn law_pruning_keeps_window_and_protected(
    state: StitchState,
    protected: Option<u64>,
    number: u64,
)
    requires
        state.valid(),
        state.start <= number,
        number >= committed(state, protected).next - state.window - 2 || (protected matches Some(
            floor,
        ) && number >= floor),
    ensures
        committed(state, protected).start <= number,
{
}

/// A segment that could not be written uses no number: taking it back undoes the commit, up to
/// the continuity counters, which stay as they were rewritten.
pub proof fn law_taken_back_commit_leaves_no_trace(state: StitchState, protected: Option<u64>)
    requires
        state.valid(),
    ensures
        taken_back(committed(state, protected)) == (StitchState { last: None, ..state }),
        taken_back(committed(state, protected)).valid(),
{
}

/// Without protected segments the directory never holds more than the window and two more.
pub proof fn law_window_is_bounded(state: StitchState)
    requires
        state.valid(),
    ensures
        committed(state, None).next - committed(state, None).start <= state.window + 2,
{
}

/// A segment takes the next number and the numbering goes on with the one after it, up to the last.
/// The settings and the counters stay.
pub proof fn law_commit_advances_by_one(state: StitchState, protected: Option<u64>)
    ensures
        ({
            let after = committed(state, protected);
            &&& state.next < u64::MAX ==> after.next == state.next + 1
            &&& state.next == u64::MAX ==> after.next == u64::MAX
            &&& after.window == state.window
            &&& after.resync == state.resync
            &&& after.counters == state.counters
        }),
{
}

/// The window slides as far as it may: what stays is the window and two more segments, and what is
/// protected, and nothing below that stays unless it was deleted already.
pub proof fn law_window_slides_as_far_as_it_may(state: StitchState, protected: Option<u64>)
    requires
        state.valid(),
        state.next < u64::MAX,
    ensures
        ({
            let start = committed(state, protected).start;
            let wanted = state.next + 1 - state.window - 2;
            &&& start >= state.start
            &&& start > state.start ==> start <= wanted
            &&& start > state.start && protected is Some ==> start <= protected->0
            &&& start >= wanted || (protected is Some && start >= protected->0)
        }),
{
}

/// The files of a session that a wipe deletes: its segments of either kind with their durations and
/// unfinished writes, the index and the init segment. Files of other names stay.
pub proof fn law_wipe_deletes_the_media(number: u64, name: Seq<char>)
    ensures
        is_stale_media("seg_"@ + number::decimal(number as nat) + ".ts"@),
        is_stale_media("seg_"@ + number::decimal(number as nat) + ".dur"@),
        is_stale_media("seg_"@ + number::decimal(number as nat) + ".tmp"@),
        is_stale_media("seg_"@ + number::decimal(number as nat) + ".m4s"@),
        is_stale_media("init.mp4"@),
        is_stale_media("index.mpd"@),
        is_stale_media(name) ==> name == "init.mp4"@ || name == "index.mpd"@ || text::has_prefix(
            name,
            "seg_"@,
        ),
{
    lemma_segment_file_is_stale(number, ".ts"@);
    lemma_segment_file_is_stale(number, ".dur"@);
    lemma_segment_file_is_stale(number, ".tmp"@);
    lemma_segment_file_is_stale(number, ".m4s"@);
}

proof fn lemma_segment_file_is_stale(number: u64, suffix: Seq<char>)
    ensures
        text::has_prefix("seg_"@ + number::decimal(number as nat) + suffix, "seg_"@),
        text::has_suffix("seg_"@ + number::decimal(number as nat) + suffix, suffix),
{
    let digits = number::decimal(number as nat);
    let name = "seg_"@ + digits + suffix;
    assert(name =~= "seg_"@ + (digits + suffix));
    text::law_prefix_and_suffix_are_the_ends(name, "seg_"@, digits + suffix);
    text::law_prefix_and_suffix_are_the_ends(name, suffix, "seg_"@ + digits);
}

/// A segment's files are named `seg_`, its number in decimal and the suffix.
pub proof fn law_segment_files_are_named_by_number(number: u64, suffix: Seq<char>)
    ensures
        segment_name(number, suffix) == "seg_"@ + number::decimal(number as nat) + suffix,
{
}

/// Some name of the directory has the number before `next`; the greatest number has none behind
/// it and stands for itself.
pub open spec fn is_behind_a_segment(names: Seq<Seq<char>>, next: u64) -> bool {
    exists|i: int|
        0 <= i < names.len() && match segment_number(#[trigger] names[i], ".ts"@) {
            Some(n) => n + 1 == next || (n == u64::MAX && next == u64::MAX),
            None => false,
        }
}

/// Numbering goes on at one more than a number in the directory, and at one where there is none to
/// go on behind.
pub proof fn law_numbering_goes_on_above_the_highest(names: Seq<Seq<char>>)
    ensures
        next_ts_number(names) == 1 || is_behind_a_segment(names, next_ts_number(names)),
    decreases names.len(),
{
    if names.len() > 0 {
        let before = names.drop_last();
        let next = next_ts_number(names);
        law_numbering_goes_on_above_the_highest(before);
        if next == next_ts_number(before) && next != 1 {
            let i = choose|i: int|
                0 <= i < before.len() && match segment_number(#[trigger] before[i], ".ts"@) {
                    Some(n) => n + 1 == next || (n == u64::MAX && next == u64::MAX),
                    None => false,
                };
            assert(names[i] == before[i]);
        } else {
            assert(names[names.len() - 1] == names.last());
        }
    }
}

/// Only a name that is `seg_`, a number and the suffix has a number, and then that one.
pub proof fn law_other_names_have_no_number(name: Seq<char>, suffix: Seq<char>)
    ensures
        segment_number(name, suffix) matches Some(n) ==> {
            let middle = name.subrange(4, name.len() - suffix.len());
            &&& name.len() >= 4 + suffix.len()
            &&& name[0] == 's' && name[1] == 'e' && name[2] == 'g' && name[3] == '_'
            &&& name.skip(name.len() - suffix.len()) == suffix
            &&& number::u64_of(middle) == Some(n)
        },
{
    reveal_strlit("seg_");
    if segment_number(name, suffix) is Some {
        let rest = name.skip(4);
        let head = name.take(4);
        assert(head[0] == 's' && head[1] == 'e' && head[2] == 'g' && head[3] == '_');
        assert(rest.take(rest.len() - suffix.len()) =~= name.subrange(
            4,
            name.len() - suffix.len(),
        ));
        assert(name.skip(name.len() - suffix.len()) =~= rest.skip(rest.len() - suffix.len()));
    }
}

} // verus!
