//! HLS segment seq + content fingerprint deduplication.
//!
//! Detects playlist rewind, duplicate payloads, and rewritten segments so
//! egress does not replay stale media.

use std::collections::hash_map::DefaultHasher;
use std::collections::VecDeque;
use std::hash::Hasher;
use vstd::prelude::*;
use vstd::std_specs::hash::DefaultHasherAdditionalSpecFns;

verus! {

/// How many bytes of a segment its fingerprint covers.
pub const FINGERPRINT_HEAD_BYTES: usize = 32768;

/// Large backward jump in MEDIA-SEQUENCE is treated as a playlist reset.
pub const SEQUENCE_RESET_THRESHOLD: u64 = 64;

/// The smallest window that is kept.
pub const MIN_CAPACITY: usize = 16;

#[derive(Debug, Clone, Copy, PartialEq, Eq, Structural)]
pub enum SeqOrderAction {
    /// `seq` advanced normally.
    Advance,
    /// `seq` moved backward within the live window — skip to avoid replay.
    SkipRewind,
    /// `seq` jumped far backward — origin likely reset MEDIA-SEQUENCE.
    SequenceReset,
}

#[derive(Debug, Clone, Copy, PartialEq, Eq, Structural)]
pub enum ContentDedupAction {
    /// Ingest this segment.
    Accept,
    /// Identical `seq` + payload already ingested.
    SkipDuplicate,
    /// Payload matches a different, older `seq` (replay).
    SkipReplay,
    /// Same `seq` arrived again with different bytes (origin rewrite).
    ResetOutput,
}

/// Rolling window of recent `(MEDIA-SEQUENCE, fingerprint)` pairs.
#[derive(Debug)]
pub struct SegmentDedup {
    recent: VecDeque<(u64, u64)>,
    capacity: usize,
}

/// What a [`SegmentDedup`] remembers.
#[verifier::ext_equal]
pub ghost struct DedupState {
    /// The pairs, the oldest first.
    pub recent: Seq<(u64, u64)>,
    /// How many pairs are kept.
    pub capacity: nat,
}

impl View for SegmentDedup {
    type V = DedupState;

    closed spec fn view(&self) -> DedupState {
        DedupState { recent: self.recent@, capacity: self.capacity as nat }
    }
}

impl DedupState {
    /// No more pairs than the capacity, and no sequence number or fingerprint twice.
    pub open spec fn valid(self) -> bool {
        &&& MIN_CAPACITY <= self.capacity
        &&& self.recent.len() <= self.capacity
        &&& forall|i: int, j: int|
            0 <= i < j < self.recent.len() ==> (#[trigger] self.recent[i]).0 != (
            #[trigger] self.recent[j]).0 && self.recent[i].1 != self.recent[j].1
    }

    /// A pair with this sequence number is remembered.
    pub open spec fn knows_seq(self, seq: u64) -> bool {
        exists|i: int| 0 <= i < self.recent.len() && (#[trigger] self.recent[i]).0 == seq
    }

    /// A pair with this fingerprint is remembered.
    pub open spec fn knows_fingerprint(self, fingerprint: u64) -> bool {
        exists|i: int| 0 <= i < self.recent.len() && (#[trigger] self.recent[i]).1 == fingerprint
    }

    /// What is done with a segment.
    pub open spec fn action(self, seq: u64, fingerprint: u64) -> ContentDedupAction {
        if self.recent.contains((seq, fingerprint)) {
            ContentDedupAction::SkipDuplicate
        } else if self.knows_seq(seq) {
            ContentDedupAction::ResetOutput
        } else if self.knows_fingerprint(fingerprint) {
            ContentDedupAction::SkipReplay
        } else {
            ContentDedupAction::Accept
        }
    }

    /// What is remembered after a segment: an accepted one is added, at the cost of the oldest
    /// where the window is full.
    pub open spec fn checked(self, seq: u64, fingerprint: u64) -> DedupState {
        if self.action(seq, fingerprint) != ContentDedupAction::Accept {
            self
        } else if self.recent.len() < self.capacity {
            DedupState { recent: self.recent.push((seq, fingerprint)), ..self }
        } else {
            DedupState { recent: self.recent.drop_first().push((seq, fingerprint)), ..self }
        }
    }
}

/// How `seq` stands to the last sequence number.
pub open spec fn seq_order(last_seq: Option<u64>, seq: u64) -> SeqOrderAction {
    match last_seq {
        Some(last) => if seq > last {
            SeqOrderAction::Advance
        } else if last - seq > SEQUENCE_RESET_THRESHOLD {
            SeqOrderAction::SequenceReset
        } else {
            SeqOrderAction::SkipRewind
        },
        None => SeqOrderAction::Advance,
    }
}

/// The bytes of a segment that its fingerprint covers.
pub open spec fn fingerprint_head(bytes: Seq<u8>) -> Seq<u8> {
    if bytes.len() <= FINGERPRINT_HEAD_BYTES {
        bytes
    } else {
        bytes.take(FINGERPRINT_HEAD_BYTES as int)
    }
}

/// The fingerprint of a segment: a hash of its length and of its first bytes.
pub open spec fn fingerprint_of(bytes: Seq<u8>) -> u64 {
    DefaultHasher::spec_finish(
        seq![
            vstd::bytes::spec_u64_to_le_bytes(bytes.len() as u64),
            vstd::bytes::spec_u64_to_le_bytes(fingerprint_head(bytes).len() as u64),
            fingerprint_head(bytes),
        ],
    )
}

fn segment_fingerprint(bytes: &[u8]) -> (fingerprint: u64)
    ensures
        fingerprint == fingerprint_of(bytes@),
{
    let mut hasher: DefaultHasher = DefaultHasher::new();
    let len: usize = bytes.len();
    let head_len: usize = if len < FINGERPRINT_HEAD_BYTES {
        len
    } else {
        FINGERPRINT_HEAD_BYTES
    };
    let head: &[u8] = &bytes[0..head_len];
    assert(head@ =~= fingerprint_head(bytes@));
    let len_bytes: Vec<u8> = vstd::bytes::u64_to_le_bytes(len as u64);
    let head_len_bytes: Vec<u8> = vstd::bytes::u64_to_le_bytes(head_len as u64);
    hasher.write(len_bytes.as_slice());
    hasher.write(head_len_bytes.as_slice());
    hasher.write(head);
    assert(hasher@ =~= seq![
        vstd::bytes::spec_u64_to_le_bytes(bytes@.len() as u64),
        vstd::bytes::spec_u64_to_le_bytes(fingerprint_head(bytes@).len() as u64),
        fingerprint_head(bytes@),
    ]);
    hasher.finish()
}

impl SegmentDedup {
    /// An empty window for `capacity` pairs, or for sixteen where that is more.
    pub fn new(capacity: usize) -> (dedup: Self)
        ensures
            dedup@.valid(),
            dedup@ == (DedupState {
                recent: Seq::empty(),
                capacity: if capacity < MIN_CAPACITY {
                    MIN_CAPACITY as nat
                } else {
                    capacity as nat
                },
            }),
    {
        SegmentDedup {
            recent: VecDeque::new(),
            capacity: if capacity < MIN_CAPACITY {
                MIN_CAPACITY
            } else {
                capacity
            },
        }
    }

    /// Forget every pair.
    pub fn clear(&mut self)
        requires
            old(self)@.valid(),
        ensures
            final(self)@.valid(),
            final(self)@ == (DedupState { recent: Seq::empty(), ..old(self)@ }),
    {
        self.recent.clear();
    }

    /// Check monotonicity before fetching segment bytes.
    pub fn check_seq_order(last_seq: Option<u64>, seq: u64) -> (action: SeqOrderAction)
        ensures
            action == seq_order(last_seq, seq),
    {
        match last_seq {
            Some(last) => {
                if seq > last {
                    SeqOrderAction::Advance
                } else if last - seq > SEQUENCE_RESET_THRESHOLD {
                    SeqOrderAction::SequenceReset
                } else {
                    SeqOrderAction::SkipRewind
                }
            },
            None => SeqOrderAction::Advance,
        }
    }

    /// Check payload fingerprint after a successful fetch.
    pub fn check_content(&mut self, _channel: &str, seq: u64, bytes: &[u8]) -> (action:
        ContentDedupAction)
        requires
            old(self)@.valid(),
        ensures
            final(self)@.valid(),
            action == old(self)@.action(seq, fingerprint_of(bytes@)),
            final(self)@ == old(self)@.checked(seq, fingerprint_of(bytes@)),
    {
        let fingerprint: u64 = segment_fingerprint(bytes);
        self.check_fingerprint(seq, fingerprint)
    }

    /// Check the fingerprint of a segment against the window.
    pub fn check_fingerprint(&mut self, seq: u64, fingerprint: u64) -> (action: ContentDedupAction)
        requires
            old(self)@.valid(),
        ensures
            final(self)@.valid(),
            action == old(self)@.action(seq, fingerprint),
            final(self)@ == old(self)@.checked(seq, fingerprint),
    {
        let ghost before = self@;
        let ghost recent = self.recent@;
        let mut same_seq: bool = false;
        let mut same_content: bool = false;
        let mut i: usize = 0;
        while i < self.recent.len()
            invariant
                i <= recent.len(),
                recent == self.recent@,
                self@ == before,
                before.valid(),
                same_seq == exists|j: int| 0 <= j < i && (#[trigger] recent[j]).0 == seq,
                same_content == exists|j: int|
                    0 <= j < i && (#[trigger] recent[j]).1 == fingerprint,
                forall|j: int| 0 <= j < i ==> #[trigger] recent[j] != (seq, fingerprint),
            decreases recent.len() - i,
        {
            let (s, fp) = self.recent[i];
            assert(recent[i as int] == (s, fp));
            if s == seq && fp == fingerprint {
                return ContentDedupAction::SkipDuplicate;
            }
            same_seq = same_seq || s == seq;
            same_content = same_content || fp == fingerprint;
            i = i + 1;
        }
        if same_seq {
            ContentDedupAction::ResetOutput
        } else if same_content {
            ContentDedupAction::SkipReplay
        } else {
            self.record(seq, fingerprint);
            ContentDedupAction::Accept
        }
    }

    fn record(&mut self, seq: u64, fingerprint: u64)
        requires
            old(self)@.valid(),
            old(self)@.action(seq, fingerprint) == ContentDedupAction::Accept,
        ensures
            final(self)@.valid(),
            final(self)@ == old(self)@.checked(seq, fingerprint),
    {
        let ghost before = self@;
        if self.recent.len() == self.capacity {
            self.recent.pop_front();
            assert(self.recent@ =~= before.recent.drop_first());
        }
        self.recent.push_back((seq, fingerprint));
    }
}

/// An accepted segment that comes again is skipped.
pub proof fn law_repeated_segment_is_skipped(dedup: DedupState, seq: u64, fingerprint: u64)
    requires
        dedup.valid(),
        dedup.action(seq, fingerprint) == ContentDedupAction::Accept,
    ensures
        dedup.checked(seq, fingerprint).action(seq, fingerprint)
            == ContentDedupAction::SkipDuplicate,
        dedup.checked(seq, fingerprint).checked(seq, fingerprint) == dedup.checked(
            seq,
            fingerprint,
        ),
{
    let after = dedup.checked(seq, fingerprint);
    assert(after.recent.last() == (seq, fingerprint));
}

/// A payload that is remembered is not accepted again under any sequence number: it is a
/// replay under one that is new, and resets the output under one that had another payload.
pub proof fn law_remembered_payload_is_never_accepted(
    dedup: DedupState,
    seq: u64,
    fingerprint: u64,
    other: u64,
)
    requires
        dedup.valid(),
        dedup.recent.contains((seq, fingerprint)),
    ensures
        dedup.action(other, fingerprint) == (if other == seq {
            ContentDedupAction::SkipDuplicate
        } else if dedup.knows_seq(other) {
            ContentDedupAction::ResetOutput
        } else {
            ContentDedupAction::SkipReplay
        }),
{
    let i = choose|i: int| 0 <= i < dedup.recent.len() && dedup.recent[i] == (seq, fingerprint);
    assert(dedup.recent[i].1 == fingerprint);
}

/// Another payload under a remembered sequence number resets the output, and once the window
/// is cleared for that, the new payload is accepted.
pub proof fn law_rewritten_segment_resets(
    dedup: DedupState,
    seq: u64,
    fingerprint: u64,
    rewritten: u64,
)
    requires
        dedup.valid(),
        dedup.recent.contains((seq, fingerprint)),
        rewritten != fingerprint,
    ensures
        dedup.action(seq, rewritten) == ContentDedupAction::ResetOutput,
        (DedupState { recent: Seq::empty(), ..dedup }).action(seq, rewritten)
            == ContentDedupAction::Accept,
{
    let i = choose|i: int| 0 <= i < dedup.recent.len() && dedup.recent[i] == (seq, fingerprint);
    assert(dedup.recent[i].0 == seq);
    if dedup.recent.contains((seq, rewritten)) {
        let j = choose|j: int| 0 <= j < dedup.recent.len() && dedup.recent[j] == (seq, rewritten);
        assert(dedup.recent[j].0 == seq);
    }
}

/// A further segment displaces at most the oldest pair, and that only where the window is full.
pub proof fn law_only_the_oldest_is_displaced(
    dedup: DedupState,
    seq: u64,
    fingerprint: u64,
    i: int,
)
    requires
        dedup.valid(),
        0 <= i < dedup.recent.len(),
        i > 0 || dedup.recent.len() < dedup.capacity,
    ensures
        dedup.checked(seq, fingerprint).recent.contains(dedup.recent[i]),
{
    let after = dedup.checked(seq, fingerprint);
    if dedup.action(seq, fingerprint) == ContentDedupAction::Accept {
        if dedup.recent.len() < dedup.capacity {
            assert(after.recent[i] == dedup.recent[i]);
        } else {
            assert(after.recent[i - 1] == dedup.recent[i]);
        }
    } else {
        assert(after.recent[i] == dedup.recent[i]);
    }
}

/// A sequence number that advances is above the last one; one that rewinds lies at most the
/// threshold below it; one that resets lies further below.
pub proof fn law_seq_order_is_a_partition(last: u64, seq: u64)
    ensures
        seq_order(Some(last), seq) == SeqOrderAction::Advance <==> last < seq,
        seq_order(Some(last), seq) == SeqOrderAction::SkipRewind <==> seq <= last <= seq
            + SEQUENCE_RESET_THRESHOLD,
        seq_order(Some(last), seq) == SeqOrderAction::SequenceReset <==> seq
            + SEQUENCE_RESET_THRESHOLD < last,
{
}

/// A segment is accepted where neither its number nor its payload is remembered, and only there. It
/// is remembered then as the newest, and nothing else changes what is remembered.
pub proof fn law_new_segment_is_accepted(dedup: DedupState, seq: u64, fingerprint: u64)
    requires
        dedup.recent.len() <= dedup.capacity,
        dedup.capacity > 0,
    ensures
        dedup.action(seq, fingerprint) == ContentDedupAction::Accept <==> forall|i: int|
            0 <= i < dedup.recent.len() ==> (#[trigger] dedup.recent[i]).0 != seq
                && dedup.recent[i].1 != fingerprint,
        ({
            let after = dedup.checked(seq, fingerprint);
            &&& after.capacity == dedup.capacity
            &&& dedup.action(seq, fingerprint) != ContentDedupAction::Accept ==> after.recent
                == dedup.recent
            &&& dedup.action(seq, fingerprint) == ContentDedupAction::Accept ==> after.recent.last()
                == (seq, fingerprint) && after.recent.len() == (if dedup.recent.len()
                < dedup.capacity {
                dedup.recent.len() + 1
            } else {
                dedup.capacity
            })
        }),
{
    if dedup.recent.contains((seq, fingerprint)) {
        let i = choose|i: int| 0 <= i < dedup.recent.len() && dedup.recent[i] == (seq, fingerprint);
        assert(dedup.recent[i].0 == seq);
    }
}

/// A payload that comes under a new number is a replay where it is remembered, whichever number it
/// had.
pub proof fn law_replayed_payload_is_skipped(dedup: DedupState, seq: u64, fingerprint: u64, i: int)
    requires
        0 <= i < dedup.recent.len(),
        dedup.recent[i].1 == fingerprint,
        forall|j: int| 0 <= j < dedup.recent.len() ==> (#[trigger] dedup.recent[j]).0 != seq,
    ensures
        dedup.action(seq, fingerprint) == ContentDedupAction::SkipReplay,
{
    if dedup.recent.contains((seq, fingerprint)) {
        let j = choose|j: int| 0 <= j < dedup.recent.len() && dedup.recent[j] == (seq, fingerprint);
        assert(dedup.recent[j].0 == seq);
    }
}

/// The first number advances, whatever it is. Up to sixty-four below the last one a number is a
/// replay, and further below the source has started over.
pub proof fn law_numbering_starts_over_far_below(last: u64, seq: u64)
    ensures
        seq_order(None, seq) == SeqOrderAction::Advance,
        seq > last ==> seq_order(Some(last), seq) == SeqOrderAction::Advance,
        seq <= last && last - seq <= 64 ==> seq_order(Some(last), seq) == SeqOrderAction::SkipRewind,
        last - seq > 64 ==> seq_order(Some(last), seq) == SeqOrderAction::SequenceReset,
{
}

/// A fingerprint covers the length of a segment and its first 32768 bytes: the hash is taken over
/// the length, the length of that part and the part itself, so segments that agree in these have the
/// same fingerprint.
pub proof fn law_fingerprint_covers_length_and_beginning(a: Seq<u8>, b: Seq<u8>)
    ensures
        a.len() <= 32768 ==> fingerprint_of(a) == DefaultHasher::spec_finish(
            seq![
                vstd::bytes::spec_u64_to_le_bytes(a.len() as u64),
                vstd::bytes::spec_u64_to_le_bytes(a.len() as u64),
                a,
            ],
        ),
        a.len() > 32768 ==> fingerprint_of(a) == DefaultHasher::spec_finish(
            seq![
                vstd::bytes::spec_u64_to_le_bytes(a.len() as u64),
                vstd::bytes::spec_u64_to_le_bytes(32768),
                a.take(32768),
            ],
        ),
        a.len() == b.len() && a.len() > 32768 && a.take(32768) == b.take(32768) ==> fingerprint_of(a)
            == fingerprint_of(b),
{
}

} // verus!
