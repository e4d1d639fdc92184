//! Per-channel segment retention watermarks for safe cache pruning.
//!
//! Egress (DASH / MPEG-TS) and ingest (packager / stitcher) share this registry
//! so janitor and sliding-window deletes never remove segments clients may read.

use crate::mpegts::stitch;
use dashmap::DashMap;
use vstd::multiset::Multiset;
use vstd::prelude::*;

verus! {

broadcast use {
    vstd::multiset::group_multiset_axioms,
    vstd::seq_lib::group_to_multiset_ensures,
};

/// What one channel's readers hold on to.
#[derive(Debug)]
pub struct ChannelRetention {
    /// Lowest segment number touched by any egress reader.
    retain_from: u64,
    /// DASH MPD `startNumber` (lowest segment advertised in the live window).
    mpd_start: u64,
    /// Active MPEG-TS client cursors (each client's current read position). A position that
    /// several clients share stands here once for each of them.
    mpegts_cursors: Vec<u64>,
}

/// What a [`ChannelRetention`] says. A watermark of zero is none.
#[verifier::ext_equal]
pub ghost struct RetentionView {
    pub retain_from: u64,
    pub mpd_start: u64,
    pub cursors: Multiset<u64>,
}

impl View for ChannelRetention {
    type V = RetentionView;

    closed spec fn view(&self) -> RetentionView {
        RetentionView {
            retain_from: self.retain_from,
            mpd_start: self.mpd_start,
            cursors: self.mpegts_cursors@.to_multiset(),
        }
    }
}

/// A channel that nobody reads.
pub open spec fn unread() -> RetentionView {
    RetentionView { retain_from: 0, mpd_start: 0, cursors: Multiset::empty() }
}

impl RetentionView {
    /// The segments that the advertised window and the clients start at.
    pub open spec fn followed(self) -> Set<u64> {
        Set::new(|n: u64| self.cursors.contains(n) || (n == self.mpd_start && n > 0))
    }

    /// The segments that some reader starts at.
    pub open spec fn in_use(self) -> Set<u64> {
        Set::new(|n: u64| self.followed().contains(n) || (n == self.retain_from && n > 0))
    }
}

/// `n` is the least number of the set; the greatest number of all where the set is empty.
pub open spec fn is_oldest(numbers: Set<u64>, n: u64) -> bool {
    &&& n == u64::MAX || numbers.contains(n)
    &&& forall|m: u64| #[trigger] numbers.contains(m) ==> n <= m
}

/// The least number of a set; the greatest number of all where the set is empty.
pub open spec fn oldest(numbers: Set<u64>) -> u64 {
    choose|n: u64| is_oldest(numbers, n)
}

proof fn lemma_oldest(numbers: Set<u64>, n: u64)
    requires
        is_oldest(numbers, n),
    ensures
        oldest(numbers) == n,
{
    let m = oldest(numbers);
    assert(is_oldest(numbers, m));
}

/// The watermark lowered to `seg_num`, or set to it where there is none.
pub open spec fn lowered(retain_from: u64, seg_num: u64) -> u64 {
    if seg_num < retain_from || retain_from == 0 {
        seg_num
    } else {
        retain_from
    }
}

/// The watermark that the advertised window and the clients leave.
pub open spec fn recomputed(r: RetentionView) -> u64 {
    if oldest(r.followed()) == u64::MAX {
        0
    } else {
        oldest(r.followed())
    }
}

impl ChannelRetention {
    fn new() -> (entry: Self)
        ensures
            entry@ == unread(),
    {
        let mpegts_cursors: Vec<u64> = Vec::new();
        assert(mpegts_cursors@.to_multiset() =~= Multiset::empty());
        ChannelRetention { retain_from: 0, mpd_start: 0, mpegts_cursors }
    }

    /// One client fewer stands at `cursor`, where one does.
    fn drop_cursor(&mut self, cursor: u64)
        ensures
            final(self)@ == without(old(self)@, cursor),
    {
        let ghost before = self.mpegts_cursors@;
        let mut i: usize = 0;
        while i < self.mpegts_cursors.len() && self.mpegts_cursors[i] != cursor
            invariant
                *self == *old(self),
                before == self.mpegts_cursors@,
                i <= before.len(),
                forall|j: int| 0 <= j < i ==> before[j] != cursor,
            decreases before.len() - i,
        {
            i = i + 1;
        }
        if i < self.mpegts_cursors.len() {
            let _gone: u64 = self.mpegts_cursors.remove(i);
        } else {
            assert(!before.contains(cursor));
            assert(before.to_multiset().count(cursor) == 0);
            assert(before.to_multiset().remove(cursor) =~= before.to_multiset());
        }
    }

    fn lower(&mut self, seg_num: u64)
        ensures
            final(self)@ == (RetentionView {
                retain_from: lowered(old(self)@.retain_from, seg_num),
                ..old(self)@
            }),
    {
        if seg_num < self.retain_from || self.retain_from == 0 {
            self.retain_from = seg_num;
        }
    }

    /// The least of the advertised start and the cursors.
    fn oldest_followed(&self) -> (n: u64)
        ensures
            is_oldest(self@.followed(), n),
    {
        let n: usize = self.mpegts_cursors.len();
        let mut min: u64 = u64::MAX;
        let mut i: usize = 0;
        while i < n
            invariant
                n == self.mpegts_cursors@.len(),
                i <= n,
                min == u64::MAX || self.mpegts_cursors@.contains(min),
                forall|j: int| 0 <= j < i ==> min <= #[trigger] self.mpegts_cursors@[j],
            decreases n - i,
        {
            if self.mpegts_cursors[i] < min {
                min = self.mpegts_cursors[i];
            }
            i = i + 1;
        }
        assert forall|m: u64| #[trigger] self@.cursors.contains(m) implies min <= m by {
            assert(self.mpegts_cursors@.contains(m));
        }
        assert(min == u64::MAX || self@.cursors.contains(min));
        if self.mpd_start > 0 && self.mpd_start < min {
            min = self.mpd_start;
        }
        min
    }

    /// The least segment that some reader starts at.
    fn oldest_in_use(&self) -> (n: u64)
        ensures
            n == oldest(self@.in_use()),
    {
        let followed: u64 = self.oldest_followed();
        let n: u64 = if self.retain_from > 0 && self.retain_from < followed {
            self.retain_from
        } else {
            followed
        };
        proof {
            lemma_oldest(self@.in_use(), n);
        }
        n
    }

    /// Take the watermark back to what the advertised window and the clients leave.
    fn recompute_retain_from(&mut self)
        ensures
            final(self)@ == (RetentionView { retain_from: recomputed(old(self)@), ..old(self)@ }),
    {
        let min: u64 = self.oldest_followed();
        proof {
            lemma_oldest(self@.followed(), min);
        }
        self.retain_from = if min == u64::MAX {
            0
        } else {
            min
        };
    }
}

/// `dashmap::DashMap`.
#[verifier::external_type_specification]
#[verifier::external_body]
#[verifier::reject_recursive_types(K)]
#[verifier::reject_recursive_types(V)]
#[verifier::reject_recursive_types(S)]
pub struct ExDashMap<K, V, S>(dashmap::DashMap<K, V, S>);

/// The entries of a `dashmap::DashMap`, each channel id with its retention.
pub uninterp spec fn recorded(map: DashMap<String, ChannelRetention>) -> Map<
    Seq<char>,
    RetentionView,
>;

/// No channel at all.
pub open spec fn nothing_recorded() -> Map<Seq<char>, RetentionView> {
    Map::empty()
}

/// `dashmap::DashMap::new` makes a map without entries.
#[verifier::external_body]
fn new_map() -> (map: DashMap<String, ChannelRetention>)
    ensures
        recorded(map) == nothing_recorded(),
{
    DashMap::new()
}

/// `dashmap::DashMap::insert` sets the entry of a key, whether or not there was one. The map is
/// held exclusively, so no other entry changes meanwhile.
#[verifier::external_body]
fn put_entry(map: &mut DashMap<String, ChannelRetention>, channel: &str, entry: ChannelRetention)
    ensures
        recorded(*final(map)) == recorded(*old(map)).insert(channel@, entry@),
{
    map.insert(channel.to_string(), entry);
}

/// `dashmap::DashMap::remove` takes the entry of a key out of the map and hands it over, where
/// there is one. The map is held exclusively, so no other entry changes meanwhile.
#[verifier::external_body]
fn take_entry(map: &mut DashMap<String, ChannelRetention>, channel: &str) -> (entry: Option<
    ChannelRetention,
>)
    ensures
        recorded(*final(map)) == recorded(*old(map)).remove(channel@),
        match entry {
            Some(e) => recorded(*old(map)).contains_key(channel@) && e@ == recorded(
                *old(map),
            )[channel@],
            None => !recorded(*old(map)).contains_key(channel@),
        },
{
    map.remove(channel).map(|found| found.1)
}

/// `dashmap::DashMap::view` applies a function to the entry of a key, where there is one: here
/// the one that finds the oldest segment in use.
#[verifier::external_body]
fn view_oldest(map: &DashMap<String, ChannelRetention>, channel: &str) -> (n: Option<u64>)
    ensures
        n == (if recorded(*map).contains_key(channel@) {
            Some(oldest(recorded(*map)[channel@].in_use()))
        } else {
            None
        }),
{
    map.view(channel, |_channel, entry| entry.oldest_in_use())
}

/// Shared retention state keyed by channel id.
pub struct RetentionRegistry {
    inner: DashMap<String, ChannelRetention>,
    grace_segments: u64,
}

impl View for RetentionRegistry {
    type V = Map<Seq<char>, RetentionView>;

    closed spec fn view(&self) -> Map<Seq<char>, RetentionView> {
        recorded(self.inner)
    }
}

/// What is recorded for a channel; nothing is like nobody reading.
pub open spec fn retention_of(
    all: Map<Seq<char>, RetentionView>,
    channel: Seq<char>,
) -> RetentionView {
    if all.contains_key(channel) {
        all[channel]
    } else {
        unread()
    }
}

/// Everything below this may be deleted: the oldest segment in use, less the grace, and one
/// where nothing is in use.
pub open spec fn prune_floor(r: RetentionView, grace: u64) -> u64 {
    let first = oldest(r.in_use());
    if first == u64::MAX || first - grace < 1 {
        1
    } else {
        (first - grace) as u64
    }
}

/// The number from which on segments are protected; none where nothing is in use.
pub open spec fn protected_floor(r: RetentionView, grace: u64) -> Option<u64> {
    if oldest(r.in_use()) == u64::MAX {
        None
    } else {
        Some(prune_floor(r, grace))
    }
}

/// The retention after `seg_num` was served.
pub open spec fn touched(r: RetentionView, seg_num: u64) -> RetentionView {
    RetentionView { retain_from: lowered(r.retain_from, seg_num), ..r }
}

/// The retention after a client came to stand at `cursor`.
pub open spec fn registered(r: RetentionView, cursor: u64) -> RetentionView {
    RetentionView {
        retain_from: lowered(r.retain_from, cursor),
        cursors: r.cursors.insert(cursor),
        ..r
    }
}

/// The retention with one client fewer at `cursor`.
pub open spec fn without(r: RetentionView, cursor: u64) -> RetentionView {
    RetentionView { cursors: r.cursors.remove(cursor), ..r }
}

/// The retention after a client left `cursor`.
pub open spec fn unregistered(r: RetentionView, cursor: u64) -> RetentionView {
    RetentionView { retain_from: recomputed(without(r, cursor)), ..without(r, cursor) }
}

impl Default for RetentionRegistry {
    fn default() -> (registry: Self)
        ensures
            registry@ == nothing_recorded(),
            registry.grace() == 0,
    {
        RetentionRegistry { inner: new_map(), grace_segments: 0 }
    }
}

impl RetentionRegistry {
    /// How many segments below the oldest in use are kept too.
    pub closed spec fn grace(self) -> u64 {
        self.grace_segments
    }

    /// A registry without channels, with a grace of at least one segment.
    pub fn new(grace_segments: u64) -> (registry: Self)
        ensures
            registry@ == nothing_recorded(),
            registry.grace() == (if grace_segments == 0 {
                1
            } else {
                grace_segments
            }),
    {
        RetentionRegistry {
            inner: new_map(),
            grace_segments: if grace_segments == 0 {
                1
            } else {
                grace_segments
            },
        }
    }

    pub fn grace_segments(&self) -> (grace: u64)
        ensures
            grace == self.grace(),
    {
        self.grace_segments
    }

    fn take_or_new(&mut self, channel: &str) -> (entry: ChannelRetention)
        ensures
            entry@ == retention_of(old(self)@, channel@),
            final(self)@ == old(self)@.remove(channel@),
            final(self).grace() == old(self).grace(),
    {
        match take_entry(&mut self.inner, channel) {
            Some(entry) => entry,
            None => ChannelRetention::new(),
        }
    }

    /// Record that egress is serving (or about to serve) `seg_num`.
    pub fn touch_seg(&mut self, channel: &str, seg_num: u64)
        ensures
            final(self)@ == old(self)@.insert(
                channel@,
                touched(retention_of(old(self)@, channel@), seg_num),
            ),
            final(self).grace() == old(self).grace(),
    {
        let mut entry: ChannelRetention = self.take_or_new(channel);
        entry.lower(seg_num);
        put_entry(&mut self.inner, channel, entry);
        assert(self@ =~= old(self)@.insert(
            channel@,
            touched(retention_of(old(self)@, channel@), seg_num),
        ));
    }

    /// Update the lowest segment number advertised in the live DASH MPD.
    pub fn set_mpd_start(&mut self, channel: &str, start: u64)
        ensures
            final(self)@ == old(self)@.insert(
                channel@,
                (RetentionView { mpd_start: start, ..retention_of(old(self)@, channel@) }),
            ),
            final(self).grace() == old(self).grace(),
    {
        let mut entry: ChannelRetention = self.take_or_new(channel);
        entry.mpd_start = start;
        put_entry(&mut self.inner, channel, entry);
        assert(self@ =~= old(self)@.insert(
            channel@,
            (RetentionView { mpd_start: start, ..retention_of(old(self)@, channel@) }),
        ));
    }

    /// Register an MPEG-TS client's cursor when it connects or advances. Other clients may stand
    /// at the same segment: each counts.
    pub fn register_mpegts_cursor(&mut self, channel: &str, cursor: u64)
        ensures
            final(self)@ == old(self)@.insert(
                channel@,
                registered(retention_of(old(self)@, channel@), cursor),
            ),
            final(self).grace() == old(self).grace(),
    {
        let mut entry: ChannelRetention = self.take_or_new(channel);
        entry.mpegts_cursors.push(cursor);
        entry.lower(cursor);
        put_entry(&mut self.inner, channel, entry);
        assert(self@ =~= old(self)@.insert(
            channel@,
            registered(retention_of(old(self)@, channel@), cursor),
        ));
    }

    /// Remove an MPEG-TS client cursor on disconnect. Clients that stand at the same segment keep
    /// theirs.
    pub fn unregister_mpegts_cursor(&mut self, channel: &str, cursor: u64)
        ensures
            final(self)@ == (if old(self)@.contains_key(channel@) {
                old(self)@.insert(channel@, unregistered(old(self)@[channel@], cursor))
            } else {
                old(self)@
            }),
            final(self).grace() == old(self).grace(),
    {
        match take_entry(&mut self.inner, channel) {
            Some(found) => {
                let mut entry: ChannelRetention = found;
                entry.drop_cursor(cursor);
                entry.recompute_retain_from();
                put_entry(&mut self.inner, channel, entry);
                assert(self@ =~= old(self)@.insert(
                    channel@,
                    unregistered(old(self)@[channel@], cursor),
                ));
            },
            None => {
                assert(self@ =~= old(self)@);
            },
        }
    }

    /// Lowest segment number that may not be deleted: everything below this is safe.
    ///
    /// Returns 1 when no retention is recorded (nothing to protect).
    pub fn safe_prune_floor(&self, channel: &str) -> (floor: u64)
        ensures
            floor == prune_floor(retention_of(self@, channel@), self.grace()),
    {
        match self.protected_from(channel) {
            Some(floor) => floor,
            None => 1,
        }
    }

    /// The number from which on segments are protected; none where nothing is in use.
    pub fn protected_from(&self, channel: &str) -> (floor: Option<u64>)
        ensures
            floor == protected_floor(retention_of(self@, channel@), self.grace()),
    {
        proof {
            lemma_unread();
        }
        match view_oldest(&self.inner, channel) {
            Some(first) => {
                if first == u64::MAX {
                    None
                } else {
                    let floor: u64 = first.saturating_sub(self.grace_segments);
                    Some(
                        if floor < 1 {
                            1
                        } else {
                            floor
                        },
                    )
                }
            },
            None => None,
        }
    }

    /// True when `seg_num` may be deleted by prune or janitor.
    pub fn may_delete_seg(&self, channel: &str, seg_num: u64) -> (may: bool)
        ensures
            may == (seg_num < prune_floor(retention_of(self@, channel@), self.grace())),
    {
        seg_num < self.safe_prune_floor(channel)
    }

    /// Clear retention for a removed channel.
    pub fn remove_channel(&mut self, channel: &str)
        ensures
            final(self)@ == old(self)@.remove(channel@),
            final(self).grace() == old(self).grace(),
    {
        let _gone: Option<ChannelRetention> = take_entry(&mut self.inner, channel);
    }
}

proof fn lemma_unread()
    ensures
        oldest(unread().in_use()) == u64::MAX,
{
    lemma_oldest(unread().in_use(), u64::MAX);
}

proof fn lemma_oldest_exists(numbers: Set<u64>, bound: nat)
    requires
        forall|m: u64| #[trigger] numbers.contains(m) ==> m >= bound,
        bound <= u64::MAX,
    ensures
        is_oldest(numbers, oldest(numbers)),
    decreases u64::MAX - bound,
{
    let n = bound as u64;
    if n == u64::MAX || numbers.contains(n) {
        assert(is_oldest(numbers, n));
    } else {
        lemma_oldest_exists(numbers, bound + 1);
    }
}

/// A segment that some reader starts at is not deleted, nor is one above it, nor are as many
/// below it as the grace says.
pub proof fn law_segments_in_use_are_kept(r: RetentionView, grace: u64, first: u64, seg_num: u64)
    requires
        r.in_use().contains(first),
        1 <= seg_num,
        first <= seg_num + grace,
    ensures
        prune_floor(r, grace) <= seg_num,
{
    lemma_oldest_exists(r.in_use(), 0);
}

/// A served segment is protected, and so is everything that was.
pub proof fn law_touching_protects(r: RetentionView, grace: u64, seg_num: u64)
    requires
        1 <= seg_num,
    ensures
        prune_floor(touched(r, seg_num), grace) <= seg_num,
        oldest(r.in_use()) != u64::MAX ==> prune_floor(touched(r, seg_num), grace) <= prune_floor(
            r,
            grace,
        ),
{
    let after = touched(r, seg_num);
    lemma_oldest_exists(r.in_use(), 0);
    lemma_oldest_exists(after.in_use(), 0);
    assert(after.in_use().contains(after.retain_from));
    if oldest(r.in_use()) != u64::MAX {
        assert(r.in_use().contains(oldest(r.in_use())));
        if !after.in_use().contains(oldest(r.in_use())) {
            assert(oldest(r.in_use()) == r.retain_from);
        }
    }
}

/// A client's cursor is in use until the client itself leaves it: nothing that happens to the
/// channel takes it away, nor does another client that leaves, be it from the same segment.
pub proof fn law_registered_cursor_is_in_use(r: RetentionView, cursor: u64, n: u64)
    ensures
        registered(r, cursor).cursors.contains(cursor),
        r.cursors.contains(cursor) ==> {
            &&& r.in_use().contains(cursor)
            &&& touched(r, n).cursors.contains(cursor)
            &&& registered(r, n).cursors.contains(cursor)
            &&& (RetentionView { mpd_start: n, ..r }).cursors.contains(cursor)
            &&& without(r, cursor).cursors.contains(n) ==> unregistered(r, n).cursors.contains(
                cursor,
            )
        },
{
}

/// When a client leaves, the other clients' cursors and the advertised window stay in use.
pub proof fn law_other_readers_stay_in_use(r: RetentionView, cursor: u64, other: u64)
    requires
        without(r, cursor).followed().contains(other),
    ensures
        unregistered(r, cursor).in_use().contains(other),
{
    let after = unregistered(r, cursor);
    assert(after.followed().contains(other));
}

/// A client that comes and leaves leaves the other clients as they were.
pub proof fn law_leaving_undoes_coming(r: RetentionView, cursor: u64)
    ensures
        unregistered(registered(r, cursor), cursor).cursors == r.cursors,
        unregistered(registered(r, cursor), cursor).mpd_start == r.mpd_start,
{
    assert(r.cursors.insert(cursor).remove(cursor) =~= r.cursors);
}

/// When the last client of a channel leaves that advertises nothing, nothing is protected.
pub proof fn law_last_client_leaves_nothing(r: RetentionView, cursor: u64, grace: u64)
    requires
        r.mpd_start == 0,
        without(r, cursor).cursors == Multiset::<u64>::empty(),
    ensures
        unregistered(r, cursor).in_use() =~= Set::empty(),
        prune_floor(unregistered(r, cursor), grace) == 1,
{
    let left = without(r, cursor);
    assert(is_oldest(left.followed(), u64::MAX));
    lemma_oldest(left.followed(), u64::MAX);
    let after = unregistered(r, cursor);
    assert(is_oldest(after.in_use(), u64::MAX));
    lemma_oldest(after.in_use(), u64::MAX);
}

/// Sliding the window of a channel never deletes a segment that some reader starts at, nor one
/// above it, nor as many below it as the grace says.
pub proof fn law_window_never_deletes_segments_in_use(
    state: stitch::StitchState,
    r: RetentionView,
    grace: u64,
    first: u64,
    number: u64,
)
    requires
        state.valid(),
        state.start <= number,
        r.in_use().contains(first),
        first < u64::MAX,
        first <= number + grace,
    ensures
        stitch::committed(state, protected_floor(r, grace)).start <= number,
{
    lemma_oldest_exists(r.in_use(), 0);
    law_segments_in_use_are_kept(r, grace, first, number);
    stitch::law_pruning_keeps_window_and_protected(state, protected_floor(r, grace), number);
}

/// What is recorded for one channel says nothing about another.
pub proof fn law_channels_are_independent(
    all: Map<Seq<char>, RetentionView>,
    channel: Seq<char>,
    other: Seq<char>,
    r: RetentionView,
)
    requires
        channel != other,
    ensures
        retention_of(all.insert(channel, r), other) == retention_of(all, other),
        retention_of(all.remove(channel), other) == retention_of(all, other),
{
}

/// `n` is where the readers begin: it is the watermark, the advertised start or some client's
/// position, and none of these lies below it.
pub open spec fn is_where_readers_begin(r: RetentionView, n: u64) -> bool {
    &&& n < u64::MAX
    &&& r.cursors.count(n) > 0 || (n > 0 && (n == r.mpd_start || n == r.retain_from))
    &&& forall|m: u64| #[trigger] r.cursors.count(m) > 0 ==> n <= m
    &&& r.mpd_start == 0 || n <= r.mpd_start
    &&& r.retain_from == 0 || n <= r.retain_from
}

/// What lies further below the first reader than the grace may be deleted, and nothing else: the
/// floor is the first reader's position less the grace, and never below one.
pub proof fn law_floor_lies_the_grace_below_the_first_reader(
    r: RetentionView,
    grace: u64,
    first: u64,
    seg_num: u64,
)
    requires
        is_where_readers_begin(r, first),
    ensures
        protected_floor(r, grace) == Some(prune_floor(r, grace)),
        seg_num < prune_floor(r, grace) <==> seg_num == 0 || seg_num + grace < first,
        prune_floor(r, grace) == 1 || prune_floor(r, grace) + grace == first,
{
    assert(r.in_use().contains(first));
    assert(is_oldest(r.in_use(), first));
    lemma_oldest(r.in_use(), first);
}

/// A channel without clients, advertised start and watermark protects nothing.
pub proof fn law_unread_channel_protects_nothing(r: RetentionView, grace: u64)
    requires
        r.retain_from == 0,
        r.mpd_start == 0,
        forall|m: u64| #[trigger] r.cursors.count(m) == 0,
    ensures
        protected_floor(r, grace) is None,
        prune_floor(r, grace) == 1,
{
    assert(is_oldest(r.in_use(), u64::MAX));
    lemma_oldest(r.in_use(), u64::MAX);
}

/// Serving a segment, and a client that comes, lower the watermark to that number and never raise
/// it, where there is one. A client that comes counts once more where it stands. Neither changes
/// anything else.
pub proof fn law_readers_lower_the_watermark(r: RetentionView, n: u64, other: u64)
    ensures
        ({
            let served = touched(r, n);
            let came = registered(r, n);
            &&& served.retain_from == came.retain_from
            &&& served.retain_from == n || served.retain_from == r.retain_from
            &&& served.retain_from <= n
            &&& r.retain_from > 0 ==> served.retain_from <= r.retain_from
            &&& r.retain_from == 0 ==> served.retain_from == n
            &&& served.mpd_start == r.mpd_start
            &&& came.mpd_start == r.mpd_start
            &&& served.cursors == r.cursors
            &&& came.cursors.count(n) == r.cursors.count(n) + 1
            &&& other != n ==> came.cursors.count(other) == r.cursors.count(other)
        }),
{
}

/// A client that leaves counts once less where it stood. The watermark is then the first of the
/// positions that are left and of the advertised start, and none where nothing is left.
pub proof fn law_leaving_client_recomputes_the_watermark(r: RetentionView, cursor: u64, other: u64)
    requires
        r.cursors.count(u64::MAX) == 0,
        r.mpd_start < u64::MAX,
    ensures
        ({
            let left = unregistered(r, cursor);
            &&& left.mpd_start == r.mpd_start
            &&& r.cursors.count(cursor) > 0 ==> left.cursors.count(cursor) == r.cursors.count(
                cursor,
            ) - 1
            &&& r.cursors.count(cursor) == 0 ==> left.cursors.count(cursor) == 0
            &&& other != cursor ==> left.cursors.count(other) == r.cursors.count(other)
            &&& left.cursors.count(other) > 0 ==> left.retain_from <= other
            &&& left.mpd_start > 0 ==> left.retain_from <= left.mpd_start
            &&& left.retain_from > 0 ==> left.cursors.count(left.retain_from) > 0
                || left.retain_from == left.mpd_start
            &&& left.retain_from == 0 && (left.mpd_start > 0 || left.cursors.count(other) > 0)
                ==> left.cursors.count(0) > 0
        }),
{
    let rest = without(r, cursor);
    lemma_oldest_exists(rest.followed(), 0);
    let first = oldest(rest.followed());
    if rest.mpd_start > 0 {
        assert(rest.followed().contains(rest.mpd_start));
    }
    if rest.cursors.count(other) > 0 {
        assert(rest.followed().contains(other));
    }
    if first == u64::MAX {
        assert(!rest.followed().contains(first));
    }
}

/// Of a channel that was never spoken of nothing is recorded; of the others, what was said.
pub proof fn law_unknown_channel_is_unread(all: Map<Seq<char>, RetentionView>, channel: Seq<char>)
    ensures
        all.contains_key(channel) ==> retention_of(all, channel) == all[channel],
        !all.contains_key(channel) ==> {
            &&& retention_of(all, channel).retain_from == 0
            &&& retention_of(all, channel).mpd_start == 0
            &&& retention_of(all, channel).cursors.len() == 0
        },
        !nothing_recorded().contains_key(channel),
{
}

} // verus!
