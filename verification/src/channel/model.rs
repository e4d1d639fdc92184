//! What the channel registry says of its channels, and what every change makes of them.

use crate::config;
use crate::config::{OutputMode, PullSource};
use crate::hls::playlist;
use crate::text;
use vstd::prelude::*;
use vstd::string::*;

verus! {

/// API / status view of one channel.
#[derive(Debug, Clone)]
pub struct ChannelStatus {
    pub id: String,
    pub hls_url: String,
    pub enabled: bool,
    pub running: bool,
    pub mpd: String,
    pub last_error: Option<String>,
}

/// What a [`ChannelStatus`] says.
pub ghost struct StatusView {
    pub id: Seq<char>,
    pub hls_url: Seq<char>,
    pub enabled: bool,
    pub running: bool,
    pub mpd: Seq<char>,
    pub last_error: Option<Seq<char>>,
}

impl View for ChannelStatus {
    type V = StatusView;

    open spec fn view(&self) -> StatusView {
        StatusView {
            id: self.id@,
            hls_url: self.hls_url@,
            enabled: self.enabled,
            running: self.running,
            mpd: self.mpd@,
            last_error: playlist::option_text(self.last_error),
        }
    }
}

/// The pull worker of a channel.
#[derive(Debug, Clone, Copy, PartialEq, Eq, Structural)]
pub enum WorkerState {
    /// None was started, or it was stopped.
    Absent,
    Running,
    /// It ended by itself.
    Finished,
}

/// What is known of one channel.
pub ghost struct ChannelView {
    pub hls_url: Seq<char>,
    pub enabled: bool,
    pub worker: WorkerState,
    pub last_error: Option<Seq<char>>,
}

impl ChannelView {
    /// A channel has a worker while it is enabled, and its source is an HTTP URL.
    pub open spec fn valid(self) -> bool {
        &&& self.enabled == (self.worker != WorkerState::Absent)
        &&& playlist::is_http(self.hls_url)
    }
}

/// What the caller does with a worker.
#[derive(Debug)]
pub enum WorkerStep {
    /// Cancel the worker of channel `id` and wait for its end.
    Stop { id: String },
    /// Start a worker that pulls `hls_url` for channel `id`.
    Spawn { id: String, hls_url: String },
}

/// What a [`WorkerStep`] says.
pub ghost enum StepView {
    Stop { id: Seq<char> },
    Spawn { id: Seq<char>, hls_url: Seq<char> },
}

impl View for WorkerStep {
    type V = StepView;

    open spec fn view(&self) -> StepView {
        match self {
            WorkerStep::Stop { id } => StepView::Stop { id: id@ },
            WorkerStep::Spawn { id, hls_url } => StepView::Spawn { id: id@, hls_url: hls_url@ },
        }
    }
}

/// The views of a list of steps.
pub open spec fn step_views(steps: Seq<WorkerStep>) -> Seq<StepView> {
    steps.map_values(|step: WorkerStep| step@)
}

/// Why a change is refused.
#[derive(Debug, Clone, Copy, PartialEq, Eq, Structural)]
pub enum RegistryError {
    InvalidId,
    InvalidUrl,
    AlreadyExists,
    NotFound,
}

/// The message for a refusal of a change to channel `id`.
pub open spec fn registry_error_text(e: RegistryError, id: Seq<char>) -> Seq<char> {
    match e {
        RegistryError::InvalidId => "invalid channel id"@,
        RegistryError::InvalidUrl => "hls_url must be http(s)://"@,
        RegistryError::AlreadyExists => "channel already exists: "@ + id,
        RegistryError::NotFound => "channel not found: "@ + id,
    }
}

impl RegistryError {
    /// The message for the refusal of a change to channel `id`.
    pub fn message(self, id: &str) -> (message: String)
        ensures
            message@ == registry_error_text(self, id@),
    {
        match self {
            RegistryError::InvalidId => "invalid channel id".to_owned(),
            RegistryError::InvalidUrl => "hls_url must be http(s)://".to_owned(),
            RegistryError::AlreadyExists => {
                let mut message: String = "channel already exists: ".to_owned();
                message.append(id);
                message
            },
            RegistryError::NotFound => {
                let mut message: String = "channel not found: ".to_owned();
                message.append(id);
                message
            },
        }
    }
}

/// The channels by id.
pub type Channels = Map<Seq<char>, ChannelView>;

/// `ids` lists the ids of the channels in ascending order.
pub open spec fn is_listing(ids: Seq<Seq<char>>, channels: Channels) -> bool {
    &&& text::strictly_sorted(ids)
    &&& forall|id: Seq<char>| ids.contains(id) <==> #[trigger] channels.contains_key(id)
}

/// The ids of the channels in ascending order.
pub open spec fn listing(channels: Channels) -> Seq<Seq<char>> {
    choose|ids: Seq<Seq<char>>| is_listing(ids, channels)
}

/// The DASH manifest of a channel.
pub open spec fn mpd_path(id: Seq<char>) -> Seq<char> {
    "/live/"@ + id + "/index.mpd"@
}

/// Where a channel is played.
pub open spec fn play_path(mode: OutputMode, id: Seq<char>) -> Seq<char> {
    match mode {
        OutputMode::Dash => mpd_path(id),
        OutputMode::Mpegts => "/live/"@ + id + "/mpegts"@,
    }
}

/// The status of a channel.
pub open spec fn status_view(id: Seq<char>, c: ChannelView) -> StatusView {
    StatusView {
        id,
        hls_url: c.hls_url,
        enabled: c.enabled,
        running: c.worker == WorkerState::Running,
        mpd: mpd_path(id),
        last_error: c.last_error,
    }
}

/// The channel is enabled and its worker runs.
pub open spec fn is_active(c: ChannelView) -> bool {
    c.enabled && c.worker == WorkerState::Running
}

/// A new channel.
pub open spec fn added(hls_url: Seq<char>, enabled: bool) -> ChannelView {
    ChannelView {
        hls_url,
        enabled,
        worker: if enabled {
            WorkerState::Running
        } else {
            WorkerState::Absent
        },
        last_error: None,
    }
}

/// The steps for a new channel.
pub open spec fn add_steps(id: Seq<char>, hls_url: Seq<char>, enabled: bool) -> Seq<StepView> {
    if enabled {
        seq![StepView::Spawn { id, hls_url }]
    } else {
        seq![]
    }
}

/// A channel after its source was set.
pub open spec fn with_url(c: ChannelView, hls_url: Option<Seq<char>>) -> ChannelView {
    match hls_url {
        Some(url) => ChannelView {
            hls_url: url,
            worker: if url != c.hls_url && c.enabled {
                WorkerState::Running
            } else {
                c.worker
            },
            ..c
        },
        None => c,
    }
}

/// The steps for a new source: the worker of an enabled channel starts over.
pub open spec fn url_steps(id: Seq<char>, c: ChannelView, hls_url: Option<Seq<char>>) -> Seq<
    StepView,
> {
    match hls_url {
        Some(url) => if url != c.hls_url && c.enabled {
            seq![StepView::Stop { id }, StepView::Spawn { id, hls_url: url }]
        } else {
            seq![]
        },
        None => seq![],
    }
}

/// A channel after it was switched.
pub open spec fn switched(c: ChannelView, enabled: Option<bool>) -> ChannelView {
    match enabled {
        Some(want) => if want && !c.enabled {
            ChannelView { enabled: true, worker: WorkerState::Running, ..c }
        } else if !want && c.enabled {
            ChannelView { enabled: false, worker: WorkerState::Absent, ..c }
        } else {
            c
        },
        None => c,
    }
}

/// The steps for switching a channel.
pub open spec fn switch_steps(id: Seq<char>, c: ChannelView, enabled: Option<bool>) -> Seq<
    StepView,
> {
    match enabled {
        Some(want) => if want && !c.enabled && c.worker != WorkerState::Running {
            seq![StepView::Spawn { id, hls_url: c.hls_url }]
        } else if !want && c.enabled {
            seq![StepView::Stop { id }]
        } else {
            seq![]
        },
        None => seq![],
    }
}

/// A channel after an update.
pub open spec fn updated(
    c: ChannelView,
    hls_url: Option<Seq<char>>,
    enabled: Option<bool>,
) -> ChannelView {
    switched(with_url(c, hls_url), enabled)
}

/// The steps for an update: first those for the source, then those for the switch.
pub open spec fn update_steps(
    id: Seq<char>,
    c: ChannelView,
    hls_url: Option<Seq<char>>,
    enabled: Option<bool>,
) -> Seq<StepView> {
    url_steps(id, c, hls_url) + switch_steps(id, with_url(c, hls_url), enabled)
}

/// Every channel switched.
pub open spec fn all_switched(channels: Channels, want: bool) -> Channels {
    channels.map_values(|c: ChannelView| switched(c, Some(want)))
}

/// The steps for switching the channels of a list, one after the other.
pub open spec fn batch_steps(ids: Seq<Seq<char>>, channels: Channels, want: bool) -> Seq<StepView>
    decreases ids.len(),
{
    if ids.len() == 0 {
        seq![]
    } else {
        batch_steps(ids.drop_last(), channels, want) + switch_steps(
            ids.last(),
            channels[ids.last()],
            Some(want),
        )
    }
}

/// Why a channel is not added.
pub open spec fn add_error(channels: Channels, id: Seq<char>, hls_url: Seq<char>) -> Option<
    RegistryError,
> {
    if !config::is_channel_id(id) {
        Some(RegistryError::InvalidId)
    } else if !playlist::is_http(hls_url) {
        Some(RegistryError::InvalidUrl)
    } else if channels.contains_key(id) {
        Some(RegistryError::AlreadyExists)
    } else {
        None
    }
}

/// Why a channel is not updated.
pub open spec fn update_error(
    channels: Channels,
    id: Seq<char>,
    hls_url: Option<Seq<char>>,
) -> Option<RegistryError> {
    if !channels.contains_key(id) {
        Some(RegistryError::NotFound)
    } else if hls_url matches Some(url) && !playlist::is_http(url) {
        Some(RegistryError::InvalidUrl)
    } else {
        None
    }
}

/// The channels and the steps after the first `n` sources of a list were added; the first
/// source that is refused ends it.
pub open spec fn seeded(channels: Channels, pull: Seq<PullSource>, n: int) -> (
    Channels,
    Seq<StepView>,
    Option<RegistryError>,
)
    decreases n,
{
    if n <= 0 {
        (channels, seq![], None)
    } else {
        let (before, steps, error) = seeded(channels, pull, n - 1);
        let src = pull[n - 1];
        if error is Some {
            (before, steps, error)
        } else if add_error(before, src.channel@, src.url@) is Some {
            (before, steps, add_error(before, src.channel@, src.url@))
        } else {
            (
                before.insert(src.channel@, added(src.url@, src.enable)),
                steps + add_steps(src.channel@, src.url@, src.enable),
                None,
            )
        }
    }
}

/// A list is not gone on with after the first refusal.
pub proof fn lemma_seeded_stops(channels: Channels, pull: Seq<PullSource>, n: int, len: int)
    requires
        0 <= n <= len,
        seeded(channels, pull, n).2 is Some,
    ensures
        seeded(channels, pull, len) == seeded(channels, pull, n),
    decreases len,
{
    if n < len {
        lemma_seeded_stops(channels, pull, n, len - 1);
    }
}

/// The statuses of the channels of a list.
pub open spec fn status_views(ids: Seq<Seq<char>>, channels: Channels) -> Seq<StatusView> {
    ids.map_values(|id: Seq<char>| status_view(id, channels[id]))
}

/// The active channels of a list, with the paths where they are played.
pub open spec fn active_paths(ids: Seq<Seq<char>>, channels: Channels, mode: OutputMode) -> Seq<
    (Seq<char>, Seq<char>),
>
    decreases ids.len(),
{
    if ids.len() == 0 {
        seq![]
    } else {
        let before = active_paths(ids.drop_last(), channels, mode);
        if is_active(channels[ids.last()]) {
            before.push((ids.last(), play_path(mode, ids.last())))
        } else {
            before
        }
    }
}

/// How many channels of a list have a worker that runs.
pub open spec fn running_count(ids: Seq<Seq<char>>, channels: Channels) -> nat
    decreases ids.len(),
{
    if ids.len() == 0 {
        0
    } else {
        running_count(ids.drop_last(), channels) + if channels[ids.last()].worker
            == WorkerState::Running {
            1nat
        } else {
            0
        }
    }
}

/// The views of a list of pairs of texts.
pub open spec fn pair_views(pairs: Seq<(String, String)>) -> Seq<(Seq<char>, Seq<char>)> {
    pairs.map_values(|pair: (String, String)| (pair.0@, pair.1@))
}

/// A channel that is added can be removed again, which leaves the registry as it was.
pub proof fn law_add_then_remove_restores(
    channels: Channels,
    id: Seq<char>,
    hls_url: Seq<char>,
    enabled: bool,
)
    requires
        add_error(channels, id, hls_url) is None,
    ensures
        channels.insert(id, added(hls_url, enabled)).remove(id) == channels,
{
    assert(channels.insert(id, added(hls_url, enabled)).remove(id) =~= channels);
}

/// The worker of a channel after some steps for it: the last one decides.
pub open spec fn worker_after(worker: WorkerState, steps: Seq<StepView>) -> WorkerState
    decreases steps.len(),
{
    if steps.len() == 0 {
        worker
    } else {
        match steps.last() {
            StepView::Stop { id } => WorkerState::Absent,
            StepView::Spawn { id, hls_url } => WorkerState::Running,
        }
    }
}

/// A caller that carries out the steps of an update has the worker that the registry says; a
/// worker that is started pulls the channel's source.
pub proof fn law_update_steps_match_the_state(
    id: Seq<char>,
    c: ChannelView,
    hls_url: Option<Seq<char>>,
    enabled: Option<bool>,
)
    requires
        c.valid(),
    ensures
        worker_after(c.worker, update_steps(id, c, hls_url, enabled)) == updated(
            c,
            hls_url,
            enabled,
        ).worker,
        update_steps(id, c, hls_url, enabled).len() > 0 && update_steps(
            id,
            c,
            hls_url,
            enabled,
        ).last() is Spawn ==> update_steps(id, c, hls_url, enabled).last() == (StepView::Spawn {
            id,
            hls_url: updated(c, hls_url, enabled).hls_url,
        }),
{
    let first = url_steps(id, c, hls_url);
    let second = switch_steps(id, with_url(c, hls_url), enabled);
    if second.len() > 0 {
        assert((first + second).last() == second.last());
    } else {
        assert(first + second =~= first);
    }
}

/// Switching all channels sets each to the wanted state, and doing so again changes nothing.
pub proof fn law_switching_all_is_idempotent(channels: Channels, want: bool, id: Seq<char>)
    requires
        channels.contains_key(id),
        channels[id].valid(),
    ensures
        all_switched(channels, want)[id].enabled == want,
        all_switched(all_switched(channels, want), want)[id] == all_switched(channels, want)[id],
        switch_steps(id, all_switched(channels, want)[id], Some(want)).len() == 0,
{
}

/// After every channel was disabled no worker runs.
pub proof fn law_disabled_channels_do_not_run(channels: Channels, id: Seq<char>)
    requires
        channels.contains_key(id),
        channels[id].valid(),
    ensures
        all_switched(channels, false)[id].worker == WorkerState::Absent,
{
}

/// A new channel has the given source, is switched as given, has had no error, and its worker is
/// started, from that source, exactly where it is enabled.
pub proof fn law_new_channel_is_as_given(id: Seq<char>, hls_url: Seq<char>, enabled: bool)
    ensures
        added(hls_url, enabled).hls_url == hls_url,
        added(hls_url, enabled).enabled == enabled,
        added(hls_url, enabled).last_error is None,
        added(hls_url, enabled).worker is Running <==> enabled,
        added(hls_url, enabled).worker is Absent <==> !enabled,
        add_steps(id, hls_url, enabled).len() == (if enabled {
            1int
        } else {
            0
        }),
        enabled ==> add_steps(id, hls_url, enabled)[0] == (StepView::Spawn { id, hls_url }),
{
}

/// A channel is added where its id is safe and new and its source an HTTP URL. Otherwise the
/// refusal names what is wrong: the id before the source, and the source before the channel that
/// is there already.
pub proof fn law_channel_is_added_where_it_is_sound(
    channels: Channels,
    id: Seq<char>,
    hls_url: Seq<char>,
)
    ensures
        add_error(channels, id, hls_url) is None <==> config::is_channel_id(id)
            && playlist::is_http(hls_url) && !channels.contains_key(id),
        add_error(channels, id, hls_url) == Some(RegistryError::InvalidId)
            <==> !config::is_channel_id(id),
        add_error(channels, id, hls_url) == Some(RegistryError::InvalidUrl)
            <==> config::is_channel_id(id) && !playlist::is_http(hls_url),
        add_error(channels, id, hls_url) == Some(RegistryError::AlreadyExists)
            <==> config::is_channel_id(id) && playlist::is_http(hls_url) && channels.contains_key(
            id,
        ),
{
}

/// A channel is updated where it is there and its new source, if one is given, is an HTTP URL.
pub proof fn law_channel_is_updated_where_it_is_there(
    channels: Channels,
    id: Seq<char>,
    hls_url: Option<Seq<char>>,
)
    ensures
        update_error(channels, id, hls_url) is None <==> channels.contains_key(id) && (
        hls_url is None || playlist::is_http(hls_url->0)),
        update_error(channels, id, hls_url) == Some(RegistryError::NotFound)
            <==> !channels.contains_key(id),
        update_error(channels, id, hls_url) == Some(RegistryError::InvalidUrl)
            <==> channels.contains_key(id) && hls_url is Some && !playlist::is_http(hls_url->0),
{
}

/// An update sets what it gives and leaves the rest. The worker of a channel that ends up
/// disabled is gone; one is running where the channel was switched on or its source changed; any
/// other worker stays as it was.
pub proof fn law_update_sets_what_it_gives(
    c: ChannelView,
    hls_url: Option<Seq<char>>,
    enabled: Option<bool>,
)
    requires
        c.valid(),
    ensures
        ({
            let after = updated(c, hls_url, enabled);
            &&& hls_url is Some ==> after.hls_url == hls_url->0
            &&& hls_url is None ==> after.hls_url == c.hls_url
            &&& enabled is Some ==> after.enabled == enabled->0
            &&& enabled is None ==> after.enabled == c.enabled
            &&& after.last_error == c.last_error
            &&& !after.enabled ==> after.worker is Absent
            &&& after.enabled && (!c.enabled || after.hls_url != c.hls_url) ==> after.worker
                is Running
            &&& after.enabled && c.enabled && after.hls_url == c.hls_url ==> after.worker
                == c.worker
        }),
{
}

/// The steps of an update. A channel that is switched on starts from the source that it then
/// has; one that stays on starts over from a new source; one that is switched off stops last; one
/// that stays as it is, or stays off, takes no step.
pub proof fn law_update_takes_the_steps_it_needs(
    id: Seq<char>,
    c: ChannelView,
    hls_url: Option<Seq<char>>,
    enabled: Option<bool>,
)
    requires
        c.valid(),
    ensures
        ({
            let after = updated(c, hls_url, enabled);
            let steps = update_steps(id, c, hls_url, enabled);
            let stop = StepView::Stop { id };
            let spawn = StepView::Spawn { id, hls_url: after.hls_url };
            let moved = after.hls_url != c.hls_url;
            &&& !c.enabled && !after.enabled ==> steps.len() == 0
            &&& !c.enabled && after.enabled ==> steps.len() == 1 && steps[0] == spawn
            &&& c.enabled && after.enabled && !moved ==> steps.len() == 0
            &&& c.enabled && after.enabled && moved ==> steps.len() == 2 && steps[0] == stop
                && steps[1] == spawn
            &&& c.enabled && !after.enabled && !moved ==> steps.len() == 1 && steps[0] == stop
            &&& c.enabled && !after.enabled && moved ==> steps.len() == 3 && steps[0] == stop
                && steps[1] == spawn && steps[2] == stop
        }),
{
}

/// Switching a channel is an update without a new source.
pub proof fn law_switching_is_an_update(id: Seq<char>, c: ChannelView, want: bool)
    ensures
        switched(c, Some(want)) == updated(c, None, Some(want)),
        switch_steps(id, c, Some(want)) == update_steps(id, c, None, Some(want)),
{
    assert(update_steps(id, c, None, Some(want)) =~= switch_steps(id, c, Some(want)));
}

/// Switching all channels keeps every channel and its source, adds none, and sets each to the
/// wanted state.
pub proof fn law_switching_all_reaches_every_channel(channels: Channels, want: bool, id: Seq<char>)
    requires
        forall|i: Seq<char>| #[trigger] channels.contains_key(i) ==> channels[i].valid(),
    ensures
        ({
            let after = all_switched(channels, want);
            &&& after.contains_key(id) <==> channels.contains_key(id)
            &&& channels.contains_key(id) ==> {
                &&& after[id].enabled == want
                &&& after[id].hls_url == channels[id].hls_url
                &&& after[id].last_error == channels[id].last_error
                &&& after[id].worker is Absent <==> !want
                &&& channels[id].enabled == want ==> after[id] == channels[id]
            }
        }),
{
}

/// The steps for a list of channels are those for its channels, one after the other.
pub proof fn law_batch_takes_the_steps_of_each(
    ids: Seq<Seq<char>>,
    id: Seq<char>,
    channels: Channels,
    want: bool,
)
    requires
        channels[id].valid(),
    ensures
        batch_steps(Seq::empty(), channels, want).len() == 0,
        channels[id].enabled == want ==> batch_steps(ids.push(id), channels, want) == batch_steps(
            ids,
            channels,
            want,
        ),
        channels[id].enabled != want ==> batch_steps(ids.push(id), channels, want) == batch_steps(
            ids,
            channels,
            want,
        ).push(
            if want {
                StepView::Spawn { id, hls_url: channels[id].hls_url }
            } else {
                StepView::Stop { id }
            },
        ),
{
    assert(ids.push(id).drop_last() =~= ids);
    let before = batch_steps(ids, channels, want);
    assert(before + seq![] =~= before);
    assert(batch_steps(ids.push(id), channels, want) =~= before + switch_steps(
        id,
        channels[id],
        Some(want),
    ));
}

/// A list of sources that are sound and new, and of which no two name one channel, is added
/// whole: each becomes the channel that it describes, and the channels that were there stay.
pub proof fn law_sound_list_is_added_whole(
    channels: Channels,
    pull: Seq<PullSource>,
    n: int,
    i: int,
    other: Seq<char>,
)
    requires
        0 <= i < n <= pull.len(),
        forall|j: int|
            0 <= j < n ==> config::is_channel_id((#[trigger] pull[j]).channel@)
                && playlist::is_http(pull[j].url@) && !channels.contains_key(pull[j].channel@),
        forall|j: int, k: int|
            0 <= j < k < n ==> (#[trigger] pull[j]).channel@ != (#[trigger] pull[k]).channel@,
    ensures
        ({
            let (after, steps, error) = seeded(channels, pull, n);
            &&& error is None
            &&& after.contains_key(pull[i].channel@)
            &&& after[pull[i].channel@].hls_url == pull[i].url@
            &&& after[pull[i].channel@].enabled == pull[i].enable
            &&& after[pull[i].channel@].last_error is None
            &&& pull[i].enable ==> steps.contains(
                StepView::Spawn { id: pull[i].channel@, hls_url: pull[i].url@ },
            )
            &&& channels.contains_key(other) ==> after.contains_key(other) && after[other]
                == channels[other]
        }),
    decreases n,
{
    lemma_seeded_ids(channels, pull, n - 1);
    let (before, steps, error) = seeded(channels, pull, n - 1);
    let src = pull[n - 1];
    if i < n - 1 {
        law_sound_list_is_added_whole(channels, pull, n - 1, i, other);
        let spawn = StepView::Spawn { id: pull[i].channel@, hls_url: pull[i].url@ };
        if pull[i].enable {
            let k = choose|k: int| 0 <= k < steps.len() && steps[k] == spawn;
            assert((steps + add_steps(src.channel@, src.url@, src.enable))[k] == spawn);
        }
    } else {
        if n > 1 {
            law_sound_list_is_added_whole(channels, pull, n - 1, 0, other);
        }
        if src.enable {
            let all = steps + add_steps(src.channel@, src.url@, src.enable);
            assert(all[steps.len() as int] == (StepView::Spawn {
                id: src.channel@,
                hls_url: src.url@,
            }));
        }
    }
}

proof fn lemma_seeded_ids(channels: Channels, pull: Seq<PullSource>, n: int)
    requires
        0 <= n <= pull.len(),
    ensures
        forall|id: Seq<char>| #[trigger]
            seeded(channels, pull, n).0.contains_key(id) ==> channels.contains_key(id)
                || is_among(pull, n, id),
    decreases n,
{
    if n > 0 {
        lemma_seeded_ids(channels, pull, n - 1);
        assert forall|id: Seq<char>| #[trigger]
            seeded(channels, pull, n).0.contains_key(id) && !channels.contains_key(
                id,
            ) implies is_among(pull, n, id) by {
            if seeded(channels, pull, n - 1).0.contains_key(id) {
                let j = choose|j: int| 0 <= j < n - 1 && (#[trigger] pull[j]).channel@ == id;
                assert(pull[j].channel@ == id);
            } else {
                assert(pull[n - 1].channel@ == id);
            }
        }
    }
}

/// One of the first `n` sources of a list is for channel `id`.
spec fn is_among(pull: Seq<PullSource>, n: int, id: Seq<char>) -> bool {
    exists|j: int| 0 <= j < n && (#[trigger] pull[j]).channel@ == id
}

/// A list is added source by source: one that is refused ends it with its error and adds nothing,
/// and nothing after it is added either; one that is accepted is added with its steps at the end.
pub proof fn law_list_is_added_in_order(channels: Channels, pull: Seq<PullSource>, n: int)
    requires
        0 <= n < pull.len(),
    ensures
        seeded(channels, pull, 0) == (channels, Seq::<StepView>::empty(), None::<RegistryError>),
        ({
            let (before, steps, error) = seeded(channels, pull, n);
            let (after, more, outcome) = seeded(channels, pull, n + 1);
            let src = pull[n];
            let refusal = add_error(before, src.channel@, src.url@);
            if error is Some {
                outcome == error && after == before && more == steps
            } else if refusal is Some {
                outcome == refusal && after == before && more == steps
            } else {
                &&& outcome is None
                &&& after == before.insert(src.channel@, added(src.url@, src.enable))
                &&& more.len() == steps.len() + if src.enable {
                    1int
                } else {
                    0
                }
                &&& more.take(steps.len() as int) == steps
                &&& src.enable ==> more.last() == (StepView::Spawn {
                    id: src.channel@,
                    hls_url: src.url@,
                })
            }
        }),
{
    let (before, steps, error) = seeded(channels, pull, n);
    let more = seeded(channels, pull, n + 1).1;
    if error is None {
        assert(more.take(steps.len() as int) =~= steps);
    }
}

/// The status of a channel repeats what is known of it, and says that it runs exactly while its
/// worker does. A list of statuses has one for each channel, in the order of the list.
pub proof fn law_status_repeats_the_channel(ids: Seq<Seq<char>>, channels: Channels, i: int)
    requires
        0 <= i < ids.len(),
    ensures
        status_views(ids, channels).len() == ids.len(),
        ({
            let status = status_views(ids, channels)[i];
            let c = channels[ids[i]];
            &&& status.id == ids[i]
            &&& status.hls_url == c.hls_url
            &&& status.enabled == c.enabled
            &&& status.running <==> c.worker is Running
            &&& status.last_error == c.last_error
            &&& status.mpd == play_path(OutputMode::Dash, ids[i])
        }),
{
}

/// A channel is played under its id: below `/live/`, as a manifest or as one stream.
pub proof fn law_channel_is_played_under_its_id(mode: OutputMode, id: Seq<char>)
    ensures
        ({
            let path = play_path(mode, id);
            &&& text::has_prefix(path, "/live/"@)
            &&& path.subrange(6, 6int + id.len()) == id
            &&& mode is Dash ==> path.skip(6int + id.len()) == "/index.mpd"@
            &&& mode is Mpegts ==> path.skip(6int + id.len()) == "/mpegts"@
        }),
{
    reveal_strlit("/live/");
    let path = play_path(mode, id);
    assert(path.take(6) =~= "/live/"@);
    assert(path.subrange(6, 6int + id.len()) =~= id);
    if mode is Dash {
        assert(path.skip(6int + id.len()) =~= "/index.mpd"@);
    } else {
        assert(path.skip(6int + id.len()) =~= "/mpegts"@);
    }
}

/// Discovery shows the channels that are enabled and run, and no others, each with its path.
pub proof fn law_discovery_shows_the_active_channels(
    ids: Seq<Seq<char>>,
    channels: Channels,
    mode: OutputMode,
    shown: (Seq<char>, Seq<char>),
)
    ensures
        active_paths(ids, channels, mode).contains(shown) <==> ids.contains(shown.0)
            && channels[shown.0].enabled && channels[shown.0].worker is Running && shown.1
            == play_path(mode, shown.0),
    decreases ids.len(),
{
    if ids.len() > 0 {
        let fewer = ids.drop_last();
        let last = ids.last();
        law_discovery_shows_the_active_channels(fewer, channels, mode, shown);
        assert(ids =~= fewer.push(last));
        let before = active_paths(fewer, channels, mode);
        if fewer.contains(shown.0) {
            let j = choose|j: int| 0 <= j < fewer.len() && fewer[j] == shown.0;
            assert(ids[j] == shown.0);
        }
        if ids.contains(shown.0) && !fewer.contains(shown.0) {
            let j = choose|j: int| 0 <= j < ids.len() && ids[j] == shown.0;
            assert(j == fewer.len() || fewer[j] == shown.0);
        }
        assert(ids[ids.len() - 1] == last);
        if is_active(channels[last]) {
            let after = before.push((last, play_path(mode, last)));
            assert(after.last() == (last, play_path(mode, last)));
            assert(after.contains(after.last()));
            if before.contains(shown) {
                let j = choose|j: int| 0 <= j < before.len() && before[j] == shown;
                assert(after[j] == shown);
            }
            if after.contains(shown) && !before.contains(shown) {
                let j = choose|j: int| 0 <= j < after.len() && after[j] == shown;
                assert(j == before.len() || before[j] == shown);
            }
        }
    }
}

/// Discovery follows the list: a channel at its end is shown last and once, or not at all.
pub proof fn law_discovery_follows_the_list(
    ids: Seq<Seq<char>>,
    id: Seq<char>,
    channels: Channels,
    mode: OutputMode,
)
    ensures
        active_paths(Seq::empty(), channels, mode).len() == 0,
        ({
            let before = active_paths(ids, channels, mode);
            let after = active_paths(ids.push(id), channels, mode);
            if channels[id].enabled && channels[id].worker is Running {
                after == before.push((id, play_path(mode, id)))
            } else {
                after == before
            }
        }),
{
    assert(ids.push(id).drop_last() =~= ids);
}

/// Every worker that runs counts once, and no other does.
pub proof fn law_running_workers_are_counted(
    ids: Seq<Seq<char>>,
    id: Seq<char>,
    channels: Channels,
)
    ensures
        running_count(Seq::empty(), channels) == 0,
        channels[id].worker is Running ==> running_count(ids.push(id), channels) == running_count(
            ids,
            channels,
        ) + 1,
        !(channels[id].worker is Running) ==> running_count(ids.push(id), channels)
            == running_count(ids, channels),
{
    assert(ids.push(id).drop_last() =~= ids);
}

/// The message of a refusal that is about a channel ends with its id.
pub proof fn law_refusal_names_the_channel(id: Seq<char>)
    ensures
        text::has_suffix(registry_error_text(RegistryError::AlreadyExists, id), id),
        text::has_suffix(registry_error_text(RegistryError::NotFound, id), id),
        text::has_prefix(
            registry_error_text(RegistryError::AlreadyExists, id),
            "channel already exists"@,
        ),
        text::has_prefix(registry_error_text(RegistryError::NotFound, id), "channel not found"@),
{
    reveal_strlit("channel already exists: ");
    reveal_strlit("channel already exists");
    reveal_strlit("channel not found: ");
    reveal_strlit("channel not found");
    let there = registry_error_text(RegistryError::AlreadyExists, id);
    let missing = registry_error_text(RegistryError::NotFound, id);
    assert(there.skip(there.len() - id.len()) =~= id);
    assert(missing.skip(missing.len() - id.len()) =~= id);
    assert(there.take(22) =~= "channel already exists"@);
    assert(missing.take(17) =~= "channel not found"@);
}

/// A status is shown in full, and so is every step of a list, in order.
pub proof fn law_statuses_and_steps_are_shown_in_full(
    status: ChannelStatus,
    steps: Seq<WorkerStep>,
    i: int,
)
    requires
        0 <= i < steps.len(),
    ensures
        status@.id == status.id@,
        status@.hls_url == status.hls_url@,
        status@.enabled == status.enabled,
        status@.running == status.running,
        status@.mpd == status.mpd@,
        status@.last_error is Some <==> status.last_error is Some,
        status.last_error matches Some(message) ==> status@.last_error == Some(message@),
        step_views(steps).len() == steps.len(),
        match (steps[i], step_views(steps)[i]) {
            (WorkerStep::Stop { id }, StepView::Stop { id: shown }) => id@ == shown,
            (
                WorkerStep::Spawn { id, hls_url },
                StepView::Spawn { id: shown, hls_url: source },
            ) => id@ == shown && hls_url@ == source,
            _ => false,
        },
{
}

/// A list of pairs is shown in full, pair by pair and in order.
pub proof fn law_pairs_are_shown_in_full(pairs: Seq<(String, String)>, i: int)
    requires
        0 <= i < pairs.len(),
    ensures
        pair_views(pairs).len() == pairs.len(),
        pair_views(pairs)[i].0 == pairs[i].0@,
        pair_views(pairs)[i].1 == pairs[i].1@,
{
}

} // verus!
