//! Runtime channel registry: CRUD + instant enable/disable.
//!
//! The registry decides which pull workers run. Every change says which workers to stop and to
//! start; the caller does so, and reports a worker that ended by itself.

use crate::channel::model;
use crate::config;
use crate::config::{is_safe_channel, Config, OutputMode, PullSource};
use crate::hls::playlist;
use crate::hls::playlist::is_http_url;
use crate::text;
use crate::text::{is_text_less, same_text};
pub use crate::channel::model::{ChannelStatus, RegistryError, WorkerState, WorkerStep};
use vstd::prelude::*;
use vstd::string::*;

verus! {

#[derive(Debug)]
struct ChannelEntry {
    id: String,
    hls_url: String,
    enabled: bool,
    worker: WorkerState,
    last_error: Option<String>,
}

impl View for ChannelEntry {
    type V = model::ChannelView;

    closed spec fn view(&self) -> model::ChannelView {
        model::ChannelView {
            hls_url: self.hls_url@,
            enabled: self.enabled,
            worker: self.worker,
            last_error: playlist::option_text(self.last_error),
        }
    }
}

spec fn ids_of(entries: Seq<ChannelEntry>) -> Seq<Seq<char>> {
    entries.map_values(|e: ChannelEntry| e.id@)
}

spec fn table(entries: Seq<ChannelEntry>) -> model::Channels {
    Map::new(
        |id: Seq<char>| ids_of(entries).contains(id),
        |id: Seq<char>| entries[ids_of(entries).index_of(id)]@,
    )
}

proof fn lemma_table(entries: Seq<ChannelEntry>, i: int)
    requires
        text::strictly_sorted(ids_of(entries)),
        0 <= i < entries.len(),
    ensures
        table(entries).contains_key(entries[i].id@),
        table(entries)[entries[i].id@] == entries[i]@,
{
    let ids = ids_of(entries);
    assert(ids[i] == entries[i].id@);
    assert(ids.contains(ids[i]));
    let j = ids.index_of(ids[i]);
    assert(0 <= j < ids.len() && ids[j] == ids[i]);
    text::lemma_text_less_irreflexive(ids[i]);
    assert(j == i);
}

proof fn lemma_listing(entries: Seq<ChannelEntry>)
    requires
        text::strictly_sorted(ids_of(entries)),
    ensures
        model::is_listing(ids_of(entries), table(entries)),
        model::listing(table(entries)) == ids_of(entries),
{
    let ids = ids_of(entries);
    assert(model::is_listing(ids, table(entries)));
    let other = model::listing(table(entries));
    assert(model::is_listing(other, table(entries)));
    assert forall|id: Seq<char>| ids.contains(id) <==> other.contains(id) by {
        assert(ids.contains(id) <==> table(entries).contains_key(id));
    }
    text::lemma_sorted_list_is_unique(ids, other);
}

proof fn lemma_table_update(entries: Seq<ChannelEntry>, i: int, e: ChannelEntry)
    requires
        text::strictly_sorted(ids_of(entries)),
        0 <= i < entries.len(),
        e.id@ == entries[i].id@,
    ensures
        ids_of(entries.update(i, e)) == ids_of(entries),
        table(entries.update(i, e)) == table(entries).insert(e.id@, e@),
{
    let after = entries.update(i, e);
    assert(ids_of(after) =~= ids_of(entries));
    assert forall|id: Seq<char>| #[trigger] table(after).contains_key(id) implies table(after)[id]
        == table(entries).insert(e.id@, e@)[id] by {
        let j = ids_of(after).index_of(id);
        lemma_table(after, j);
        lemma_table(entries, j);
        lemma_table(after, i);
    }
    assert(ids_of(entries)[i] == e.id@);
    assert(table(after) =~= table(entries).insert(e.id@, e@));
}

proof fn lemma_table_insert(entries: Seq<ChannelEntry>, i: int, e: ChannelEntry)
    requires
        text::strictly_sorted(ids_of(entries)),
        0 <= i <= entries.len(),
        forall|j: int| 0 <= j < i ==> text::text_less(#[trigger] ids_of(entries)[j], e.id@),
        forall|j: int|
            i <= j < entries.len() ==> text::text_less(e.id@, #[trigger] ids_of(entries)[j]),
    ensures
        text::strictly_sorted(ids_of(entries.insert(i, e))),
        table(entries.insert(i, e)) == table(entries).insert(e.id@, e@),
{
    let after = entries.insert(i, e);
    let ids = ids_of(entries);
    let more = ids_of(after);
    assert(more =~= ids.insert(i, e.id@));
    assert forall|a: int, b: int| 0 <= a < b < more.len() implies text::text_less(
        #[trigger] more[a],
        #[trigger] more[b],
    ) by {
        if a < i && b > i {
            assert(more[a] == ids[a] && more[b] == ids[b - 1]);
        } else if a < i && b < i {
            assert(more[a] == ids[a] && more[b] == ids[b]);
        } else if a < i {
            assert(more[a] == ids[a]);
        } else if a > i {
            assert(more[a] == ids[a - 1] && more[b] == ids[b - 1]);
        } else {
            assert(more[b] == ids[b - 1]);
        }
    }
    lemma_table(after, i);
    assert forall|id: Seq<char>| table(after).contains_key(id) <==> table(entries).insert(
        e.id@,
        e@,
    ).contains_key(id) by {
        if more.contains(id) {
            let j = more.index_of(id);
            if j < i {
                assert(ids[j] == id);
            } else if j > i {
                assert(ids[j - 1] == id);
            }
        }
        if ids.contains(id) {
            let j = ids.index_of(id);
            if j < i {
                assert(more[j] == id);
            } else {
                assert(more[j + 1] == id);
            }
        }
        assert(more[i] == e.id@);
    }
    assert forall|id: Seq<char>| #[trigger] table(after).contains_key(id) implies table(after)[id]
        == table(entries).insert(e.id@, e@)[id] by {
        let j = more.index_of(id);
        lemma_table(after, j);
        if j < i {
            lemma_table(entries, j);
            text::lemma_text_less_irreflexive(id);
        } else if j > i {
            lemma_table(entries, j - 1);
            text::lemma_text_less_irreflexive(id);
        }
    }
    assert(table(after) =~= table(entries).insert(e.id@, e@));
}

proof fn lemma_table_remove(entries: Seq<ChannelEntry>, i: int)
    requires
        text::strictly_sorted(ids_of(entries)),
        0 <= i < entries.len(),
    ensures
        text::strictly_sorted(ids_of(entries.remove(i))),
        table(entries.remove(i)) == table(entries).remove(entries[i].id@),
{
    let after = entries.remove(i);
    let ids = ids_of(entries);
    let fewer = ids_of(after);
    assert(fewer =~= ids.remove(i));
    assert forall|a: int, b: int| 0 <= a < b < fewer.len() implies text::text_less(
        #[trigger] fewer[a],
        #[trigger] fewer[b],
    ) by {
        let x = if a < i {
            a
        } else {
            a + 1
        };
        let y = if b < i {
            b
        } else {
            b + 1
        };
        assert(fewer[a] == ids[x] && fewer[b] == ids[y]);
    }
    assert forall|id: Seq<char>| table(after).contains_key(id) <==> table(entries).remove(
        entries[i].id@,
    ).contains_key(id) by {
        assert(ids[i] == entries[i].id@);
        if fewer.contains(id) {
            let j = fewer.index_of(id);
            let x = if j < i {
                j
            } else {
                j + 1
            };
            assert(ids[x] == id);
            text::lemma_text_less_irreflexive(id);
        }
        if ids.contains(id) && id != ids[i] {
            let j = ids.index_of(id);
            if j < i {
                assert(fewer[j] == id);
            } else {
                assert(fewer[j - 1] == id);
            }
        }
    }
    assert forall|id: Seq<char>| #[trigger] table(after).contains_key(id) implies table(after)[id]
        == table(entries).remove(entries[i].id@)[id] by {
        let j = fewer.index_of(id);
        lemma_table(after, j);
        if j < i {
            lemma_table(entries, j);
        } else {
            lemma_table(entries, j + 1);
        }
    }
    assert(table(after) =~= table(entries).remove(entries[i].id@));
}

/// In-memory channel table seeded from config; mutated by `/api/channels`.
#[derive(Debug)]
pub struct ChannelRegistry {
    entries: Vec<ChannelEntry>,
    reconnect_secs: u64,
    output_mode: OutputMode,
}

impl View for ChannelRegistry {
    type V = model::Channels;

    closed spec fn view(&self) -> model::Channels {
        table(self.entries@)
    }
}

impl ChannelRegistry {
    /// The ids are distinct and safe, and every channel is valid.
    pub closed spec fn wf(&self) -> bool {
        &&& text::strictly_sorted(ids_of(self.entries@))
        &&& forall|i: int|
            0 <= i < self.entries@.len() ==> (#[trigger] self.entries@[i])@.valid()
                && config::is_channel_id(self.entries@[i].id@)
    }

    /// The egress mode.
    pub closed spec fn mode(&self) -> OutputMode {
        self.output_mode
    }

    /// Seconds between two attempts of a worker.
    pub closed spec fn reconnect(&self) -> u64 {
        self.reconnect_secs
    }

    /// The settings are the same.
    pub open spec fn same_settings(&self, other: &ChannelRegistry) -> bool {
        self.mode() == other.mode() && self.reconnect() == other.reconnect()
    }

    /// Create an empty registry bound to a configuration.
    pub fn new(cfg: &Config) -> (registry: Self)
        ensures
            registry.wf(),
            registry@ =~= Map::empty(),
            registry.mode() == cfg.output_mode,
            registry.reconnect() == (if cfg.reconnect_secs == 0 {
                1
            } else {
                cfg.reconnect_secs
            }),
    {
        ChannelRegistry {
            entries: Vec::new(),
            reconnect_secs: if cfg.reconnect_secs == 0 {
                1
            } else {
                cfg.reconnect_secs
            },
            output_mode: cfg.output_mode,
        }
    }

    /// Seconds between two attempts of a worker.
    pub fn reconnect_secs(&self) -> (secs: u64)
        ensures
            secs == self.reconnect(),
    {
        self.reconnect_secs
    }

    /// The place of channel `id`, or the place where it would stand.
    fn place(&self, id: &str) -> (place: (usize, bool))
        requires
            self.wf(),
        ensures
            place.0 <= self.entries@.len(),
            place.1 == self@.contains_key(id@),
            place.1 ==> place.0 < self.entries@.len() && self.entries@[place.0 as int].id@ == id@
                && self@[id@] == self.entries@[place.0 as int]@,
            !place.1 ==> {
                &&& forall|j: int|
                    0 <= j < place.0 ==> text::text_less(#[trigger] ids_of(self.entries@)[j], id@)
                &&& forall|j: int|
                    place.0 <= j < self.entries@.len() ==> text::text_less(
                        id@,
                        #[trigger] ids_of(self.entries@)[j],
                    )
            },
    {
        let ghost ids = ids_of(self.entries@);
        let mut i: usize = 0;
        while i < self.entries.len() && is_text_less(self.entries[i].id.as_str(), id)
            invariant
                i <= self.entries@.len(),
                ids == ids_of(self.entries@),
                forall|j: int| 0 <= j < i ==> text::text_less(#[trigger] ids[j], id@),
            decreases self.entries@.len() - i,
        {
            assert(ids[i as int] == self.entries@[i as int].id@);
            i = i + 1;
        }
        if i < self.entries.len() && same_text(self.entries[i].id.as_str(), id) {
            proof {
                lemma_table(self.entries@, i as int);
            }
            return (i, true);
        }
        proof {
            if i < self.entries@.len() {
                assert(ids[i as int] == self.entries@[i as int].id@);
                text::lemma_text_less_total(id@, ids[i as int]);
                assert forall|j: int| i <= j < ids.len() implies text::text_less(
                    id@,
                    #[trigger] ids[j],
                ) by {
                    if i < j {
                        text::lemma_text_less_transitive(id@, ids[i as int], ids[j]);
                    }
                }
            }
            if ids.contains(id@) {
                text::lemma_text_less_irreflexive(id@);
            }
        }
        (i, false)
    }

    /// Create a channel; its worker starts when `enabled`.
    pub fn add_channel(&mut self, id: String, hls_url: String, enabled: bool) -> (result: Result<
        Vec<WorkerStep>,
        RegistryError,
    >)
        requires
            old(self).wf(),
        ensures
            final(self).wf(),
            final(self).same_settings(old(self)),
            match model::add_error(old(self)@, id@, hls_url@) {
                Some(e) => result == Err::<Vec<WorkerStep>, RegistryError>(e) && final(self)@
                    == old(self)@,
                None => {
                    &&& result matches Ok(steps)
                    &&& model::step_views(steps@) == model::add_steps(id@, hls_url@, enabled)
                    &&& final(self)@ == old(self)@.insert(id@, model::added(hls_url@, enabled))
                },
            },
    {
        if !is_safe_channel(id.as_str()) {
            return Err(RegistryError::InvalidId);
        }
        if !is_http_url(hls_url.as_str()) {
            return Err(RegistryError::InvalidUrl);
        }
        let (at, found) = self.place(id.as_str());
        if found {
            return Err(RegistryError::AlreadyExists);
        }
        let mut steps: Vec<WorkerStep> = Vec::new();
        if enabled {
            steps.push(
                WorkerStep::Spawn {
                    id: id.as_str().to_owned(),
                    hls_url: hls_url.as_str().to_owned(),
                },
            );
        }
        assert(model::step_views(steps@) =~= model::add_steps(id@, hls_url@, enabled));
        let worker: WorkerState = if enabled {
            WorkerState::Running
        } else {
            WorkerState::Absent
        };
        let entry: ChannelEntry = ChannelEntry { id, hls_url, enabled, worker, last_error: None };
        proof {
            lemma_table_insert(self.entries@, at as int, entry);
        }
        self.entries.insert(at, entry);
        Ok(steps)
    }

    /// Update fields; enable/disable and URL changes take effect at once.
    pub fn update_channel(
        &mut self,
        id: &str,
        hls_url: Option<String>,
        enabled: Option<bool>,
    ) -> (result: Result<Vec<WorkerStep>, RegistryError>)
        requires
            old(self).wf(),
        ensures
            final(self).wf(),
            final(self).same_settings(old(self)),
            match model::update_error(old(self)@, id@, playlist::option_text(hls_url)) {
                Some(e) => result == Err::<Vec<WorkerStep>, RegistryError>(e) && final(self)@
                    == old(self)@,
                None => {
                    &&& result matches Ok(steps)
                    &&& model::step_views(steps@) == model::update_steps(
                        id@,
                        old(self)@[id@],
                        playlist::option_text(hls_url),
                        enabled,
                    )
                    &&& final(self)@ == old(self)@.insert(
                        id@,
                        model::updated(old(self)@[id@], playlist::option_text(hls_url), enabled),
                    )
                },
            },
    {
        let (at, found) = self.place(id);
        if !found {
            return Err(RegistryError::NotFound);
        }
        match &hls_url {
            Some(url) => {
                if !is_http_url(url.as_str()) {
                    return Err(RegistryError::InvalidUrl);
                }
            },
            None => {},
        }
        let ghost before = self.entries@;
        let mut entry: ChannelEntry = self.entries.remove(at);
        let mut steps: Vec<WorkerStep> = entry.set_url(hls_url);
        let mut more: Vec<WorkerStep> = entry.switch(enabled);
        let ghost first = steps@;
        let ghost second = more@;
        steps.append(&mut more);
        self.entries.insert(at, entry);
        proof {
            assert(model::step_views(steps@) =~= model::step_views(first) + model::step_views(
                second,
            ));
            lemma_table_update(before, at as int, entry);
            assert(self.entries@ =~= before.update(at as int, entry));
        }
        Ok(steps)
    }

    /// Remove a channel and stop its worker. The caller deletes its cache directory.
    pub fn remove_channel(&mut self, id: &str) -> (result: Result<Vec<WorkerStep>, RegistryError>)
        requires
            old(self).wf(),
        ensures
            final(self).wf(),
            final(self).same_settings(old(self)),
            final(self)@ == old(self)@.remove(id@),
            if old(self)@.contains_key(id@) {
                &&& result matches Ok(steps)
                &&& model::step_views(steps@) == model::switch_steps(
                    id@,
                    old(self)@[id@],
                    Some(false),
                )
            } else {
                result == Err::<Vec<WorkerStep>, RegistryError>(RegistryError::NotFound)
            },
    {
        let (at, found) = self.place(id);
        if !found {
            assert(self@ =~= self@.remove(id@));
            return Err(RegistryError::NotFound);
        }
        proof {
            lemma_table_remove(self.entries@, at as int);
        }
        let mut entry: ChannelEntry = self.entries.remove(at);
        Ok(entry.switch(Some(false)))
    }

    /// Enable a channel; its worker starts at once.
    pub fn enable_channel(&mut self, id: &str) -> (result: Result<Vec<WorkerStep>, RegistryError>)
        requires
            old(self).wf(),
        ensures
            final(self).wf(),
            final(self).same_settings(old(self)),
            if old(self)@.contains_key(id@) {
                &&& result matches Ok(steps)
                &&& model::step_views(steps@) == model::switch_steps(
                    id@,
                    old(self)@[id@],
                    Some(true),
                )
                &&& final(self)@ == old(self)@.insert(
                    id@,
                    model::switched(old(self)@[id@], Some(true)),
                )
            } else {
                &&& result == Err::<Vec<WorkerStep>, RegistryError>(RegistryError::NotFound)
                &&& final(self)@ == old(self)@
            },
    {
        let result: Result<Vec<WorkerStep>, RegistryError> = self.update_channel(
            id,
            None,
            Some(true),
        );
        proof {
            if old(self)@.contains_key(id@) {
                let c = old(self)@[id@];
                assert(model::update_steps(id@, c, None, Some(true)) =~= model::switch_steps(
                    id@,
                    c,
                    Some(true),
                ));
            }
        }
        result
    }

    /// Disable a channel; its worker stops at once.
    pub fn disable_channel(&mut self, id: &str) -> (result: Result<Vec<WorkerStep>, RegistryError>)
        requires
            old(self).wf(),
        ensures
            final(self).wf(),
            final(self).same_settings(old(self)),
            if old(self)@.contains_key(id@) {
                &&& result matches Ok(steps)
                &&& model::step_views(steps@) == model::switch_steps(
                    id@,
                    old(self)@[id@],
                    Some(false),
                )
                &&& final(self)@ == old(self)@.insert(
                    id@,
                    model::switched(old(self)@[id@], Some(false)),
                )
            } else {
                &&& result == Err::<Vec<WorkerStep>, RegistryError>(RegistryError::NotFound)
                &&& final(self)@ == old(self)@
            },
    {
        let result: Result<Vec<WorkerStep>, RegistryError> = self.update_channel(
            id,
            None,
            Some(false),
        );
        proof {
            if old(self)@.contains_key(id@) {
                let c = old(self)@[id@];
                assert(model::update_steps(id@, c, None, Some(false)) =~= model::switch_steps(
                    id@,
                    c,
                    Some(false),
                ));
            }
        }
        result
    }
}

impl ChannelEntry {
    fn stop_step(&self) -> (step: WorkerStep)
        ensures
            step@ == (model::StepView::Stop { id: self.id@ }),
    {
        WorkerStep::Stop { id: self.id.as_str().to_owned() }
    }

    fn spawn_step(&self) -> (step: WorkerStep)
        ensures
            step@ == (model::StepView::Spawn { id: self.id@, hls_url: self.hls_url@ }),
    {
        WorkerStep::Spawn {
            id: self.id.as_str().to_owned(),
            hls_url: self.hls_url.as_str().to_owned(),
        }
    }

    fn set_url(&mut self, hls_url: Option<String>) -> (steps: Vec<WorkerStep>)
        requires
            old(self)@.valid(),
            playlist::option_text(hls_url) matches Some(url) ==> playlist::is_http(url),
        ensures
            final(self).id@ == old(self).id@,
            final(self)@.valid(),
            final(self)@ == model::with_url(old(self)@, playlist::option_text(hls_url)),
            model::step_views(steps@) == model::url_steps(
                old(self).id@,
                old(self)@,
                playlist::option_text(hls_url),
            ),
    {
        let mut steps: Vec<WorkerStep> = Vec::new();
        match hls_url {
            Some(url) => {
                let changed: bool = !same_text(url.as_str(), self.hls_url.as_str());
                self.hls_url = url;
                if changed && self.enabled {
                    steps.push(self.stop_step());
                    steps.push(self.spawn_step());
                    self.worker = WorkerState::Running;
                }
            },
            None => {},
        }
        assert(model::step_views(steps@) =~= model::url_steps(
            old(self).id@,
            old(self)@,
            playlist::option_text(hls_url),
        ));
        steps
    }

    fn switch(&mut self, enabled: Option<bool>) -> (steps: Vec<WorkerStep>)
        requires
            old(self)@.valid(),
        ensures
            final(self).id@ == old(self).id@,
            final(self)@.valid(),
            final(self)@ == model::switched(old(self)@, enabled),
            model::step_views(steps@) == model::switch_steps(old(self).id@, old(self)@, enabled),
    {
        let mut steps: Vec<WorkerStep> = Vec::new();
        match enabled {
            Some(want) => {
                if want && !self.enabled {
                    self.enabled = true;
                    if self.worker != WorkerState::Running {
                        steps.push(self.spawn_step());
                    }
                    self.worker = WorkerState::Running;
                } else if !want && self.enabled {
                    self.enabled = false;
                    steps.push(self.stop_step());
                    self.worker = WorkerState::Absent;
                }
            },
            None => {},
        }
        assert(model::step_views(steps@) =~= model::switch_steps(
            old(self).id@,
            old(self)@,
            enabled,
        ));
        steps
    }
}

fn copied(last_error: &Option<String>) -> (copy: Option<String>)
    ensures
        playlist::option_text(copy) == playlist::option_text(*last_error),
{
    match last_error {
        Some(message) => Some(message.as_str().to_owned()),
        None => None,
    }
}

impl ChannelEntry {
    fn status_of(&self) -> (status: ChannelStatus)
        ensures
            status@ == model::status_view(self.id@, self@),
    {
        let mut mpd: String = "/live/".to_owned();
        mpd.append(self.id.as_str());
        mpd.append("/index.mpd");
        ChannelStatus {
            id: self.id.as_str().to_owned(),
            hls_url: self.hls_url.as_str().to_owned(),
            enabled: self.enabled,
            running: self.worker == WorkerState::Running,
            mpd,
            last_error: copied(&self.last_error),
        }
    }
}

impl ChannelRegistry {
    /// Seed channels from a `pull:` list; the workers of enabled ones start.
    ///
    /// The steps are those of the channels added before the first refusal.
    pub fn seed_from_config(&mut self, pull: &Vec<PullSource>) -> (result: (
        Vec<WorkerStep>,
        Result<(), RegistryError>,
    ))
        requires
            old(self).wf(),
        ensures
            final(self).wf(),
            final(self).same_settings(old(self)),
            ({
                let (channels, steps, error) = model::seeded(old(self)@, pull@, pull@.len() as int);
                &&& final(self)@ == channels
                &&& model::step_views(result.0@) == steps
                &&& result.1 == match error {
                    Some(e) => Err::<(), RegistryError>(e),
                    None => Ok(()),
                }
            }),
    {
        let mut steps: Vec<WorkerStep> = Vec::new();
        let mut i: usize = 0;
        let ghost start = self@;
        assert(model::step_views(steps@) =~= seq![]);
        while i < pull.len()
            invariant
                i <= pull@.len(),
                self.wf(),
                self.same_settings(old(self)),
                start == old(self)@,
                model::seeded(start, pull@, i as int) == (
                    self@,
                    model::step_views(steps@),
                    None::<RegistryError>,
                ),
            decreases pull@.len() - i,
        {
            let outcome: Result<Vec<WorkerStep>, RegistryError> = self.add_channel(
                pull[i].channel.as_str().to_owned(),
                pull[i].url.as_str().to_owned(),
                pull[i].enable,
            );
            match outcome {
                Ok(new_steps) => {
                    let ghost before = steps@;
                    let mut more: Vec<WorkerStep> = new_steps;
                    let ghost new = more@;
                    steps.append(&mut more);
                    assert(model::step_views(steps@) =~= model::step_views(before)
                        + model::step_views(new));
                },
                Err(e) => {
                    proof {
                        model::lemma_seeded_stops(start, pull@, i + 1, pull@.len() as int);
                    }
                    return (steps, Err(e));
                },
            }
            i = i + 1;
        }
        (steps, Ok(()))
    }

    /// List all configured channels (enabled or not), by id.
    pub fn list(&self) -> (list: Vec<ChannelStatus>)
        requires
            self.wf(),
        ensures
            list@.map_values(|status: ChannelStatus| status@) == model::status_views(
                model::listing(self@),
                self@,
            ),
    {
        let mut list: Vec<ChannelStatus> = Vec::new();
        let mut i: usize = 0;
        let ghost ids = ids_of(self.entries@);
        proof {
            lemma_listing(self.entries@);
        }
        while i < self.entries.len()
            invariant
                i <= self.entries@.len(),
                self.wf(),
                ids == ids_of(self.entries@),
                list@.len() == i,
                forall|j: int|
                    0 <= j < i ==> (#[trigger] list@[j])@ == model::status_view(
                        ids[j],
                        self@[ids[j]],
                    ),
            decreases self.entries@.len() - i,
        {
            proof {
                lemma_table(self.entries@, i as int);
            }
            list.push(self.entries[i].status_of());
            i = i + 1;
        }
        assert(list@.map_values(|status: ChannelStatus| status@) =~= model::status_views(
            ids,
            self@,
        ));
        list
    }

    /// Channels that are enabled and currently running, with the paths where they are played.
    pub fn list_active_discovery(&self) -> (active: Vec<(String, String)>)
        requires
            self.wf(),
        ensures
            model::pair_views(active@) == model::active_paths(
                model::listing(self@),
                self@,
                self.mode(),
            ),
    {
        let mut active: Vec<(String, String)> = Vec::new();
        let mut i: usize = 0;
        let ghost ids = ids_of(self.entries@);
        proof {
            lemma_listing(self.entries@);
        }
        assert(model::pair_views(active@) =~= model::active_paths(ids.take(0), self@, self.mode()));
        while i < self.entries.len()
            invariant
                i <= self.entries@.len(),
                self.wf(),
                ids == ids_of(self.entries@),
                model::pair_views(active@) == model::active_paths(
                    ids.take(i as int),
                    self@,
                    self.mode(),
                ),
            decreases self.entries@.len() - i,
        {
            proof {
                lemma_table(self.entries@, i as int);
                assert(ids.take(i + 1).drop_last() =~= ids.take(i as int));
                assert(ids.take(i + 1).last() == self.entries@[i as int].id@);
            }
            let entry: &ChannelEntry = &self.entries[i];
            if entry.enabled && entry.worker == WorkerState::Running {
                let mut path: String = "/live/".to_owned();
                path.append(entry.id.as_str());
                match self.output_mode {
                    OutputMode::Dash => path.append("/index.mpd"),
                    OutputMode::Mpegts => path.append("/mpegts"),
                }
                let ghost before = active@;
                active.push((entry.id.as_str().to_owned(), path));
                assert(model::pair_views(active@) =~= model::pair_views(before).push(
                    (entry.id@, path@),
                ));
            }
            i = i + 1;
        }
        assert(ids.take(i as int) =~= ids);
        active
    }

    /// Count currently running pull workers.
    pub fn active_count(&self) -> (count: usize)
        requires
            self.wf(),
        ensures
            count == model::running_count(model::listing(self@), self@),
    {
        let mut count: usize = 0;
        let mut i: usize = 0;
        let ghost ids = ids_of(self.entries@);
        proof {
            lemma_listing(self.entries@);
        }
        while i < self.entries.len()
            invariant
                count <= i <= self.entries@.len(),
                self.wf(),
                ids == ids_of(self.entries@),
                count == model::running_count(ids.take(i as int), self@),
            decreases self.entries@.len() - i,
        {
            proof {
                lemma_table(self.entries@, i as int);
                assert(ids.take(i + 1).drop_last() =~= ids.take(i as int));
                assert(ids.take(i + 1).last() == self.entries@[i as int].id@);
            }
            if self.entries[i].worker == WorkerState::Running {
                count = count + 1;
            }
            i = i + 1;
        }
        assert(ids.take(i as int) =~= ids);
        count
    }

    fn switch_all(&mut self, want: bool) -> (result: (usize, Vec<WorkerStep>))
        requires
            old(self).wf(),
        ensures
            final(self).wf(),
            final(self).same_settings(old(self)),
            final(self)@ == model::all_switched(old(self)@, want),
            result.0 == model::listing(old(self)@).len(),
            model::step_views(result.1@) == model::batch_steps(
                model::listing(old(self)@),
                old(self)@,
                want,
            ),
    {
        let ghost before = self.entries@;
        let ghost start = self@;
        let ghost ids = ids_of(before);
        let mut steps: Vec<WorkerStep> = Vec::new();
        let mut i: usize = 0;
        proof {
            lemma_listing(before);
            assert(model::step_views(steps@) =~= model::batch_steps(ids.take(0), start, want));
        }
        while i < self.entries.len()
            invariant
                i <= self.entries@.len(),
                self.entries@.len() == before.len(),
                self.wf(),
                self.same_settings(old(self)),
                text::strictly_sorted(ids),
                ids == ids_of(before),
                start == table(before),
                ids_of(self.entries@) == ids,
                forall|j: int|
                    0 <= j < i ==> (#[trigger] self.entries@[j])@ == model::switched(
                        before[j]@,
                        Some(want),
                    ),
                forall|j: int| i <= j < before.len() ==> #[trigger] self.entries@[j] == before[j],
                model::step_views(steps@) == model::batch_steps(ids.take(i as int), start, want),
            decreases before.len() - i,
        {
            let ghost now = self.entries@;
            let ghost done = steps@;
            proof {
                lemma_table(before, i as int);
                assert(ids.take(i + 1).drop_last() =~= ids.take(i as int));
                assert(ids.take(i + 1).last() == before[i as int].id@);
            }
            let mut entry: ChannelEntry = self.entries.remove(i);
            let mut more: Vec<WorkerStep> = entry.switch(Some(want));
            let ghost new = more@;
            steps.append(&mut more);
            self.entries.insert(i, entry);
            proof {
                assert(self.entries@ =~= now.update(i as int, entry));
                lemma_table_update(now, i as int, entry);
                assert(model::step_views(steps@) =~= model::step_views(done) + model::step_views(
                    new,
                ));
            }
            i = i + 1;
        }
        proof {
            assert(ids.take(i as int) =~= ids);
            let after = model::all_switched(start, want);
            assert forall|id: Seq<char>| #[trigger] self@.contains_key(id) implies self@[id]
                == after[id] by {
                let j = ids.index_of(id);
                lemma_table(self.entries@, j);
                lemma_table(before, j);
                assert(ids[j] == before[j].id@);
                assert(ids_of(self.entries@)[j] == self.entries@[j].id@);
            }
            assert(self@ =~= after);
        }
        (self.entries.len(), steps)
    }

    /// Enable every channel. The result counts the channels.
    pub fn enable_all(&mut self) -> (result: (usize, Vec<WorkerStep>))
        requires
            old(self).wf(),
        ensures
            final(self).wf(),
            final(self).same_settings(old(self)),
            final(self)@ == model::all_switched(old(self)@, true),
            result.0 == model::listing(old(self)@).len(),
            model::step_views(result.1@) == model::batch_steps(
                model::listing(old(self)@),
                old(self)@,
                true,
            ),
    {
        self.switch_all(true)
    }

    /// Disable every channel. The result counts the channels.
    pub fn disable_all(&mut self) -> (result: (usize, Vec<WorkerStep>))
        requires
            old(self).wf(),
        ensures
            final(self).wf(),
            final(self).same_settings(old(self)),
            final(self)@ == model::all_switched(old(self)@, false),
            result.0 == model::listing(old(self)@).len(),
            model::step_views(result.1@) == model::batch_steps(
                model::listing(old(self)@),
                old(self)@,
                false,
            ),
    {
        self.switch_all(false)
    }

    /// Note that the worker of channel `id` ended by itself.
    pub fn worker_finished(&mut self, id: &str)
        requires
            old(self).wf(),
        ensures
            final(self).wf(),
            final(self).same_settings(old(self)),
            final(self)@ == (if old(self)@.contains_key(id@) && old(self)@[id@].worker
                == WorkerState::Running {
                old(self)@.insert(
                    id@,
                    (model::ChannelView { worker: WorkerState::Finished, ..old(self)@[id@] }),
                )
            } else {
                old(self)@
            }),
    {
        let (at, found) = self.place(id);
        if found {
            let ghost before = self.entries@;
            let mut entry: ChannelEntry = self.entries.remove(at);
            let was_running: bool = entry.worker == WorkerState::Running;
            if was_running {
                entry.worker = WorkerState::Finished;
            }
            self.entries.insert(at, entry);
            proof {
                assert(self.entries@ =~= before.update(at as int, entry));
                lemma_table_update(before, at as int, entry);
                if !was_running {
                    assert(self@ =~= old(self)@);
                }
            }
        }
    }

    /// Note the last error of the worker of channel `id`, or that it works again.
    pub fn set_last_error(&mut self, id: &str, last_error: Option<String>)
        requires
            old(self).wf(),
        ensures
            final(self).wf(),
            final(self).same_settings(old(self)),
            final(self)@ == (if old(self)@.contains_key(id@) {
                old(self)@.insert(
                    id@,
                    (model::ChannelView {
                        last_error: playlist::option_text(last_error),
                        ..old(self)@[id@]
                    }),
                )
            } else {
                old(self)@
            }),
    {
        let (at, found) = self.place(id);
        if found {
            let ghost before = self.entries@;
            let mut entry: ChannelEntry = self.entries.remove(at);
            entry.last_error = last_error;
            self.entries.insert(at, entry);
            proof {
                assert(self.entries@ =~= before.update(at as int, entry));
                lemma_table_update(before, at as int, entry);
            }
        }
    }
}

/// Every channel of a registry has a safe id and an HTTP source, and its worker runs only while
/// it is enabled.
pub proof fn law_registry_channels_are_sound(registry: &ChannelRegistry, id: Seq<char>)
    requires
        registry.wf(),
        registry@.contains_key(id),
    ensures
        config::is_channel_id(id),
        playlist::is_http(registry@[id].hls_url),
        registry@[id].worker == WorkerState::Running ==> registry@[id].enabled,
{
    let ids = ids_of(registry.entries@);
    let i = ids.index_of(id);
    lemma_table(registry.entries@, i);
    assert(ids[i] == registry.entries@[i].id@);
}

/// The channels are listed completely, each once and in ascending order of the ids.
pub proof fn law_listing_is_complete_and_sorted(registry: &ChannelRegistry)
    requires
        registry.wf(),
    ensures
        model::is_listing(model::listing(registry@), registry@),
{
    lemma_listing(registry.entries@);
}

/// The list of the channels holds every channel and nothing else, and each id stands before those
/// that are greater.
pub proof fn law_listing_holds_every_channel(registry: &ChannelRegistry, id: Seq<char>, i: int, j: int)
    requires
        registry.wf(),
    ensures
        registry@.contains_key(id) ==> exists|k: int|
            0 <= k < model::listing(registry@).len() && #[trigger] model::listing(registry@)[k]
                == id,
        0 <= i < model::listing(registry@).len() ==> registry@.contains_key(
            model::listing(registry@)[i],
        ),
        0 <= i < j < model::listing(registry@).len() ==> text::text_less(
            model::listing(registry@)[i],
            model::listing(registry@)[j],
        ),
{
    lemma_listing(registry.entries@);
    let ids = ids_of(registry.entries@);
    if registry@.contains_key(id) {
        assert(ids.contains(id));
    }
    if 0 <= i < ids.len() {
        assert(ids.contains(ids[i]));
    }
}

/// Two registries with the same settings agree on each of them.
pub proof fn law_same_settings_agree(a: &ChannelRegistry, b: &ChannelRegistry)
    ensures
        a.same_settings(b) <==> a.mode() == b.mode() && a.reconnect() == b.reconnect(),
{
}

} // verus!
