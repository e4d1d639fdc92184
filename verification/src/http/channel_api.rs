//! Handlers for `/api/channels` CRUD and enable/disable.
//!
//! A handler changes the registry and says what to answer, and which workers to stop and to
//! start.

use crate::channel::model;
use crate::channel::registry::{ChannelRegistry, RegistryError, WorkerStep};
use crate::hls::playlist;
use vstd::prelude::*;
use vstd::string::*;

verus! {

/// The status of an answer to a request that made a channel.
pub const CREATED: u16 = 201;

/// The status of an answer to any other request that was met.
pub const OK: u16 = 200;

/// The status of an answer to a request that was refused.
pub const BAD_REQUEST: u16 = 400;

/// Request body for `POST /api/channels`.
#[derive(Debug)]
pub struct AddChannelRequest {
    pub id: String,
    pub hls_url: String,
    pub enabled: bool,
}

/// Request body for `PUT /api/channels/{id}`.
#[derive(Debug)]
pub struct UpdateChannelRequest {
    pub hls_url: Option<String>,
    pub enabled: Option<bool>,
}

#[derive(Debug, Clone, Copy, PartialEq, Eq, Structural)]
pub struct BatchChannelResult {
    pub affected: usize,
    pub enabled: bool,
}

/// An answer in plain text.
#[derive(Debug)]
pub struct ApiReply {
    pub status: u16,
    pub body: String,
}

/// What an [`ApiReply`] says.
pub ghost struct ReplyView {
    pub status: u16,
    pub body: Seq<char>,
}

impl View for ApiReply {
    type V = ReplyView;

    open spec fn view(&self) -> ReplyView {
        ReplyView { status: self.status, body: self.body@ }
    }
}

/// The answer to a request about channel `id`: what was done, or why it was refused.
pub open spec fn reply_view(
    error: Option<RegistryError>,
    id: Seq<char>,
    status: u16,
    done: Seq<char>,
) -> ReplyView {
    match error {
        None => ReplyView { status, body: done },
        Some(e) => ReplyView {
            status: BAD_REQUEST,
            body: model::registry_error_text(e, id),
        },
    }
}

/// The refusal in a result.
pub open spec fn error_of(result: Result<Vec<WorkerStep>, RegistryError>) -> Option<
    RegistryError,
> {
    match result {
        Ok(_) => None,
        Err(e) => Some(e),
    }
}

/// The steps in a result.
pub open spec fn steps_of(result: Result<Vec<WorkerStep>, RegistryError>) -> Seq<
    model::StepView,
> {
    match result {
        Ok(steps) => model::step_views(steps@),
        Err(_) => seq![],
    }
}

fn reply(
    result: Result<Vec<WorkerStep>, RegistryError>,
    id: &str,
    status: u16,
    done: &str,
) -> (answer: (ApiReply, Vec<WorkerStep>))
    ensures
        answer.0@ == reply_view(error_of(result), id@, status, done@),
        model::step_views(answer.1@) == steps_of(result),
{
    match result {
        Ok(steps) => (ApiReply { status, body: done.to_owned() }, steps),
        Err(e) => {
            let steps: Vec<WorkerStep> = Vec::new();
            assert(model::step_views(steps@) =~= seq![]);
            (ApiReply { status: BAD_REQUEST, body: e.message(id) }, steps)
        },
    }
}

/// `POST /api/channels`
pub fn add_channel(channels: &mut ChannelRegistry, body: AddChannelRequest) -> (answer: (
    ApiReply,
    Vec<WorkerStep>,
))
    requires
        old(channels).wf(),
    ensures
        final(channels).wf(),
        final(channels).same_settings(old(channels)),
        ({
            let error = model::add_error(old(channels)@, body.id@, body.hls_url@);
            &&& answer.0@ == reply_view(error, body.id@, CREATED, "channel added"@)
            &&& error is None ==> final(channels)@ == old(channels)@.insert(
                body.id@,
                model::added(body.hls_url@, body.enabled),
            ) && model::step_views(answer.1@) == model::add_steps(
                body.id@,
                body.hls_url@,
                body.enabled,
            )
            &&& error is Some ==> final(channels)@ == old(channels)@ && model::step_views(
                answer.1@,
            ) == Seq::<model::StepView>::empty()
        }),
{
    let id: String = body.id.as_str().to_owned();
    let result: Result<Vec<WorkerStep>, RegistryError> = channels.add_channel(
        body.id,
        body.hls_url,
        body.enabled,
    );
    reply(result, id.as_str(), CREATED, "channel added")
}

/// `PUT /api/channels/{id}`
pub fn update_channel(
    channels: &mut ChannelRegistry,
    channel_id: &str,
    body: UpdateChannelRequest,
) -> (answer: (ApiReply, Vec<WorkerStep>))
    requires
        old(channels).wf(),
    ensures
        final(channels).wf(),
        final(channels).same_settings(old(channels)),
        ({
            let url = playlist::option_text(body.hls_url);
            let error = model::update_error(old(channels)@, channel_id@, url);
            &&& answer.0@ == reply_view(error, channel_id@, OK, "channel updated"@)
            &&& error is None ==> final(channels)@ == old(channels)@.insert(
                channel_id@,
                model::updated(old(channels)@[channel_id@], url, body.enabled),
            ) && model::step_views(answer.1@) == model::update_steps(
                channel_id@,
                old(channels)@[channel_id@],
                url,
                body.enabled,
            )
            &&& error is Some ==> final(channels)@ == old(channels)@ && model::step_views(
                answer.1@,
            ) == Seq::<model::StepView>::empty()
        }),
{
    let result: Result<Vec<WorkerStep>, RegistryError> = channels.update_channel(
        channel_id,
        body.hls_url,
        body.enabled,
    );
    reply(result, channel_id, OK, "channel updated")
}

/// Why a request about channel `id` is refused where all it needs is the channel.
pub open spec fn missing(channels: model::Channels, id: Seq<char>) -> Option<RegistryError> {
    if channels.contains_key(id) {
        None
    } else {
        Some(RegistryError::NotFound)
    }
}

/// `DELETE /api/channels/{id}`
pub fn remove_channel(channels: &mut ChannelRegistry, channel_id: &str) -> (answer: (
    ApiReply,
    Vec<WorkerStep>,
))
    requires
        old(channels).wf(),
    ensures
        final(channels).wf(),
        final(channels).same_settings(old(channels)),
        answer.0@ == reply_view(
            missing(old(channels)@, channel_id@),
            channel_id@,
            OK,
            "channel removed"@,
        ),
        final(channels)@ == old(channels)@.remove(channel_id@),
        model::step_views(answer.1@) == (if old(channels)@.contains_key(channel_id@) {
            model::switch_steps(channel_id@, old(channels)@[channel_id@], Some(false))
        } else {
            seq![]
        }),
{
    let result: Result<Vec<WorkerStep>, RegistryError> = channels.remove_channel(channel_id);
    reply(result, channel_id, OK, "channel removed")
}

/// A channel switched among the others, where it is there.
pub open spec fn with_switched(
    channels: model::Channels,
    id: Seq<char>,
    want: bool,
) -> model::Channels {
    if channels.contains_key(id) {
        channels.insert(id, model::switched(channels[id], Some(want)))
    } else {
        channels
    }
}

/// The steps for switching a channel, where it is there.
pub open spec fn switching_steps(channels: model::Channels, id: Seq<char>, want: bool) -> Seq<
    model::StepView,
> {
    if channels.contains_key(id) {
        model::switch_steps(id, channels[id], Some(want))
    } else {
        seq![]
    }
}

/// `POST /api/channels/{id}/enable`
pub fn enable_channel(channels: &mut ChannelRegistry, channel_id: &str) -> (answer: (
    ApiReply,
    Vec<WorkerStep>,
))
    requires
        old(channels).wf(),
    ensures
        final(channels).wf(),
        final(channels).same_settings(old(channels)),
        answer.0@ == reply_view(
            missing(old(channels)@, channel_id@),
            channel_id@,
            OK,
            "channel enabled"@,
        ),
        final(channels)@ == with_switched(old(channels)@, channel_id@, true),
        model::step_views(answer.1@) == switching_steps(old(channels)@, channel_id@, true),
{
    let result: Result<Vec<WorkerStep>, RegistryError> = channels.enable_channel(channel_id);
    reply(result, channel_id, OK, "channel enabled")
}

/// `POST /api/channels/{id}/disable`
pub fn disable_channel(channels: &mut ChannelRegistry, channel_id: &str) -> (answer: (
    ApiReply,
    Vec<WorkerStep>,
))
    requires
        old(channels).wf(),
    ensures
        final(channels).wf(),
        final(channels).same_settings(old(channels)),
        answer.0@ == reply_view(
            missing(old(channels)@, channel_id@),
            channel_id@,
            OK,
            "channel disabled"@,
        ),
        final(channels)@ == with_switched(old(channels)@, channel_id@, false),
        model::step_views(answer.1@) == switching_steps(old(channels)@, channel_id@, false),
{
    let result: Result<Vec<WorkerStep>, RegistryError> = channels.disable_channel(channel_id);
    reply(result, channel_id, OK, "channel disabled")
}

/// `POST /api/channels/enable-all`
pub fn enable_all_channels(channels: &mut ChannelRegistry) -> (answer: (
    BatchChannelResult,
    Vec<WorkerStep>,
))
    requires
        old(channels).wf(),
    ensures
        final(channels).wf(),
        final(channels).same_settings(old(channels)),
        final(channels)@ == model::all_switched(old(channels)@, true),
        answer.0.affected == model::listing(old(channels)@).len(),
        answer.0.enabled,
        model::step_views(answer.1@) == model::batch_steps(
            model::listing(old(channels)@),
            old(channels)@,
            true,
        ),
{
    let (affected, steps) = channels.enable_all();
    (BatchChannelResult { affected, enabled: true }, steps)
}

/// `POST /api/channels/disable-all`
pub fn disable_all_channels(channels: &mut ChannelRegistry) -> (answer: (
    BatchChannelResult,
    Vec<WorkerStep>,
))
    requires
        old(channels).wf(),
    ensures
        final(channels).wf(),
        final(channels).same_settings(old(channels)),
        final(channels)@ == model::all_switched(old(channels)@, false),
        answer.0.affected == model::listing(old(channels)@).len(),
        !answer.0.enabled,
        model::step_views(answer.1@) == model::batch_steps(
            model::listing(old(channels)@),
            old(channels)@,
            false,
        ),
{
    let (affected, steps) = channels.disable_all();
    (BatchChannelResult { affected, enabled: false }, steps)
}

/// A request that is refused is answered with four hundred and the reason; one that is met, with
/// the status and the words for what was done.
pub proof fn law_refusal_is_a_bad_request(
    error: Option<RegistryError>,
    id: Seq<char>,
    status: u16,
    done: Seq<char>,
)
    ensures
        error is None ==> reply_view(error, id, status, done).status == status && reply_view(
            error,
            id,
            status,
            done,
        ).body == done,
        error is Some ==> reply_view(error, id, status, done).status == 400 && reply_view(
            error,
            id,
            status,
            done,
        ).body == model::registry_error_text(error->0, id),
        CREATED == 201 && OK == 200,
{
}

/// Only the channel that a request names is switched; a request for one that is not there changes
/// nothing, takes no step and is refused for that reason.
pub proof fn law_only_the_named_channel_is_switched(
    channels: model::Channels,
    id: Seq<char>,
    other: Seq<char>,
    want: bool,
)
    ensures
        ({
            let after = with_switched(channels, id, want);
            &&& after.contains_key(other) <==> channels.contains_key(other)
            &&& other != id ==> after[other] == channels[other]
            &&& channels.contains_key(id) ==> after[id].enabled == want && missing(
                channels,
                id,
            ) is None
            &&& channels.contains_key(id) && channels[id].enabled == want ==> after[id]
                == channels[id] && switching_steps(channels, id, want).len() == 0
            &&& channels.contains_key(id) && channels[id].enabled && !want ==> switching_steps(
                channels,
                id,
                want,
            ) == seq![model::StepView::Stop { id }]
            &&& channels.contains_key(id) && channels[id].valid() && !channels[id].enabled && want
                ==> switching_steps(channels, id, want) == seq![
                model::StepView::Spawn { id, hls_url: channels[id].hls_url },
            ]
            &&& !channels.contains_key(id) ==> after == channels && switching_steps(
                channels,
                id,
                want,
            ).len() == 0 && missing(channels, id) == Some(RegistryError::NotFound)
        }),
{
}

/// An answer is shown in full.
pub proof fn law_answers_are_shown_in_full(reply: ApiReply)
    ensures
        reply@.status == reply.status,
        reply@.body == reply.body@,
{
}

} // verus!
