//! MPEG-TS → [`AccessUnit`] bridge for the CMAF packager.

use crate::demux::screen;
use crate::demux::screen::{DemuxError, Screen};
use crate::demux::types::{AccessUnit, MediaSample, TIMESCALE};
use transmux::{CodecConfig, DemuxEvent, StreamingTsDemux};
use vstd::prelude::*;

verus! {

/// Media timescale used by TS video access units (90 kHz).
pub const VIDEO_TS_TIMESCALE: u32 = 90_000;

/// The number of values of thirty-two bits.
pub const TWO_POW_32: u64 = 0x1_0000_0000;

/// The codec of a track.
#[derive(Debug, Clone, Copy, PartialEq, Eq, Structural)]
pub enum TrackCodec {
    /// H.264 video.
    Avc,
    /// AAC audio.
    Aac { sample_rate: u32 },
    /// Any other.
    Other,
}

/// One event of the demultiplexer.
#[derive(Debug)]
pub enum TsEvent {
    /// A track was found.
    TrackAdded { track_id: u32, codec: TrackCodec, config: CodecConfig },
    /// A sample of a track is complete.
    Sample { track_id: u32, sample: MediaSample },
    /// The source said that its clock or its counters jump.
    Discontinuity,
    /// Anything else.
    Other,
}

/// What a demultiplexer was given.
pub ghost enum DemuxInput {
    /// These bytes.
    Bytes(Seq<u8>),
    /// The end of the input.
    End,
}

/// What is known of what a demultiplexer was given.
pub open spec fn screened(history: Seq<DemuxInput>) -> screen::ScreenView
    decreases history.len(),
{
    if history.len() == 0 {
        screen::blank()
    } else {
        match history.last() {
            DemuxInput::Bytes(data) => screen::taken(screened(history.drop_last()), data),
            DemuxInput::End => screen::ended(screened(history.drop_last())),
        }
    }
}

/// Why what a demultiplexer was given is not safe for it; nothing where it is.
pub open spec fn refused(history: Seq<DemuxInput>) -> Option<DemuxError> {
    screen::refusal(screened(history))
}

proof fn lemma_screened_next(history: Seq<DemuxInput>, data: Seq<u8>)
    ensures
        screened(history.push(DemuxInput::Bytes(data))) == screen::taken(screened(history), data),
        screened(history.push(DemuxInput::End)) == screen::ended(screened(history)),
{
    assert(history.push(DemuxInput::Bytes(data)).drop_last() =~= history);
    assert(history.push(DemuxInput::End).drop_last() =~= history);
}

/// `transmux::StreamingTsDemux`.
#[verifier::external_type_specification]
#[verifier::external_body]
pub struct ExStreamingTsDemux(transmux::StreamingTsDemux);

/// The events that wait in the queue of a `transmux::StreamingTsDemux`, the oldest first.
pub uninterp spec fn queued(demux: StreamingTsDemux) -> Seq<TsEvent>;

/// What a `transmux::StreamingTsDemux` was given so far.
pub uninterp spec fn given(demux: StreamingTsDemux) -> Seq<DemuxInput>;

/// The events that `transmux::StreamingTsDemux::feed` adds for these bytes, after what the
/// demultiplexer was given before.
pub uninterp spec fn fed_events(before: Seq<DemuxInput>, data: Seq<u8>) -> Seq<TsEvent>;

/// The events that `transmux::StreamingTsDemux::finish` adds after what the demultiplexer was
/// given before.
pub uninterp spec fn end_events(before: Seq<DemuxInput>) -> Seq<TsEvent>;

/// `transmux::StreamingTsDemux::new` makes a demultiplexer that was given nothing and has no
/// event.
#[verifier::external_body]
fn new_demux() -> (demux: StreamingTsDemux)
    ensures
        queued(demux).len() == 0,
        given(demux).len() == 0,
{
    StreamingTsDemux::new()
}

/// `transmux::StreamingTsDemux::feed` takes bytes of any length and appends the events that
/// they complete to its queue. Which these are depends on what was given before and on the
/// bytes alone.
///
/// It exhausts the stack on many empty units of a video stream one after the other, and its
/// arithmetic overflows on a message with more than 255 zeros in a row and on a sequence parameter
/// set with overlong codes, bit depths or offsets. Inputs with video that may hold any of these
/// are left out, in the packets that it finds among the bytes: it takes as their beginning the
/// first of five sync bytes that stand 188 or 204 bytes apart, and looks for five again where one
/// is missing.
#[verifier::external_body]
fn feed_demux(demux: &mut StreamingTsDemux, data: &[u8])
    requires
        refused(given(*old(demux)).push(DemuxInput::Bytes(data@))) is None,
    ensures
        given(*final(demux)) == given(*old(demux)).push(DemuxInput::Bytes(data@)),
        queued(*final(demux)) == queued(*old(demux)) + fed_events(given(*old(demux)), data@),
{
    demux.feed(data);
}

/// `transmux::StreamingTsDemux::finish` completes what is pending and appends the events of it
/// to its queue. Which these are depends on what was given before alone. It decodes what is
/// pending as `feed` does, so inputs on which it could fail are left out in the same way.
#[verifier::external_body]
fn finish_demux(demux: &mut StreamingTsDemux)
    requires
        refused(given(*old(demux)).push(DemuxInput::End)) is None,
    ensures
        given(*final(demux)) == given(*old(demux)).push(DemuxInput::End),
        queued(*final(demux)) == queued(*old(demux)) + end_events(given(*old(demux))),
{
    demux.finish();
}

/// `transmux::StreamingTsDemux::poll_event` takes the oldest event out of its queue, where
/// there is one. The event is handed on with its fields moved into types of this crate.
#[verifier::external_body]
fn poll_demux(demux: &mut StreamingTsDemux) -> (event: Option<TsEvent>)
    ensures
        given(*final(demux)) == given(*old(demux)),
        match event {
            Some(ev) => queued(*old(demux)).len() > 0 && ev == queued(*old(demux))[0] && queued(
                *final(demux),
            ) == queued(*old(demux)).drop_first(),
            None => queued(*old(demux)).len() == 0 && queued(*final(demux)) == queued(*old(demux)),
        },
{
    demux.poll_event().map(|event| match event {
        DemuxEvent::TrackAdded(track) => TsEvent::TrackAdded {
            track_id: track.spec.track_id,
            codec: match &track.spec.config {
                CodecConfig::Avc { .. } => TrackCodec::Avc,
                CodecConfig::Aac { sample_rate: r, .. } => TrackCodec::Aac { sample_rate: *r },
                _ => TrackCodec::Other,
            },
            config: track.spec.config,
        },
        DemuxEvent::Sample { track_id, sample: s } => TsEvent::Sample { track_id, sample:
            MediaSample { duration: s.duration, composition_offset: s.composition_offset, coded: s } },
        DemuxEvent::Discontinuity { .. } => TsEvent::Discontinuity,
        _ => TsEvent::Other,
    })
}

/// `n` reduced to thirty-two bits.
pub open spec fn wrapped_u32(n: int) -> u32 {
    (n % TWO_POW_32 as int) as u32
}

/// `n` reduced to thirty-two bits, the highest of them counting as a sign.
pub open spec fn wrapped_i32(n: int) -> i32 {
    let low = n % TWO_POW_32 as int;
    if low >= 0x8000_0000 {
        (low - TWO_POW_32) as i32
    } else {
        low as i32
    }
}

/// `a` divided by `b`, rounded towards zero.
pub open spec fn quotient(a: int, b: int) -> int {
    if a >= 0 {
        a / b
    } else {
        -((-a) / b)
    }
}

/// `from`, or one where it is zero.
pub open spec fn divisor(from: u32) -> int {
    if from == 0 {
        1
    } else {
        from as int
    }
}

/// Ticks of one timescale counted in another, rounded down.
pub open spec fn rescaled_u32(ticks: u32, from: u32, to: u32) -> u32 {
    wrapped_u32((ticks * to) / divisor(from))
}

/// Signed ticks of one timescale counted in another, rounded towards zero.
pub open spec fn rescaled_i32(ticks: i32, from: u32, to: u32) -> i32 {
    wrapped_i32(quotient(ticks * to, divisor(from)))
}

/// A sample with its timing counted in another timescale. It lasts at least one tick there.
pub open spec fn rescaled(sample: MediaSample, from: u32, to: u32) -> MediaSample {
    if from == 0 || from == to {
        sample
    } else {
        MediaSample {
            duration: if rescaled_u32(sample.duration, from, to) == 0 {
                1
            } else {
                rescaled_u32(sample.duration, from, to)
            },
            composition_offset: rescaled_i32(sample.composition_offset, from, to),
            ..sample
        }
    }
}

proof fn lemma_product_fits(ticks: int, to: int)
    requires
        0 <= ticks <= 0xffff_ffff,
        0 <= to <= 0xffff_ffff,
    ensures
        0 <= ticks * to <= 0xffff_fffe_0000_0001,
{
    assert(0 <= ticks * to <= 0xffff_ffff * 0xffff_ffff) by (nonlinear_arith)
        requires
            0 <= ticks <= 0xffff_ffff,
            0 <= to <= 0xffff_ffff,
    ;
}

/// Count ticks in another timescale.
pub fn rescale_u32(ticks: u32, from: u32, to: u32) -> (scaled: u32)
    ensures
        scaled == rescaled_u32(ticks, from, to),
{
    proof {
        lemma_product_fits(ticks as int, to as int);
    }
    let by: u64 = if from == 0 {
        1
    } else {
        from as u64
    };
    let whole: u64 = ticks as u64 * to as u64 / by;
    (whole % TWO_POW_32) as u32
}

/// Count signed ticks in another timescale.
pub fn rescale_i32(ticks: i32, from: u32, to: u32) -> (scaled: i32)
    ensures
        scaled == rescaled_i32(ticks, from, to),
{
    let size: u64 = if ticks < 0 {
        (-(ticks as i64)) as u64
    } else {
        ticks as u64
    };
    proof {
        lemma_product_fits(size as int, to as int);
        assert(ticks < 0 ==> -(ticks * to) == size * to) by (nonlinear_arith)
            requires
                ticks < 0 ==> size == -ticks,
        ;
        assert(ticks < 0 ==> ticks * to <= 0) by (nonlinear_arith)
            requires
                to >= 0,
        ;
    }
    let by: u64 = if from == 0 {
        1
    } else {
        from as u64
    };
    let whole: u64 = size * to as u64 / by;
    let low: u64 = whole % TWO_POW_32;
    let bits: u64 = if ticks < 0 && low > 0 {
        TWO_POW_32 - low
    } else {
        low
    };
    proof {
        lemma_negated_remainder(whole as int, low as int);
    }
    if bits >= 0x8000_0000 {
        (bits as i64 - 0x1_0000_0000) as i32
    } else {
        bits as i32
    }
}

proof fn lemma_negated_remainder(whole: int, low: int)
    requires
        0 <= whole,
        low == whole % 0x1_0000_0000,
    ensures
        (-whole) % 0x1_0000_0000 == (if low > 0 {
            0x1_0000_0000 - low
        } else {
            0
        }),
{
}

/// Rescale sample duration / composition offset into `to` timescale.
pub fn rescale_sample(sample: MediaSample, from: u32, to: u32) -> (scaled: MediaSample)
    ensures
        scaled == rescaled(sample, from, to),
{
    if from == 0 || from == to {
        return sample;
    }
    let duration: u32 = rescale_u32(sample.duration, from, to);
    MediaSample {
        duration: if duration == 0 {
            1
        } else {
            duration
        },
        composition_offset: rescale_i32(sample.composition_offset, from, to),
        coded: sample.coded,
    }
}

/// Incremental MPEG-TS demux that emits packager-ready access units.
///
/// Sample timing is rescaled to [`TIMESCALE`] (milliseconds) so that the packager can keep a
/// single movie timescale.
pub struct TsDemuxBridge {
    inner: StreamingTsDemux,
    screen: Screen,
    video_pid_track: Option<u32>,
    audio_pid_track: Option<u32>,
    audio_sample_rate: u32,
    saw_discontinuity: bool,
}

/// What a [`TsDemuxBridge`] knows of its tracks.
pub ghost struct BridgeState {
    /// The track whose samples are video.
    pub video: Option<u32>,
    /// The track whose samples are audio.
    pub audio: Option<u32>,
    /// The timescale of the audio track.
    pub sample_rate: u32,
    /// A discontinuity was seen and not asked for yet.
    pub discontinuity: bool,
}

impl View for TsDemuxBridge {
    type V = BridgeState;

    closed spec fn view(&self) -> BridgeState {
        BridgeState {
            video: self.video_pid_track,
            audio: self.audio_pid_track,
            sample_rate: self.audio_sample_rate,
            discontinuity: self.saw_discontinuity,
        }
    }
}

/// Nothing is known.
pub open spec fn no_tracks() -> BridgeState {
    BridgeState { video: None, audio: None, sample_rate: 0, discontinuity: false }
}

/// A sample rate, or one where it is zero.
pub open spec fn at_least_one(rate: u32) -> u32 {
    if rate == 0 {
        1
    } else {
        rate
    }
}

/// What an event makes of the state, and the access unit that it gives.
pub open spec fn handled(state: BridgeState, event: TsEvent) -> (BridgeState, Option<AccessUnit>) {
    match event {
        TsEvent::TrackAdded { track_id, codec, config } => match codec {
            TrackCodec::Avc => (
                BridgeState { video: Some(track_id), ..state },
                Some(AccessUnit::VideoConfig { config }),
            ),
            TrackCodec::Aac { sample_rate } => (
                BridgeState {
                    audio: Some(track_id),
                    sample_rate: at_least_one(sample_rate),
                    ..state
                },
                Some(AccessUnit::AudioConfig { config }),
            ),
            TrackCodec::Other => (state, None),
        },
        TsEvent::Sample { track_id, sample } => (
            state,
            if state.video == Some(track_id) {
                Some(AccessUnit::VideoSample(rescaled(sample, VIDEO_TS_TIMESCALE, TIMESCALE)))
            } else if state.audio == Some(track_id) {
                Some(
                    AccessUnit::AudioSample(
                        rescaled(sample, at_least_one(state.sample_rate), TIMESCALE),
                    ),
                )
            } else {
                None
            },
        ),
        TsEvent::Discontinuity => (BridgeState { discontinuity: true, ..state }, None),
        TsEvent::Other => (state, None),
    }
}

/// What the first `n` events make of the state, and the access units that they give.
pub open spec fn drained(state: BridgeState, events: Seq<TsEvent>, n: int) -> (
    BridgeState,
    Seq<AccessUnit>,
)
    decreases n,
{
    if n <= 0 {
        (state, seq![])
    } else {
        let (before, units) = drained(state, events, n - 1);
        let (after, unit) = handled(before, events[n - 1]);
        (
            after,
            match unit {
                Some(u) => units.push(u),
                None => units,
            },
        )
    }
}

impl TsDemuxBridge {
    /// What the demultiplexer was given so far.
    pub closed spec fn history(&self) -> Seq<DemuxInput> {
        given(self.inner)
    }

    /// The events that wait to be handled.
    pub closed spec fn pending(&self) -> Seq<TsEvent> {
        queued(self.inner)
    }

    /// The screen has read what the demultiplexer was given, and refuses nothing of it.
    pub closed spec fn screened(&self) -> bool {
        &&& screen::is_whole(self.screen@)
        &&& self.screen@ == screened(self.history())
        &&& refused(self.history()) is None
    }

    /// No event waits to be handled, and what the demultiplexer was given is safe for it.
    pub open spec fn wf(&self) -> bool {
        self.pending().len() == 0 && self.screened()
    }

    /// Create an empty demuxer.
    pub fn new() -> (bridge: Self)
        ensures
            bridge.wf(),
            bridge.history() == Seq::<DemuxInput>::empty(),
            bridge@ == no_tracks(),
    {
        let inner: StreamingTsDemux = new_demux();
        assert(given(inner) =~= Seq::empty());
        let bridge: TsDemuxBridge = TsDemuxBridge {
            inner,
            screen: Screen::new(),
            video_pid_track: None,
            audio_pid_track: None,
            audio_sample_rate: 0,
            saw_discontinuity: false,
        };
        proof {
            screen::law_stream_without_video_is_not_refused(screen::blank());
        }
        bridge
    }

    /// True if a TS discontinuity indicator was seen since last clear.
    pub fn take_discontinuity(&mut self) -> (seen: bool)
        ensures
            seen == old(self)@.discontinuity,
            final(self)@ == (BridgeState { discontinuity: false, ..old(self)@ }),
            final(self).history() == old(self).history(),
            final(self).pending() == old(self).pending(),
            final(self).screened() == old(self).screened(),
    {
        let seen: bool = self.saw_discontinuity;
        self.saw_discontinuity = false;
        seen
    }

    /// Feed MPEG-TS bytes of any length and drain completed access units. A stream that is not
    /// safe to demultiplex is refused, and the bridge starts anew.
    pub fn feed(&mut self, data: &[u8]) -> (out: Result<Vec<AccessUnit>, DemuxError>)
        requires
            old(self).wf(),
        ensures
            final(self).wf(),
            match refused(old(self).history().push(DemuxInput::Bytes(data@))) {
                None => {
                    let events = fed_events(old(self).history(), data@);
                    &&& out matches Ok(units)
                    &&& (final(self)@, units@) == drained(old(self)@, events, events.len() as int)
                    &&& final(self).history() == old(self).history().push(
                        DemuxInput::Bytes(data@),
                    )
                },
                Some(e) => {
                    &&& out matches Err(error)
                    &&& error == e
                    &&& final(self)@ == no_tracks()
                    &&& final(self).history() == Seq::<DemuxInput>::empty()
                },
            },
    {
        proof {
            lemma_screened_next(self.history(), data@);
        }
        self.screen.take(data);
        if let Some(e) = self.screen.refused() {
            *self = TsDemuxBridge::new();
            return Err(e);
        }
        feed_demux(&mut self.inner, data);
        assert(self.pending() =~= fed_events(old(self).history(), data@));
        Ok(self.drain())
    }

    /// Flush trailing partial access units at end of a `.ts` segment / session. A stream that is
    /// not safe to demultiplex up to its end is refused, and the bridge starts anew.
    pub fn finish_segment(&mut self) -> (out: Result<Vec<AccessUnit>, DemuxError>)
        requires
            old(self).wf(),
        ensures
            final(self).wf(),
            match refused(old(self).history().push(DemuxInput::End)) {
                None => {
                    let events = end_events(old(self).history());
                    &&& out matches Ok(units)
                    &&& (final(self)@, units@) == drained(old(self)@, events, events.len() as int)
                    &&& final(self).history() == old(self).history().push(DemuxInput::End)
                },
                Some(e) => {
                    &&& out matches Err(error)
                    &&& error == e
                    &&& final(self)@ == no_tracks()
                    &&& final(self).history() == Seq::<DemuxInput>::empty()
                },
            },
    {
        proof {
            lemma_screened_next(self.history(), Seq::empty());
        }
        self.screen.end();
        if let Some(e) = self.screen.refused() {
            *self = TsDemuxBridge::new();
            return Err(e);
        }
        finish_demux(&mut self.inner);
        assert(self.pending() =~= end_events(old(self).history()));
        Ok(self.drain())
    }

    fn drain(&mut self) -> (out: Vec<AccessUnit>)
        requires
            old(self).screened(),
        ensures
            final(self).wf(),
            final(self).history() == old(self).history(),
            (final(self)@, out@) == drained(
                old(self)@,
                old(self).pending(),
                old(self).pending().len() as int,
            ),
    {
        let ghost events = self.pending();
        let ghost start = self@;
        let ghost mut n: int = 0;
        let mut out: Vec<AccessUnit> = Vec::new();
        let mut more: bool = true;
        assert(events.skip(0) =~= events);
        while more
            invariant
                0 <= n <= events.len(),
                self.pending() == events.skip(n),
                self.history() == old(self).history(),
                self.screened(),
                (self@, out@) == drained(start, events, n),
                !more ==> n == events.len(),
            decreases
                events.len() - n + if more {
                    1int
                } else {
                    0
                },
        {
            match poll_demux(&mut self.inner) {
                Some(event) => {
                    assert(event == events[n]);
                    assert(events.skip(n).drop_first() =~= events.skip(n + 1));
                    self.handle_event(event, &mut out);
                    proof {
                        n = n + 1;
                    }
                },
                None => {
                    more = false;
                },
            }
        }
        out
    }

    /// Take up one event of the demultiplexer.
    pub fn handle_event(&mut self, event: TsEvent, out: &mut Vec<AccessUnit>)
        ensures
            final(self)@ == handled(old(self)@, event).0,
            final(self).history() == old(self).history(),
            final(self).pending() == old(self).pending(),
            final(self).screened() == old(self).screened(),
            final(out)@ == (match handled(old(self)@, event).1 {
                Some(unit) => old(out)@.push(unit),
                None => old(out)@,
            }),
    {
        match event {
            TsEvent::TrackAdded { track_id, codec, config } => match codec {
                TrackCodec::Avc => {
                    self.video_pid_track = Some(track_id);
                    out.push(AccessUnit::VideoConfig { config });
                },
                TrackCodec::Aac { sample_rate } => {
                    self.audio_pid_track = Some(track_id);
                    self.audio_sample_rate = if sample_rate == 0 {
                        1
                    } else {
                        sample_rate
                    };
                    out.push(AccessUnit::AudioConfig { config });
                },
                TrackCodec::Other => {},
            },
            TsEvent::Sample { track_id, sample } => {
                if is_track(self.video_pid_track, track_id) {
                    out.push(
                        AccessUnit::VideoSample(
                            rescale_sample(sample, VIDEO_TS_TIMESCALE, TIMESCALE),
                        ),
                    );
                } else if is_track(self.audio_pid_track, track_id) {
                    let from: u32 = if self.audio_sample_rate == 0 {
                        1
                    } else {
                        self.audio_sample_rate
                    };
                    out.push(AccessUnit::AudioSample(rescale_sample(sample, from, TIMESCALE)));
                }
            },
            TsEvent::Discontinuity => {
                self.saw_discontinuity = true;
            },
            TsEvent::Other => {},
        }
    }
}

impl Default for TsDemuxBridge {
    fn default() -> (bridge: Self)
        ensures
            bridge.wf(),
            bridge.history() == Seq::<DemuxInput>::empty(),
            bridge@ == no_tracks(),
    {
        TsDemuxBridge::new()
    }
}

fn is_track(track: Option<u32>, track_id: u32) -> (yes: bool)
    ensures
        yes == (track == Some(track_id)),
{
    match track {
        Some(id) => id == track_id,
        None => false,
    }
}

proof fn lemma_screened_is_whole(history: Seq<DemuxInput>)
    ensures
        screen::is_whole(screened(history)),
    decreases history.len(),
{
    if history.len() > 0 {
        lemma_screened_is_whole(history.drop_last());
        match history.last() {
            DemuxInput::Bytes(data) => {
                screen::law_refused_stream_stays_refused(screened(history.drop_last()), data);
            },
            DemuxInput::End => {
                screen::law_refused_stream_stays_refused(
                    screened(history.drop_last()),
                    Seq::empty(),
                );
            },
        }
    }
}

/// What is refused stays refused: nothing that comes later, and no end of the input, makes it
/// safe.
pub proof fn law_refused_input_stays_refused(history: Seq<DemuxInput>, data: Seq<u8>)
    requires
        refused(history) is Some,
    ensures
        refused(history.push(DemuxInput::Bytes(data))) is Some,
        refused(history.push(DemuxInput::End)) is Some,
{
    lemma_screened_is_whole(history);
    lemma_screened_next(history, data);
    screen::law_refused_stream_stays_refused(screened(history), data);
}

/// Only H.264 video and AAC audio come through: a track of another codec gives nothing, and
/// neither do its samples.
pub proof fn law_other_codecs_give_nothing(
    state: BridgeState,
    track_id: u32,
    config: CodecConfig,
    sample: MediaSample,
)
    requires
        state.video != Some(track_id),
        state.audio != Some(track_id),
    ensures
        handled(state, TsEvent::TrackAdded { track_id, codec: TrackCodec::Other, config }) == (
            state,
            None::<AccessUnit>,
        ),
        handled(state, TsEvent::Sample { track_id, sample }) == (state, None::<AccessUnit>),
{
}

/// Once a video track was found its samples come through, counted in milliseconds.
pub proof fn law_video_samples_come_through(
    state: BridgeState,
    track_id: u32,
    config: CodecConfig,
    sample: MediaSample,
)
    ensures
        ({
            let (found, first) = handled(
                state,
                TsEvent::TrackAdded { track_id, codec: TrackCodec::Avc, config },
            );
            &&& first == Some(AccessUnit::VideoConfig { config })
            &&& handled(found, TsEvent::Sample { track_id, sample }).1 == Some(
                AccessUnit::VideoSample(rescaled(sample, VIDEO_TS_TIMESCALE, TIMESCALE)),
            )
        }),
{
}

/// Once an audio track was found its samples come through, counted in milliseconds, unless the
/// video track has the same number.
pub proof fn law_audio_samples_come_through(
    state: BridgeState,
    track_id: u32,
    sample_rate: u32,
    config: CodecConfig,
    sample: MediaSample,
)
    requires
        state.video != Some(track_id),
        sample_rate > 0,
    ensures
        ({
            let (found, first) = handled(
                state,
                TsEvent::TrackAdded { track_id, codec: TrackCodec::Aac { sample_rate }, config },
            );
            &&& first == Some(AccessUnit::AudioConfig { config })
            &&& handled(found, TsEvent::Sample { track_id, sample }).1 == Some(
                AccessUnit::AudioSample(rescaled(sample, sample_rate, TIMESCALE)),
            )
        }),
{
}

/// A sample that comes through keeps its content, and lasts at least one tick where it is
/// counted anew.
pub proof fn law_rescaled_sample_keeps_its_content(sample: MediaSample, from: u32, to: u32)
    ensures
        rescaled(sample, from, to).coded == sample.coded,
        from != 0 && from != to ==> rescaled(sample, from, to).duration >= 1,
{
}

/// Ticks counted in a coarser timescale never overflow, and are the exact count rounded down.
pub proof fn law_coarser_ticks_are_exact(ticks: u32, from: u32, to: u32)
    requires
        0 < from,
        to <= from,
    ensures
        rescaled_u32(ticks, from, to) * from <= ticks * to,
        ticks * to < (rescaled_u32(ticks, from, to) + 1) * from,
        rescaled_u32(ticks, from, to) <= ticks,
{
    let q = (ticks * to) / from as int;
    assert(q * from <= ticks * to < (q + 1) * from) by (nonlinear_arith)
        requires
            q == (ticks * to) / from as int,
            from > 0,
    ;
    assert(0 <= q <= ticks) by (nonlinear_arith)
        requires
            q * from <= ticks * to < (q + 1) * from,
            to <= from,
            from > 0,
            ticks >= 0,
            to >= 0,
    ;
}

/// Audio and video are counted alike: two stretches of the same length in seconds have the same
/// length in milliseconds.
pub proof fn law_equal_times_rescale_alike(a: u32, from_a: u32, b: u32, from_b: u32, to: u32)
    requires
        0 < from_a,
        0 < from_b,
        a * from_b == b * from_a,
    ensures
        (a * to) / from_a as int == (b * to) / from_b as int,
{
    let p = (a * to) / from_a as int;
    let q = (b * to) / from_b as int;
    assert(p * from_a <= a * to < (p + 1) * from_a) by (nonlinear_arith)
        requires
            p == (a * to) / from_a as int,
            from_a > 0,
    ;
    assert(q * from_b <= b * to < (q + 1) * from_b) by (nonlinear_arith)
        requires
            q == (b * to) / from_b as int,
            from_b > 0,
    ;
    lemma_same_quotient(a as int, from_a as int, b as int, from_b as int, to as int, p, q);
    lemma_same_quotient(b as int, from_b as int, a as int, from_a as int, to as int, q, p);
}

proof fn lemma_same_quotient(a: int, m: int, b: int, n: int, to: int, p: int, q: int)
    requires
        0 < m,
        0 < n,
        a * n == b * m,
        p * m <= a * to,
        b * to < (q + 1) * n,
    ensures
        p <= q,
{
    assert(p * m * n <= a * to * n) by (nonlinear_arith)
        requires
            p * m <= a * to,
            n > 0,
    ;
    assert(b * to * m < (q + 1) * n * m) by (nonlinear_arith)
        requires
            b * to < (q + 1) * n,
            m > 0,
    ;
    assert(a * to * n == b * to * m) by (nonlinear_arith)
        requires
            a * n == b * m,
    ;
    assert(p < q + 1) by (nonlinear_arith)
        requires
            p * m * n < (q + 1) * n * m,
            m > 0,
            n > 0,
    ;
}

proof fn lemma_quotient_bounds(n: int, by: int, limit: int)
    requires
        0 <= n,
        0 < by,
        n < limit * by,
    ensures
        0 <= n / by < limit,
        (n / by) * by <= n < (n / by + 1) * by,
{
    let q = n / by;
    assert(q * by <= n < (q + 1) * by && 0 <= q) by (nonlinear_arith)
        requires
            q == n / by,
            by > 0,
            n >= 0,
    ;
    assert(q < limit) by (nonlinear_arith)
        requires
            q * by <= n,
            n < limit * by,
            by > 0,
    ;
}

/// `r` is `ticks * to / from`, rounded towards zero.
pub open spec fn is_scaled(ticks: int, from: int, to: int, r: int) -> bool {
    if ticks >= 0 {
        &&& 0 <= r
        &&& r * from <= ticks * to
        &&& ticks * to < (r + 1) * from
    } else {
        &&& r <= 0
        &&& (-r) * from <= (-ticks) * to
        &&& (-ticks) * to < (-r + 1) * from
    }
}

/// The timing of a sample counted in another timescale is the exact time, rounded towards zero: its
/// duration, which lasts at least one tick, and its composition offset, which keeps its sign. Its
/// content stays. This holds as long as the count fits the field; in a coarser timescale it always
/// does.
pub proof fn law_rescaled_sample_keeps_its_time(sample: MediaSample, from: u32, to: u32)
    requires
        0 < from,
        from != to,
        sample.duration * to < 0x1_0000_0000 * from,
        -0x8000_0000 * from < sample.composition_offset * to < 0x8000_0000 * from,
    ensures
        ({
            let r = rescaled(sample, from, to);
            &&& r.coded == sample.coded
            &&& sample.duration * to < from ==> r.duration == 1
            &&& sample.duration * to >= from ==> is_scaled(
                sample.duration as int,
                from as int,
                to as int,
                r.duration as int,
            )
            &&& is_scaled(
                sample.composition_offset as int,
                from as int,
                to as int,
                r.composition_offset as int,
            )
        }),
{
    let d = sample.duration as int;
    let o = sample.composition_offset as int;
    let f = from as int;
    let t = to as int;
    assert(0 <= d * t) by (nonlinear_arith)
        requires
            d >= 0,
            t >= 0,
    ;
    lemma_quotient_bounds(d * t, f, 0x1_0000_0000);
    let q = (d * t) / f;
    assert(d * t < f ==> q == 0) by (nonlinear_arith)
        requires
            q * f <= d * t,
            f > 0,
            q >= 0,
    ;
    assert(d * t >= f ==> q >= 1) by (nonlinear_arith)
        requires
            d * t < (q + 1) * f,
            f > 0,
    ;
    assert(rescaled_u32(sample.duration, from, to) == q);
    if o >= 0 {
        assert(0 <= o * t) by (nonlinear_arith)
            requires
                o >= 0,
                t >= 0,
        ;
        lemma_quotient_bounds(o * t, f, 0x8000_0000);
        assert(rescaled_i32(sample.composition_offset, from, to) == (o * t) / f);
    } else {
        assert(-(o * t) == (-o) * t && o * t <= 0) by (nonlinear_arith)
            requires
                o < 0,
                t >= 0,
        ;
        lemma_quotient_bounds((-o) * t, f, 0x8000_0000);
        let w = ((-o) * t) / f;
        lemma_small_wraps(w);
        if o * t == 0 {
            assert(w == 0);
        }
        assert(rescaled_i32(sample.composition_offset, from, to) == -w);
    }
}

proof fn lemma_small_wraps(w: int)
    requires
        0 <= w < 0x8000_0000,
    ensures
        wrapped_i32(-w) == -w,
        wrapped_i32(w) == w,
{
    lemma_negated_remainder(w, w);
}

/// A sample that is counted in the right timescale already, or in none, stays as it is.
pub proof fn law_sample_in_its_timescale_is_kept(sample: MediaSample, from: u32, to: u32)
    requires
        from == 0 || from == to,
    ensures
        rescaled(sample, from, to) == sample,
{
}

/// A sample of the video track is counted in milliseconds: ninety ticks of its clock are one.
pub proof fn law_video_is_counted_in_milliseconds(
    state: BridgeState,
    track_id: u32,
    sample: MediaSample,
)
    requires
        state.video == Some(track_id),
    ensures
        handled(state, TsEvent::Sample { track_id, sample }).0 == state,
        handled(state, TsEvent::Sample { track_id, sample }).1 matches Some(
            AccessUnit::VideoSample(unit),
        ) && {
            &&& unit.coded == sample.coded
            &&& sample.duration < 90 ==> unit.duration == 1
            &&& sample.duration >= 90 ==> unit.duration == sample.duration as int / 90
            &&& sample.composition_offset >= 0 ==> unit.composition_offset
                == sample.composition_offset as int / 90
            &&& sample.composition_offset < 0 ==> unit.composition_offset == -(
            -(sample.composition_offset as int) / 90)
        },
{
    law_rescaled_sample_keeps_its_time(sample, 90_000, 1_000);
}

/// A sample of the audio track is counted in milliseconds: its clock ticks as often in a second as
/// the track has samples.
pub proof fn law_audio_is_counted_in_milliseconds(
    state: BridgeState,
    track_id: u32,
    sample: MediaSample,
)
    requires
        state.video != Some(track_id),
        state.audio == Some(track_id),
        state.sample_rate > 1_000,
    ensures
        handled(state, TsEvent::Sample { track_id, sample }).0 == state,
        handled(state, TsEvent::Sample { track_id, sample }).1 matches Some(
            AccessUnit::AudioSample(unit),
        ) && {
            &&& unit.coded == sample.coded
            &&& sample.duration * 1_000 < state.sample_rate ==> unit.duration == 1
            &&& sample.duration * 1_000 >= state.sample_rate ==> is_scaled(
                sample.duration as int,
                state.sample_rate as int,
                1_000,
                unit.duration as int,
            )
            &&& is_scaled(
                sample.composition_offset as int,
                state.sample_rate as int,
                1_000,
                unit.composition_offset as int,
            )
        },
{
    law_rescaled_sample_keeps_its_time(sample, state.sample_rate, 1_000);
}

/// What a found track changes: the video or the audio track and nothing else, and its configuration
/// comes through. The last track of a kind counts. Samples and other events change no track, and
/// only a discontinuity raises the flag.
pub proof fn law_tracks_are_taken_up(
    state: BridgeState,
    track_id: u32,
    rate: u32,
    config: CodecConfig,
    sample: MediaSample,
)
    ensures
        handled(state, TsEvent::TrackAdded { track_id, codec: TrackCodec::Avc, config }) == (
            (BridgeState {
                video: Some(track_id),
                audio: state.audio,
                sample_rate: state.sample_rate,
                discontinuity: state.discontinuity,
            }),
            Some(AccessUnit::VideoConfig { config }),
        ),
        handled(
            state,
            TsEvent::TrackAdded { track_id, codec: TrackCodec::Aac { sample_rate: rate }, config },
        ) == (
            (BridgeState {
                video: state.video,
                audio: Some(track_id),
                sample_rate: if rate == 0 {
                    1
                } else {
                    rate
                },
                discontinuity: state.discontinuity,
            }),
            Some(AccessUnit::AudioConfig { config }),
        ),
        handled(state, TsEvent::Sample { track_id, sample }).0 == state,
        handled(state, TsEvent::Other) == (state, None::<AccessUnit>),
        handled(state, TsEvent::Discontinuity) == (
            (BridgeState {
                video: state.video,
                audio: state.audio,
                sample_rate: state.sample_rate,
                discontinuity: true,
            }),
            None::<AccessUnit>,
        ),
{
}

/// Events are handled one after the other, each from the state that the one before left, and the
/// access units come out in their order: handling events in two parts is handling them in one go,
/// and a single event gives what it gives alone.
pub proof fn law_events_are_handled_in_order(
    state: BridgeState,
    a: Seq<TsEvent>,
    b: Seq<TsEvent>,
    event: TsEvent,
)
    ensures
        drained(state, Seq::empty(), 0) == (state, Seq::<AccessUnit>::empty()),
        ({
            let (after, unit) = handled(state, event);
            drained(state, seq![event], 1) == (
                after,
                match unit {
                    Some(u) => seq![u],
                    None => seq![],
                },
            )
        }),
        ({
            let (mid, first) = drained(state, a, a.len() as int);
            let (end, second) = drained(mid, b, b.len() as int);
            drained(state, a + b, (a + b).len() as int) == (end, first + second)
        }),
{
    reveal_with_fuel(drained, 2);
    let (after, unit) = handled(state, event);
    if let Some(u) = unit {
        assert(Seq::<AccessUnit>::empty().push(u) =~= seq![u]);
    }
    lemma_drained_concat(state, a, b, b.len() as int);
}

proof fn lemma_drained_concat(state: BridgeState, a: Seq<TsEvent>, b: Seq<TsEvent>, m: int)
    requires
        0 <= m <= b.len(),
    ensures
        ({
            let (mid, first) = drained(state, a, a.len() as int);
            let (end, second) = drained(mid, b, m);
            drained(state, a + b, a.len() + m) == (end, first + second)
        }),
    decreases m,
{
    let (mid, first) = drained(state, a, a.len() as int);
    if m > 0 {
        lemma_drained_concat(state, a, b, m - 1);
        let (end, second) = drained(mid, b, m - 1);
        assert((a + b)[a.len() + m - 1] == b[m - 1]);
        if let Some(u) = handled(end, b[m - 1]).1 {
            assert((first + second).push(u) =~= first + second.push(u));
        }
    } else {
        lemma_drained_prefix(state, a, b, a.len() as int);
        assert(first + Seq::<AccessUnit>::empty() =~= first);
    }
}

proof fn lemma_drained_prefix(state: BridgeState, a: Seq<TsEvent>, b: Seq<TsEvent>, n: int)
    requires
        0 <= n <= a.len(),
    ensures
        drained(state, a + b, n) == drained(state, a, n),
    decreases n,
{
    if n > 0 {
        lemma_drained_prefix(state, a, b, n - 1);
        assert((a + b)[n - 1] == a[n - 1]);
    }
}

proof fn lemma_quotient_is_unique(n: int, by: int, q: int)
    requires
        0 <= n,
        0 < by,
        q * by <= n < (q + 1) * by,
    ensures
        q == n / by,
{
    let r = n / by;
    assert(r * by <= n < (r + 1) * by) by (nonlinear_arith)
        requires
            r == n / by,
            by > 0,
    ;
    assert(q == r) by (nonlinear_arith)
        requires
            r * by <= n < (r + 1) * by,
            q * by <= n < (q + 1) * by,
            by > 0,
    ;
}

/// Ticks counted in another timescale, signed or not, are the exact count rounded towards zero, of
/// which the lowest thirty-two bits are kept. A timescale of zero counts as one.
pub proof fn law_counts_keep_their_low_bits(
    ticks: u32,
    signed: i32,
    from: u32,
    to: u32,
    count: int,
    signed_count: int,
)
    requires
        ({
            let by = if from == 0 {
                1int
            } else {
                from as int
            };
            &&& is_scaled(ticks as int, by, to as int, count)
            &&& is_scaled(signed as int, by, to as int, signed_count)
        }),
    ensures
        (rescaled_u32(ticks, from, to) - count) % 0x1_0000_0000 == 0,
        (rescaled_i32(signed, from, to) - signed_count) % 0x1_0000_0000 == 0,
{
    let by = divisor(from);
    let t = to as int;
    assert(0 <= ticks * t) by (nonlinear_arith)
        requires
            t >= 0,
    ;
    lemma_quotient_is_unique(ticks * t, by, count);
    let o = signed as int;
    if o >= 0 {
        assert(0 <= o * t) by (nonlinear_arith)
            requires
                o >= 0,
                t >= 0,
        ;
        lemma_quotient_is_unique(o * t, by, signed_count);
    } else {
        assert(-(o * t) == (-o) * t && o * t <= 0) by (nonlinear_arith)
            requires
                o < 0,
                t >= 0,
        ;
        lemma_quotient_is_unique((-o) * t, by, -signed_count);
        if o * t == 0 {
            assert(signed_count == 0) by (nonlinear_arith)
                requires
                    (-signed_count) * by <= 0,
                    by > 0,
                    signed_count <= 0,
            ;
        }
    }
}

/// A sample whose timing is counted anew has the duration and the composition offset that are
/// counted so, but lasts at least one tick.
pub proof fn law_sample_is_counted_like_its_ticks(sample: MediaSample, from: u32, to: u32)
    requires
        0 < from,
        from != to,
    ensures
        ({
            let r = rescaled(sample, from, to);
            let counted = rescaled_u32(sample.duration, from, to);
            &&& counted > 0 ==> r.duration == counted
            &&& counted == 0 ==> r.duration == 1
            &&& r.composition_offset == rescaled_i32(sample.composition_offset, from, to)
        }),
{
}

/// A demultiplexer that was given nothing is refused nothing. More bytes, and the end, are looked
/// at after all that came before.
pub proof fn law_history_is_screened_in_order(history: Seq<DemuxInput>, data: Seq<u8>)
    ensures
        refused(Seq::empty()) is None,
        refused(history.push(DemuxInput::Bytes(data))) == screen::refusal(
            screen::taken(screened(history), data),
        ),
        refused(history.push(DemuxInput::End)) == screen::refusal(
            screen::ended(screened(history)),
        ),
{
    lemma_screened_next(history, data);
    screen::law_stream_without_video_is_not_refused(screen::blank());
}

} // verus!
