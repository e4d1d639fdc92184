//! Service configuration: its shape, its defaults and its validation.

use crate::double::{Double, QUARTER_BITS, TWO_BITS};
use crate::hls::playlist;
use crate::hls::playlist::is_http_url;
use crate::mpegts::streamer::MpegTsStreamOpts;
use crate::number;
use crate::number::number_text;
use crate::text;
use crate::text::{chars_of, same_text, trim};
use vstd::prelude::*;
use vstd::string::*;

verus! {

/// The longest channel id.
pub const MAX_CHANNEL_LEN: usize = 128;

/// The shortest time for which a cached file is kept, in seconds.
pub const MIN_TTL_SECS: u64 = 30;

/// Egress mode: exactly one of DASH or continuous MPEG-TS.
#[derive(Debug, Clone, Copy, PartialEq, Eq, Structural)]
pub enum OutputMode {
    Dash,
    Mpegts,
}

impl Default for OutputMode {
    fn default() -> (mode: Self)
        ensures
            mode == OutputMode::Dash,
    {
        OutputMode::Dash
    }
}

impl OutputMode {
    /// The name of the mode in the configuration.
    pub fn as_str(self) -> (name: &'static str)
        ensures
            name@ == match self {
                OutputMode::Dash => "dash"@,
                OutputMode::Mpegts => "mpegts"@,
            },
    {
        match self {
            OutputMode::Dash => "dash",
            OutputMode::Mpegts => "mpegts",
        }
    }
}

#[derive(Debug, Clone)]
pub struct Config {
    /// Listen / bind for HTTP egress (DASH or MPEG-TS).
    pub dash: DashConfig,
    pub cache: CacheConfig,
    /// `dash` or `mpegts` — mutually exclusive egress.
    pub output_mode: OutputMode,
    /// MPEG-TS streamer knobs (used when `output_mode: mpegts`).
    pub mpegts: MpegTsConfig,
    /// How ingest deals with missing and broken segments.
    pub recovery: RecoveryConfig,
    /// Global pull reconnect delay (seconds) for every channel.
    pub reconnect_secs: u64,
    pub pull: Vec<PullSource>,
}

#[derive(Debug, Clone)]
pub struct DashConfig {
    pub listen: String,
    pub port: u16,
}

/// Continuous `/live/<channel>/mpegts` settings.
#[derive(Debug, Clone, Copy, PartialEq, Eq, Structural)]
pub struct MpegTsConfig {
    /// Segments withheld from live edge when a client joins / catches up.
    /// Acts as the primary jitter buffer against delayed HLS arrivals.
    pub live_holdback_segments: u64,
    /// Do not open `/mpegts` until at least this many stitched segments exist.
    pub min_buffer_segments: u64,
    /// If client falls more than this many segments behind safe edge, jump forward.
    pub max_segment_lag: u64,
    /// Per-client outbound chunk queue depth (backpressure).
    pub send_queue: usize,
    /// Cache poll interval while waiting for the next segment.
    pub poll_interval_secs: u64,
    /// Pace HTTP egress at media realtime (uses EXTINF / stored duration).
    pub pace_egress: bool,
    /// Target interval between two slices of a paced segment, in milliseconds.
    pub egress_chunk_ms: u64,
    /// Playlist poll factor vs TARGETDURATION when filling the buffer (smaller = more aggressive).
    pub ingest_poll_factor: Double,
}

/// How ingest deals with missing and broken segments.
#[derive(Debug, Clone, Copy, PartialEq, Eq, Structural)]
pub struct RecoveryConfig {
    /// Skip corrupted packets instead of truncating a segment at the first one.
    pub ts_resync_packets: bool,
    /// Leave a gap for a segment that cannot be had, instead of ending the session.
    pub skip_missing_segments: bool,
    /// How often a failed segment fetch is repeated.
    pub segment_fetch_retries: u32,
    /// Delay between two attempts, in milliseconds.
    pub segment_fetch_retry_ms: u64,
    /// After lost sync, drop video up to the next keyframe.
    pub dash_skip_to_keyframe: bool,
    /// How many segments below the oldest in use are kept too.
    pub retention_grace_segments: u64,
}

#[derive(Debug, Clone)]
pub struct CacheConfig {
    pub dir: String,
    pub segment_duration_secs: Double,
    pub window_segments: usize,
    pub ttl_secs: Option<u64>,
    pub cleanup_interval_secs: u64,
}

/// Pull one remote HLS playlist and publish under `/live/<channel>/…`.
#[derive(Debug, Clone)]
pub struct PullSource {
    /// Source HLS URL (its path segments are origin-only, not the play name).
    pub url: String,
    /// Playback channel name (path segment under `/live/<channel>/…`), independent of the
    /// origin URL path.
    pub channel: String,
    pub enable: bool,
}

impl Default for MpegTsConfig {
    fn default() -> (config: Self)
        ensures
            config == (MpegTsConfig {
                live_holdback_segments: 6,
                min_buffer_segments: 3,
                max_segment_lag: 10,
                send_queue: 32,
                poll_interval_secs: 2,
                pace_egress: true,
                egress_chunk_ms: 250,
                ingest_poll_factor: Double { bits: QUARTER_BITS },
            }),
    {
        MpegTsConfig {
            live_holdback_segments: default_live_holdback_segments(),
            min_buffer_segments: default_min_buffer_segments(),
            max_segment_lag: default_max_segment_lag(),
            send_queue: default_mpegts_send_queue(),
            poll_interval_secs: default_mpegts_poll_interval_secs(),
            pace_egress: default_true(),
            egress_chunk_ms: default_egress_chunk_ms(),
            ingest_poll_factor: default_ingest_poll_factor(),
        }
    }
}

impl Default for RecoveryConfig {
    fn default() -> (config: Self)
        ensures
            config == (RecoveryConfig {
                ts_resync_packets: true,
                skip_missing_segments: true,
                segment_fetch_retries: 3,
                segment_fetch_retry_ms: 500,
                dash_skip_to_keyframe: true,
                retention_grace_segments: 2,
            }),
    {
        RecoveryConfig {
            ts_resync_packets: true,
            skip_missing_segments: true,
            segment_fetch_retries: 3,
            segment_fetch_retry_ms: 500,
            dash_skip_to_keyframe: true,
            retention_grace_segments: 2,
        }
    }
}

/// A listed source is pulled unless it says otherwise.
pub fn default_enable() -> (enable: bool)
    ensures
        enable,
{
    true
}

/// Two seconds.
pub fn default_segment_duration() -> (secs: Double)
    ensures
        secs == (Double { bits: TWO_BITS }),
{
    Double { bits: TWO_BITS }
}

pub fn default_window_segments() -> (n: usize)
    ensures
        n == 90,
{
    90
}

pub fn default_cleanup_interval_secs() -> (secs: u64)
    ensures
        secs == 10,
{
    10
}

pub fn default_reconnect_secs() -> (secs: u64)
    ensures
        secs == 3,
{
    3
}

pub fn default_live_holdback_segments() -> (n: u64)
    ensures
        n == 6,
{
    6
}

pub fn default_min_buffer_segments() -> (n: u64)
    ensures
        n == 3,
{
    3
}

pub fn default_max_segment_lag() -> (n: u64)
    ensures
        n == 10,
{
    10
}

pub fn default_mpegts_send_queue() -> (n: usize)
    ensures
        n == 32,
{
    32
}

pub fn default_mpegts_poll_interval_secs() -> (secs: u64)
    ensures
        secs == 2,
{
    2
}

pub fn default_true() -> (yes: bool)
    ensures
        yes,
{
    true
}

pub fn default_egress_chunk_ms() -> (ms: u64)
    ensures
        ms == 250,
{
    250
}

/// One quarter.
pub fn default_ingest_poll_factor() -> (factor: Double)
    ensures
        factor == (Double { bits: QUARTER_BITS }),
{
    Double { bits: QUARTER_BITS }
}

/// A character that a channel id may hold: an ASCII letter or digit, `-`, `_` or `.`.
pub open spec fn is_channel_char(c: char) -> bool {
    'a' <= c <= 'z' || 'A' <= c <= 'Z' || '0' <= c <= '9' || c == '-' || c == '_' || c == '.'
}

/// A channel id that is a safe path segment: a plain name, and no reference to a directory.
pub open spec fn is_channel_id(s: Seq<char>) -> bool {
    &&& 1 <= s.len() <= MAX_CHANNEL_LEN
    &&& s != "."@ && s != ".."@
    &&& forall|i: int| 0 <= i < s.len() ==> is_channel_char(#[trigger] s[i])
}

/// Return true if `channel` is a safe path segment for cache and HTTP URLs.
pub fn is_safe_channel(channel: &str) -> (safe: bool)
    ensures
        safe == is_channel_id(channel@),
{
    let x: Vec<char> = chars_of(channel);
    if x.len() == 0 || x.len() > MAX_CHANNEL_LEN {
        return false;
    }
    if same_text(channel, ".") || same_text(channel, "..") {
        return false;
    }
    let mut i: usize = 0;
    while i < x.len()
        invariant
            i <= x@.len(),
            x@ == channel@,
            forall|j: int| 0 <= j < i ==> is_channel_char(#[trigger] channel@[j]),
        decreases x@.len() - i,
    {
        let c: char = x[i];
        let letter: bool = ('a' <= c && c <= 'z') || ('A' <= c && c <= 'Z');
        if !(letter || ('0' <= c && c <= '9') || c == '-' || c == '_' || c == '.') {
            assert(!is_channel_char(channel@[i as int]));
            return false;
        }
        i = i + 1;
    }
    true
}

/// Default enable for API-created channels.
pub fn default_enabled() -> (enabled: bool)
    ensures
        enabled,
{
    true
}

/// Why a configuration is refused. An index counts the entries of `pull`.
#[derive(Debug, Clone, Copy, PartialEq, Eq, Structural)]
pub enum ConfigError {
    SegmentDuration,
    WindowSegments,
    CleanupInterval,
    ReconnectSecs,
    TtlSecs,
    LiveHoldback,
    MinBuffer,
    MaxSegmentLag,
    SendQueue,
    PollInterval,
    IngestPollFactor,
    PullChannelEmpty(usize),
    PullChannelInvalid(usize),
    PullChannelDuplicate(usize),
    PullUrlEmpty(usize),
    PullUrlScheme(usize),
}

/// The channel of entry `i` stands in an earlier entry too.
pub open spec fn is_duplicate(pull: Seq<PullSource>, i: int) -> bool {
    exists|j: int| 0 <= j < i && (#[trigger] pull[j]).channel@ == pull[i].channel@
}

/// What is wrong with entry `i` of the pull list.
pub open spec fn pull_error(pull: Seq<PullSource>, i: int) -> Option<ConfigError> {
    if text::trimmed(pull[i].channel@).len() == 0 {
        Some(ConfigError::PullChannelEmpty(i as usize))
    } else if !is_channel_id(pull[i].channel@) {
        Some(ConfigError::PullChannelInvalid(i as usize))
    } else if is_duplicate(pull, i) {
        Some(ConfigError::PullChannelDuplicate(i as usize))
    } else if text::trimmed(pull[i].url@).len() == 0 {
        Some(ConfigError::PullUrlEmpty(i as usize))
    } else if !playlist::is_http(pull[i].url@) {
        Some(ConfigError::PullUrlScheme(i as usize))
    } else {
        None
    }
}

/// The first thing wrong with the first `n` entries of the pull list.
pub open spec fn first_pull_error(pull: Seq<PullSource>, n: int) -> Option<ConfigError>
    decreases n,
{
    if n <= 0 {
        None
    } else if first_pull_error(pull, n - 1) is Some {
        first_pull_error(pull, n - 1)
    } else {
        pull_error(pull, n - 1)
    }
}

impl Config {
    /// What is wrong with the settings other than the pull list.
    pub open spec fn settings_error(&self) -> Option<ConfigError> {
        if !self.cache.segment_duration_secs.positive() {
            Some(ConfigError::SegmentDuration)
        } else if self.cache.window_segments == 0 {
            Some(ConfigError::WindowSegments)
        } else if self.cache.cleanup_interval_secs == 0 {
            Some(ConfigError::CleanupInterval)
        } else if self.reconnect_secs == 0 {
            Some(ConfigError::ReconnectSecs)
        } else if self.cache.ttl_secs == Some(0u64) {
            Some(ConfigError::TtlSecs)
        } else if self.mpegts.live_holdback_segments == 0 {
            Some(ConfigError::LiveHoldback)
        } else if self.mpegts.min_buffer_segments == 0 {
            Some(ConfigError::MinBuffer)
        } else if self.mpegts.max_segment_lag == 0 {
            Some(ConfigError::MaxSegmentLag)
        } else if self.mpegts.send_queue == 0 {
            Some(ConfigError::SendQueue)
        } else if self.mpegts.poll_interval_secs == 0 {
            Some(ConfigError::PollInterval)
        } else if !self.mpegts.ingest_poll_factor.positive() {
            Some(ConfigError::IngestPollFactor)
        } else {
            None
        }
    }

    /// The first thing wrong with the configuration.
    pub open spec fn first_error(&self) -> Option<ConfigError> {
        if self.settings_error() is Some {
            self.settings_error()
        } else {
            first_pull_error(self.pull@, self.pull@.len() as int)
        }
    }

    fn check_settings(&self) -> (error: Option<ConfigError>)
        ensures
            error == self.settings_error(),
    {
        if !self.cache.segment_duration_secs.is_positive() {
            return Some(ConfigError::SegmentDuration);
        }
        if self.cache.window_segments == 0 {
            return Some(ConfigError::WindowSegments);
        }
        if self.cache.cleanup_interval_secs == 0 {
            return Some(ConfigError::CleanupInterval);
        }
        if self.reconnect_secs == 0 {
            return Some(ConfigError::ReconnectSecs);
        }
        match self.cache.ttl_secs {
            Some(ttl) => {
                if ttl == 0 {
                    return Some(ConfigError::TtlSecs);
                }
            },
            None => {},
        }
        if self.mpegts.live_holdback_segments == 0 {
            return Some(ConfigError::LiveHoldback);
        }
        if self.mpegts.min_buffer_segments == 0 {
            return Some(ConfigError::MinBuffer);
        }
        if self.mpegts.max_segment_lag == 0 {
            return Some(ConfigError::MaxSegmentLag);
        }
        if self.mpegts.send_queue == 0 {
            return Some(ConfigError::SendQueue);
        }
        if self.mpegts.poll_interval_secs == 0 {
            return Some(ConfigError::PollInterval);
        }
        if !self.mpegts.ingest_poll_factor.is_positive() {
            return Some(ConfigError::IngestPollFactor);
        }
        None
    }

    /// Refuse a configuration that the service cannot run with.
    pub fn validate(&self) -> (result: Result<(), ConfigError>)
        ensures
            result == match self.first_error() {
                Some(e) => Err(e),
                None => Ok(()),
            },
    {
        match self.check_settings() {
            Some(e) => {
                return Err(e);
            },
            None => {},
        }
        let mut i: usize = 0;
        while i < self.pull.len()
            invariant
                i <= self.pull@.len(),
                first_pull_error(self.pull@, i as int) is None,
                self.settings_error() is None,
            decreases self.pull@.len() - i,
        {
            match check_pull(&self.pull, i) {
                Some(e) => {
                    proof {
                        lemma_first_pull_error(self.pull@, i + 1, self.pull@.len() as int);
                    }
                    return Err(e);
                },
                None => {},
            }
            i = i + 1;
        }
        Ok(())
    }

    /// The error in words.
    pub open spec fn error_text(&self, e: ConfigError) -> Seq<char> {
        match e {
            ConfigError::SegmentDuration => "cache.segment_duration_secs must be > 0"@,
            ConfigError::WindowSegments => "cache.window_segments must be >= 1"@,
            ConfigError::CleanupInterval => "cache.cleanup_interval_secs must be >= 1"@,
            ConfigError::ReconnectSecs => "reconnect_secs must be >= 1"@,
            ConfigError::TtlSecs => "cache.ttl_secs must be >= 1 when set"@,
            ConfigError::LiveHoldback => "mpegts.live_holdback_segments must be >= 1"@,
            ConfigError::MinBuffer => "mpegts.min_buffer_segments must be >= 1"@,
            ConfigError::MaxSegmentLag => "mpegts.max_segment_lag must be >= 1"@,
            ConfigError::SendQueue => "mpegts.send_queue must be >= 1"@,
            ConfigError::PollInterval => "mpegts.poll_interval_secs must be >= 1"@,
            ConfigError::IngestPollFactor => "mpegts.ingest_poll_factor must be > 0"@,
            ConfigError::PullChannelEmpty(i) => pull_entry(i) + "].channel must not be empty"@,
            ConfigError::PullChannelInvalid(i) => pull_entry(i)
                + "].channel has invalid characters: "@ + self.pull@[i as int].channel@,
            ConfigError::PullChannelDuplicate(i) => "duplicate pull channel '"@
                + self.pull@[i as int].channel@ + "'"@,
            ConfigError::PullUrlEmpty(i) => pull_entry(i) + "].url must not be empty"@,
            ConfigError::PullUrlScheme(i) => pull_entry(i) + "].url must be http(s)://"@,
        }
    }

    /// The error that [`Config::validate`] gave, in words.
    pub fn describe(&self, e: ConfigError) -> (message: String)
        requires
            e matches ConfigError::PullChannelInvalid(i) ==> i < self.pull@.len(),
            e matches ConfigError::PullChannelDuplicate(i) ==> i < self.pull@.len(),
        ensures
            message@ == self.error_text(e),
    {
        match e {
            ConfigError::SegmentDuration => "cache.segment_duration_secs must be > 0".to_owned(),
            ConfigError::WindowSegments => "cache.window_segments must be >= 1".to_owned(),
            ConfigError::CleanupInterval => "cache.cleanup_interval_secs must be >= 1".to_owned(),
            ConfigError::ReconnectSecs => "reconnect_secs must be >= 1".to_owned(),
            ConfigError::TtlSecs => "cache.ttl_secs must be >= 1 when set".to_owned(),
            ConfigError::LiveHoldback => "mpegts.live_holdback_segments must be >= 1".to_owned(),
            ConfigError::MinBuffer => "mpegts.min_buffer_segments must be >= 1".to_owned(),
            ConfigError::MaxSegmentLag => "mpegts.max_segment_lag must be >= 1".to_owned(),
            ConfigError::SendQueue => "mpegts.send_queue must be >= 1".to_owned(),
            ConfigError::PollInterval => "mpegts.poll_interval_secs must be >= 1".to_owned(),
            ConfigError::IngestPollFactor => "mpegts.ingest_poll_factor must be > 0".to_owned(),
            ConfigError::PullChannelEmpty(i) => pull_message(i, "].channel must not be empty"),
            ConfigError::PullChannelInvalid(i) => {
                let mut message: String = pull_message(i, "].channel has invalid characters: ");
                message.append(self.pull[i].channel.as_str());
                message
            },
            ConfigError::PullChannelDuplicate(i) => {
                let mut message: String = "duplicate pull channel '".to_owned();
                message.append(self.pull[i].channel.as_str());
                message.append("'");
                message
            },
            ConfigError::PullUrlEmpty(i) => pull_message(i, "].url must not be empty"),
            ConfigError::PullUrlScheme(i) => pull_message(i, "].url must be http(s)://"),
        }
    }

    /// The HTTP listen address as `host:port`.
    pub fn dash_addr(&self) -> (addr: String)
        ensures
            addr@ == self.dash.listen@ + ":"@ + number::decimal(self.dash.port as nat),
    {
        let mut addr: String = self.dash.listen.as_str().to_owned();
        let port: String = number_text(self.dash.port as u64);
        addr.append(":");
        addr.append(port.as_str());
        addr
    }

    /// Where the channels are played.
    pub fn play_url(&self) -> (url: String)
        ensures
            url@ == "http://"@ + (self.dash.listen@ + ":"@ + number::decimal(
                self.dash.port as nat,
            )) + (match self.output_mode {
                OutputMode::Dash => "/live/<channel>/index.mpd"@,
                OutputMode::Mpegts => "/live/<channel>/mpegts"@,
            }),
    {
        let mut url: String = "http://".to_owned();
        let addr: String = self.dash_addr();
        url.append(addr.as_str());
        match self.output_mode {
            OutputMode::Dash => url.append("/live/<channel>/index.mpd"),
            OutputMode::Mpegts => url.append("/live/<channel>/mpegts"),
        }
        url
    }

    pub fn is_dash(&self) -> (yes: bool)
        ensures
            yes == (self.output_mode == OutputMode::Dash),
    {
        self.output_mode == OutputMode::Dash
    }

    pub fn is_mpegts(&self) -> (yes: bool)
        ensures
            yes == (self.output_mode == OutputMode::Mpegts),
    {
        self.output_mode == OutputMode::Mpegts
    }

    /// The options for one `/mpegts` client.
    pub fn stream_opts(&self) -> (opts: MpegTsStreamOpts)
        ensures
            opts == (MpegTsStreamOpts {
                poll_interval_secs: self.mpegts.poll_interval_secs,
                holdback_segments: self.mpegts.live_holdback_segments,
                min_buffer_segments: self.mpegts.min_buffer_segments,
                max_segment_lag: self.mpegts.max_segment_lag,
                send_queue: self.mpegts.send_queue,
                pace_egress: self.mpegts.pace_egress,
                egress_chunk_ms: self.mpegts.egress_chunk_ms,
                default_segment_duration_secs: self.cache.segment_duration_secs,
            }),
    {
        MpegTsStreamOpts {
            poll_interval_secs: self.mpegts.poll_interval_secs,
            holdback_segments: self.mpegts.live_holdback_segments,
            min_buffer_segments: self.mpegts.min_buffer_segments,
            max_segment_lag: self.mpegts.max_segment_lag,
            send_queue: self.mpegts.send_queue,
            pace_egress: self.mpegts.pace_egress,
            egress_chunk_ms: self.mpegts.egress_chunk_ms,
            default_segment_duration_secs: self.cache.segment_duration_secs,
        }
    }
}

/// How a message about entry `i` of the pull list begins.
pub open spec fn pull_entry(i: usize) -> Seq<char> {
    "pull["@ + number::decimal(i as nat)
}

fn pull_message(i: usize, rest: &str) -> (message: String)
    ensures
        message@ == pull_entry(i) + rest@,
{
    let mut message: String = "pull[".to_owned();
    let index: String = number_text(i as u64);
    message.append(index.as_str());
    message.append(rest);
    message
}

fn is_blank(s: &str) -> (blank: bool)
    ensures
        blank == (text::trimmed(s@).len() == 0),
{
    trim(s).unicode_len() == 0
}

fn check_pull(pull: &Vec<PullSource>, i: usize) -> (error: Option<ConfigError>)
    requires
        i < pull@.len(),
    ensures
        error == pull_error(pull@, i as int),
{
    let channel: &str = pull[i].channel.as_str();
    if is_blank(channel) {
        return Some(ConfigError::PullChannelEmpty(i));
    }
    if !is_safe_channel(channel) {
        return Some(ConfigError::PullChannelInvalid(i));
    }
    let mut j: usize = 0;
    while j < i
        invariant
            j <= i < pull@.len(),
            channel@ == pull@[i as int].channel@,
            text::trimmed(channel@).len() != 0,
            is_channel_id(channel@),
            forall|k: int| 0 <= k < j ==> (#[trigger] pull@[k]).channel@ != channel@,
        decreases i - j,
    {
        if same_text(pull[j].channel.as_str(), channel) {
            assert(pull@[j as int].channel@ == channel@);
            return Some(ConfigError::PullChannelDuplicate(i));
        }
        j = j + 1;
    }
    if is_blank(pull[i].url.as_str()) {
        return Some(ConfigError::PullUrlEmpty(i));
    }
    if !is_http_url(pull[i].url.as_str()) {
        return Some(ConfigError::PullUrlScheme(i));
    }
    None
}

proof fn lemma_first_pull_error(pull: Seq<PullSource>, n: int, len: int)
    requires
        0 <= n <= len,
        first_pull_error(pull, n) is Some,
    ensures
        first_pull_error(pull, len) == first_pull_error(pull, n),
    decreases len - n,
{
    if n < len {
        lemma_first_pull_error(pull, n, len - 1);
    }
}

/// How long the cache keeps a file: twice the live window and half a minute at least, and
/// longer where the configuration says so.
pub open spec fn ttl_of(ttl_secs: Option<u64>, window_secs: u64) -> u64 {
    let twice = if 2 * window_secs > u64::MAX {
        u64::MAX
    } else {
        (2 * window_secs) as u64
    };
    let floor = if twice < MIN_TTL_SECS {
        MIN_TTL_SECS
    } else {
        twice
    };
    match ttl_secs {
        Some(ttl) => if ttl > floor {
            ttl
        } else {
            floor
        },
        None => floor,
    }
}

impl CacheConfig {
    /// Effective TTL used by the janitor (never below the live window duration), given that
    /// duration in whole seconds.
    pub fn effective_ttl_secs(&self, window_secs: u64) -> (ttl: u64)
        ensures
            ttl == ttl_of(self.ttl_secs, window_secs),
    {
        let twice: u64 = window_secs.saturating_add(window_secs);
        let floor: u64 = if twice < MIN_TTL_SECS {
            MIN_TTL_SECS
        } else {
            twice
        };
        match self.ttl_secs {
            Some(ttl) => if ttl > floor {
                ttl
            } else {
                floor
            },
            None => floor,
        }
    }
}

/// The cache keeps a file at least as long as the live window lasts.
pub proof fn law_ttl_covers_the_window(ttl_secs: Option<u64>, window_secs: u64)
    ensures
        window_secs <= ttl_of(ttl_secs, window_secs),
        MIN_TTL_SECS <= ttl_of(ttl_secs, window_secs),
        ttl_secs matches Some(ttl) ==> ttl <= ttl_of(ttl_secs, window_secs),
{
}

/// A configuration that validation accepts pulls every channel under a safe id and from an
/// HTTP source.
pub proof fn law_valid_pull_entry_is_sound(config: &Config, i: int)
    requires
        config.first_error() is None,
        0 <= i < config.pull@.len(),
    ensures
        is_channel_id(config.pull@[i].channel@),
        playlist::is_http(config.pull@[i].url@),
{
    lemma_no_pull_error(config.pull@, config.pull@.len() as int, i);
}

/// A configuration that validation accepts pulls no channel twice.
pub proof fn law_valid_pull_channels_are_distinct(config: &Config, i: int, j: int)
    requires
        config.first_error() is None,
        0 <= j < i < config.pull@.len(),
    ensures
        config.pull@[i].channel@ != config.pull@[j].channel@,
{
    lemma_no_pull_error(config.pull@, config.pull@.len() as int, i);
}

proof fn lemma_no_pull_error(pull: Seq<PullSource>, n: int, i: int)
    requires
        0 <= i < n,
        first_pull_error(pull, n) is None,
    ensures
        pull_error(pull, i) is None,
    decreases n,
{
    if i < n - 1 {
        lemma_no_pull_error(pull, n - 1, i);
    }
}

/// An error of validation about a pull entry names an entry that is there.
pub proof fn law_pull_error_names_an_entry(pull: Seq<PullSource>, n: int)
    requires
        0 <= n <= pull.len() <= usize::MAX,
    ensures
        first_pull_error(pull, n) matches Some(ConfigError::PullChannelInvalid(i)) ==> i
            < pull.len(),
        first_pull_error(pull, n) matches Some(ConfigError::PullChannelDuplicate(i)) ==> i
            < pull.len(),
    decreases n,
{
    if n > 0 {
        law_pull_error_names_an_entry(pull, n - 1);
    }
}

/// A channel id has from one to a hundred and twenty-eight characters, and each is an ASCII
/// letter, an ASCII digit, or one of `-`, `.` and `_`. Apart from one and two dots alone, every
/// such text is an id.
pub proof fn law_channel_id_is_a_plain_name(s: Seq<char>)
    ensures
        is_channel_id(s) <==> {
            &&& 1 <= s.len() <= 128
            &&& forall|i: int|
                0 <= i < s.len() ==> {
                    let c = #[trigger] s[i] as int;
                    ||| 0x61 <= c <= 0x7a
                    ||| 0x41 <= c <= 0x5a
                    ||| 0x30 <= c <= 0x39
                    ||| c == 0x2d
                    ||| c == 0x2e
                    ||| c == 0x5f
                }
            &&& exists|i: int| 0 <= i < s.len() && (#[trigger] s[i] != '.' || i >= 2)
        },
{
    reveal_strlit(".");
    reveal_strlit("..");
    if s.len() == 1 && s[0] == '.' {
        assert(s =~= "."@);
    } else if s.len() == 2 && s[0] == '.' && s[1] == '.' {
        assert(s =~= ".."@);
    } else if s.len() > 0 {
        assert(s[0] != '.' || s[1] != '.' || s.len() > 2);
        if s.len() > 2 {
            let c = s[2];
        }
        assert("."@[0] == '.' && ".."@[0] == '.' && ".."@[1] == '.');
    }
    assert(forall|i: int|
        0 <= i < s.len() ==> (is_channel_char(#[trigger] s[i]) <==> {
            let c = s[i] as int;
            ||| 0x61 <= c <= 0x7a
            ||| 0x41 <= c <= 0x5a
            ||| 0x30 <= c <= 0x39
            ||| c == 0x2d
            ||| c == 0x2e
            ||| c == 0x5f
        }));
}

/// The settings are accepted exactly where every count and interval is at least one, a time to
/// live, if it is given, too, and the durations and factors are finite and above zero.
pub proof fn law_settings_are_accepted_above_zero(config: &Config)
    ensures
        config.settings_error() is None <==> {
            &&& 0 < config.cache.segment_duration_secs.bits < 0x7ff0_0000_0000_0000
            &&& config.cache.window_segments >= 1
            &&& config.cache.cleanup_interval_secs >= 1
            &&& config.reconnect_secs >= 1
            &&& config.cache.ttl_secs is None || config.cache.ttl_secs->0 >= 1
            &&& config.mpegts.live_holdback_segments >= 1
            &&& config.mpegts.min_buffer_segments >= 1
            &&& config.mpegts.max_segment_lag >= 1
            &&& config.mpegts.send_queue >= 1
            &&& config.mpegts.poll_interval_secs >= 1
            &&& 0 < config.mpegts.ingest_poll_factor.bits < 0x7ff0_0000_0000_0000
        },
{
}

/// An error about a setting is given only where that setting is wrong.
pub proof fn law_error_names_a_wrong_setting(config: &Config)
    ensures
        match config.settings_error() {
            None => true,
            Some(ConfigError::SegmentDuration) => config.cache.segment_duration_secs.bits == 0
                || config.cache.segment_duration_secs.bits >= 0x7ff0_0000_0000_0000,
            Some(ConfigError::WindowSegments) => config.cache.window_segments == 0,
            Some(ConfigError::CleanupInterval) => config.cache.cleanup_interval_secs == 0,
            Some(ConfigError::ReconnectSecs) => config.reconnect_secs == 0,
            Some(ConfigError::TtlSecs) => config.cache.ttl_secs == Some(0u64),
            Some(ConfigError::LiveHoldback) => config.mpegts.live_holdback_segments == 0,
            Some(ConfigError::MinBuffer) => config.mpegts.min_buffer_segments == 0,
            Some(ConfigError::MaxSegmentLag) => config.mpegts.max_segment_lag == 0,
            Some(ConfigError::SendQueue) => config.mpegts.send_queue == 0,
            Some(ConfigError::PollInterval) => config.mpegts.poll_interval_secs == 0,
            Some(ConfigError::IngestPollFactor) => config.mpegts.ingest_poll_factor.bits == 0
                || config.mpegts.ingest_poll_factor.bits >= 0x7ff0_0000_0000_0000,
            Some(_) => false,
        },
{
}

/// An entry of the pull list is accepted exactly where its channel is an id that no entry before
/// it has, and its source an HTTP URL.
pub proof fn law_pull_entry_is_accepted_where_it_is_sound(pull: Seq<PullSource>, i: int)
    requires
        0 <= i < pull.len() <= usize::MAX,
    ensures
        pull_error(pull, i) is None <==> {
            &&& is_channel_id(pull[i].channel@)
            &&& playlist::is_http(pull[i].url@)
            &&& forall|j: int| 0 <= j < i ==> (#[trigger] pull[j]).channel@ != pull[i].channel@
        },
        match pull_error(pull, i) {
            None => true,
            Some(ConfigError::PullChannelEmpty(n)) => n == i && text::trimmed(
                pull[i].channel@,
            ).len() == 0,
            Some(ConfigError::PullChannelInvalid(n)) => n == i && !is_channel_id(pull[i].channel@),
            Some(ConfigError::PullChannelDuplicate(n)) => n == i && exists|j: int|
                0 <= j < i && (#[trigger] pull[j]).channel@ == pull[i].channel@,
            Some(ConfigError::PullUrlEmpty(n)) => n == i && text::trimmed(pull[i].url@).len() == 0,
            Some(ConfigError::PullUrlScheme(n)) => n == i && !playlist::is_http(pull[i].url@),
            Some(_) => false,
        },
{
    let channel = pull[i].channel@;
    let url = pull[i].url@;
    if is_channel_id(channel) {
        assert(is_channel_char(channel[0]));
        text::lemma_trimmed_is_not_empty(channel);
    }
    if playlist::is_http(url) {
        playlist::law_http_urls_begin_with_their_scheme(url);
        text::lemma_trimmed_is_not_empty(url);
    }
}

/// The error about a pull list is that of its first entry that is refused: every entry before it
/// is accepted. There is none where all are.
pub proof fn law_first_refused_entry_is_reported(pull: Seq<PullSource>, n: int, i: int)
    requires
        0 <= i < n,
        forall|j: int| 0 <= j < i ==> #[trigger] pull_error(pull, j) is None,
    ensures
        pull_error(pull, i) is Some ==> first_pull_error(pull, n) == pull_error(pull, i),
        pull_error(pull, i) is None && i == n - 1 ==> first_pull_error(pull, n) is None,
    decreases n,
{
    lemma_accepted_so_far(pull, i);
    if i < n - 1 {
        law_first_refused_entry_is_reported(pull, n - 1, i);
    }
}

proof fn lemma_accepted_so_far(pull: Seq<PullSource>, n: int)
    requires
        forall|j: int| 0 <= j < n ==> #[trigger] pull_error(pull, j) is None,
    ensures
        first_pull_error(pull, n) is None,
    decreases n,
{
    if n > 0 {
        assert(pull_error(pull, n - 1) is None);
        lemma_accepted_so_far(pull, n - 1);
    }
}

/// Settings are looked at before the pull list.
pub proof fn law_settings_come_before_the_pull_list(config: &Config)
    ensures
        config.settings_error() is Some ==> config.first_error() == config.settings_error(),
        config.settings_error() is None ==> config.first_error() == first_pull_error(
            config.pull@,
            config.pull@.len() as int,
        ),
{
}

/// The time to live is the largest of the given one, half a minute and twice the live window, as
/// far as a machine number goes.
pub proof fn law_ttl_is_the_largest_bound(ttl_secs: Option<u64>, window_secs: u64)
    ensures
        ({
            let ttl = ttl_of(ttl_secs, window_secs);
            &&& ttl >= 30
            &&& ttl >= 2 * window_secs || ttl == u64::MAX
            &&& ttl_secs is Some ==> ttl >= ttl_secs->0
            &&& ttl == 30 || ttl == 2 * window_secs || ttl_secs == Some(ttl) || (ttl == u64::MAX
                && 2 * window_secs > ttl)
        }),
{
}

/// A message about an entry of the pull list names its place, and one about a channel names that
/// channel at its end.
pub proof fn law_messages_name_the_entry(config: &Config, i: usize)
    requires
        i < config.pull@.len(),
    ensures
        text::has_prefix(
            config.error_text(ConfigError::PullChannelEmpty(i)),
            "pull["@ + number::decimal(i as nat) + "]"@,
        ),
        text::has_prefix(
            config.error_text(ConfigError::PullChannelInvalid(i)),
            "pull["@ + number::decimal(i as nat) + "]"@,
        ),
        text::has_suffix(
            config.error_text(ConfigError::PullChannelInvalid(i)),
            config.pull@[i as int].channel@,
        ),
        text::has_suffix(
            config.error_text(ConfigError::PullChannelDuplicate(i)),
            config.pull@[i as int].channel@ + "'"@,
        ),
        text::has_prefix(
            config.error_text(ConfigError::PullUrlEmpty(i)),
            "pull["@ + number::decimal(i as nat) + "]"@,
        ),
        text::has_prefix(
            config.error_text(ConfigError::PullUrlScheme(i)),
            "pull["@ + number::decimal(i as nat) + "]"@,
        ),
{
    reveal_strlit("]");
    reveal_strlit("].channel must not be empty");
    reveal_strlit("].channel has invalid characters: ");
    reveal_strlit("].url must not be empty");
    reveal_strlit("].url must be http(s)://");
    let start = "pull["@ + number::decimal(i as nat);
    let head = start + "]"@;
    let n = head.len() as int;
    assert(config.error_text(ConfigError::PullChannelEmpty(i)).take(n) =~= head);
    assert(config.error_text(ConfigError::PullChannelInvalid(i)).take(n) =~= head);
    assert(config.error_text(ConfigError::PullUrlEmpty(i)).take(n) =~= head);
    assert(config.error_text(ConfigError::PullUrlScheme(i)).take(n) =~= head);
    let channel = config.pull@[i as int].channel@;
    let invalid = config.error_text(ConfigError::PullChannelInvalid(i));
    assert(invalid.skip(invalid.len() - channel.len()) =~= channel);
    let twice = config.error_text(ConfigError::PullChannelDuplicate(i));
    let tail = channel + "'"@;
    assert(twice.skip(twice.len() - tail.len()) =~= tail);
}

} // verus!
