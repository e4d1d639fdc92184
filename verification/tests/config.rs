use hls2dash::config::{
    default_cleanup_interval_secs, default_egress_chunk_ms, default_enable, default_enabled,
    default_ingest_poll_factor, default_live_holdback_segments, default_max_segment_lag,
    default_min_buffer_segments, default_mpegts_poll_interval_secs, default_mpegts_send_queue,
    default_reconnect_secs, default_segment_duration, default_true, default_window_segments,
    is_safe_channel, CacheConfig, Config, ConfigError, DashConfig, MpegTsConfig, OutputMode,
    PullSource, RecoveryConfig,
};
use hls2dash::double::Double;

fn secs(x: f64) -> Double {
    Double { bits: x.to_bits() }
}

fn source(channel: &str, url: &str) -> PullSource {
    PullSource {
        url: url.to_string(),
        channel: channel.to_string(),
        enable: true,
    }
}

fn config() -> Config {
    Config {
        dash: DashConfig {
            listen: "0.0.0.0".to_string(),
            port: 8080,
        },
        cache: CacheConfig {
            dir: "./cache".to_string(),
            segment_duration_secs: secs(2.0),
            window_segments: 90,
            ttl_secs: None,
            cleanup_interval_secs: 10,
        },
        output_mode: OutputMode::default(),
        mpegts: MpegTsConfig::default(),
        recovery: RecoveryConfig::default(),
        reconnect_secs: 3,
        pull: vec![source("demo", "http://origin.example.com/a.m3u8")],
    }
}

fn refused(c: &Config, e: ConfigError, message: &str) {
    assert_eq!(c.validate(), Err(e));
    assert_eq!(c.describe(e), message);
}

#[test]
fn a_complete_configuration_is_valid() {
    assert_eq!(config().validate(), Ok(()));
    let mut empty = config();
    empty.pull.clear();
    assert_eq!(empty.validate(), Ok(()));
}

#[test]
fn each_setting_is_checked() {
    let mut c = config();
    c.cache.segment_duration_secs = secs(f64::NAN);
    refused(
        &c,
        ConfigError::SegmentDuration,
        "cache.segment_duration_secs must be > 0",
    );
    let mut c = config();
    c.cache.window_segments = 0;
    refused(
        &c,
        ConfigError::WindowSegments,
        "cache.window_segments must be >= 1",
    );
    let mut c = config();
    c.cache.cleanup_interval_secs = 0;
    refused(
        &c,
        ConfigError::CleanupInterval,
        "cache.cleanup_interval_secs must be >= 1",
    );
    let mut c = config();
    c.reconnect_secs = 0;
    refused(&c, ConfigError::ReconnectSecs, "reconnect_secs must be >= 1");
    let mut c = config();
    c.cache.ttl_secs = Some(0);
    refused(
        &c,
        ConfigError::TtlSecs,
        "cache.ttl_secs must be >= 1 when set",
    );
    let mut c = config();
    c.mpegts.live_holdback_segments = 0;
    refused(
        &c,
        ConfigError::LiveHoldback,
        "mpegts.live_holdback_segments must be >= 1",
    );
    let mut c = config();
    c.mpegts.min_buffer_segments = 0;
    refused(
        &c,
        ConfigError::MinBuffer,
        "mpegts.min_buffer_segments must be >= 1",
    );
    let mut c = config();
    c.mpegts.max_segment_lag = 0;
    refused(
        &c,
        ConfigError::MaxSegmentLag,
        "mpegts.max_segment_lag must be >= 1",
    );
    let mut c = config();
    c.mpegts.send_queue = 0;
    refused(&c, ConfigError::SendQueue, "mpegts.send_queue must be >= 1");
    let mut c = config();
    c.mpegts.poll_interval_secs = 0;
    refused(
        &c,
        ConfigError::PollInterval,
        "mpegts.poll_interval_secs must be >= 1",
    );
    let mut c = config();
    c.mpegts.ingest_poll_factor = secs(0.0);
    refused(
        &c,
        ConfigError::IngestPollFactor,
        "mpegts.ingest_poll_factor must be > 0",
    );
}

#[test]
fn each_pull_entry_is_checked() {
    let url = "http://origin.example.com/a.m3u8";
    let mut c = config();
    c.pull.push(source("  ", url));
    refused(
        &c,
        ConfigError::PullChannelEmpty(1),
        "pull[1].channel must not be empty",
    );
    let mut c = config();
    c.pull.push(source("a/b", url));
    refused(
        &c,
        ConfigError::PullChannelInvalid(1),
        "pull[1].channel has invalid characters: a/b",
    );
    let mut c = config();
    c.pull.push(source("..", url));
    refused(
        &c,
        ConfigError::PullChannelInvalid(1),
        "pull[1].channel has invalid characters: ..",
    );
    let mut c = config();
    c.pull.push(source("demo", ""));
    refused(
        &c,
        ConfigError::PullChannelDuplicate(1),
        "duplicate pull channel 'demo'",
    );
    let mut c = config();
    c.pull.push(source("two", " \t"));
    refused(&c, ConfigError::PullUrlEmpty(1), "pull[1].url must not be empty");
    let mut c = config();
    c.pull.push(source("two", "ftp://x"));
    c.pull.push(source("demo", url));
    refused(
        &c,
        ConfigError::PullUrlScheme(1),
        "pull[1].url must be http(s)://",
    );
}

#[test]
fn safe_channel_ids() {
    assert!(is_safe_channel("cctv1"));
    assert!(is_safe_channel("A-b_c.9"));
    assert!(!is_safe_channel(""));
    assert!(!is_safe_channel("a b"));
    assert!(!is_safe_channel("a/b"));
    assert!(!is_safe_channel("ü"));
    assert!(is_safe_channel(&"x".repeat(128)));
    assert!(!is_safe_channel(&"x".repeat(129)));
    assert!(!is_safe_channel("."));
    assert!(!is_safe_channel(".."));
    assert!(is_safe_channel("..."));
    assert!(is_safe_channel("a..b"));
}

#[test]
fn the_ttl_covers_the_window() {
    let mut cache = config().cache;
    assert_eq!(cache.effective_ttl_secs(180), 360);
    assert_eq!(cache.effective_ttl_secs(5), 30);
    assert_eq!(cache.effective_ttl_secs(u64::MAX), u64::MAX);
    cache.ttl_secs = Some(100);
    assert_eq!(cache.effective_ttl_secs(180), 360);
    assert_eq!(cache.effective_ttl_secs(5), 100);
}

#[test]
fn addresses_and_modes() {
    let mut c = config();
    assert_eq!(c.dash_addr(), "0.0.0.0:8080");
    assert_eq!(c.play_url(), "http://0.0.0.0:8080/live/<channel>/index.mpd");
    assert!(c.is_dash() && !c.is_mpegts());
    assert_eq!(c.output_mode.as_str(), "dash");
    c.output_mode = OutputMode::Mpegts;
    assert_eq!(c.play_url(), "http://0.0.0.0:8080/live/<channel>/mpegts");
    assert!(!c.is_dash() && c.is_mpegts());
    assert_eq!(c.output_mode.as_str(), "mpegts");
    let opts = c.stream_opts();
    assert_eq!(opts.holdback_segments, 6);
    assert_eq!(opts.egress_chunk_ms, 250);
    assert_eq!(opts.default_segment_duration_secs, secs(2.0));
}

#[test]
fn defaults() {
    assert!(default_enable() && default_enabled() && default_true());
    assert_eq!(default_segment_duration(), secs(2.0));
    assert_eq!(default_window_segments(), 90);
    assert_eq!(default_cleanup_interval_secs(), 10);
    assert_eq!(default_reconnect_secs(), 3);
    assert_eq!(default_live_holdback_segments(), 6);
    assert_eq!(default_min_buffer_segments(), 3);
    assert_eq!(default_max_segment_lag(), 10);
    assert_eq!(default_mpegts_send_queue(), 32);
    assert_eq!(default_mpegts_poll_interval_secs(), 2);
    assert_eq!(default_egress_chunk_ms(), 250);
    assert_eq!(default_ingest_poll_factor(), secs(0.25));
}
