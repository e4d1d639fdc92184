use hls2dash::channel::registry::{ChannelRegistry, RegistryError, WorkerStep};
use hls2dash::config::{
    CacheConfig, Config, DashConfig, MpegTsConfig, OutputMode, PullSource, RecoveryConfig,
};
use hls2dash::double::Double;
use hls2dash::http::channel_api;
use hls2dash::http::channel_api::{AddChannelRequest, BatchChannelResult, UpdateChannelRequest};

const URL: &str = "http://origin.example.com/a.m3u8";
const OTHER: &str = "https://origin.example.com/b.m3u8";

fn config(mode: OutputMode) -> Config {
    Config {
        dash: DashConfig {
            listen: "0.0.0.0".to_string(),
            port: 8080,
        },
        cache: CacheConfig {
            dir: "./cache".to_string(),
            segment_duration_secs: Double { bits: 2.0f64.to_bits() },
            window_segments: 90,
            ttl_secs: None,
            cleanup_interval_secs: 10,
        },
        output_mode: mode,
        mpegts: MpegTsConfig::default(),
        recovery: RecoveryConfig::default(),
        reconnect_secs: 0,
        pull: Vec::new(),
    }
}

fn registry() -> ChannelRegistry {
    ChannelRegistry::new(&config(OutputMode::Dash))
}

fn add(r: &mut ChannelRegistry, id: &str, enabled: bool) -> Vec<String> {
    steps(
        &r.add_channel(id.to_string(), URL.to_string(), enabled)
            .unwrap(),
    )
}

fn steps(list: &[WorkerStep]) -> Vec<String> {
    list.iter()
        .map(|step| match step {
            WorkerStep::Stop { id } => format!("stop {id}"),
            WorkerStep::Spawn { id, hls_url } => format!("spawn {id} {hls_url}"),
        })
        .collect()
}

#[test]
fn channels_are_added_and_listed_in_order() {
    let mut r = registry();
    assert_eq!(r.reconnect_secs(), 1);
    assert_eq!(add(&mut r, "b", true), vec![format!("spawn b {URL}")]);
    assert_eq!(add(&mut r, "a", false), Vec::<String>::new());
    add(&mut r, "c", true);
    let list = r.list();
    let ids: Vec<&str> = list.iter().map(|c| c.id.as_str()).collect();
    assert_eq!(ids, vec!["a", "b", "c"]);
    assert!(!list[0].enabled && !list[0].running);
    assert!(list[1].enabled && list[1].running);
    assert_eq!(list[1].mpd, "/live/b/index.mpd");
    assert_eq!(list[1].hls_url, URL);
    assert_eq!(list[1].last_error, None);
    assert_eq!(r.active_count(), 2);
}

#[test]
fn refused_additions_change_nothing() {
    let mut r = registry();
    add(&mut r, "a", true);
    let cases = [
        ("a/b", URL, RegistryError::InvalidId, "invalid channel id"),
        (".", URL, RegistryError::InvalidId, "invalid channel id"),
        ("..", URL, RegistryError::InvalidId, "invalid channel id"),
        ("b", "ftp://x", RegistryError::InvalidUrl, "hls_url must be http(s)://"),
        ("a", OTHER, RegistryError::AlreadyExists, "channel already exists: a"),
    ];
    for (id, url, error, message) in cases {
        let e = r
            .add_channel(id.to_string(), url.to_string(), true)
            .unwrap_err();
        assert_eq!(e, error);
        assert_eq!(e.message(id), message);
        assert_eq!(r.list().len(), 1);
        assert_eq!(r.list()[0].hls_url, URL);
    }
}

#[test]
fn updates_take_effect_at_once() {
    let mut r = registry();
    add(&mut r, "a", true);
    // The same source again: nothing to do.
    let same = r
        .update_channel("a", Some(URL.to_string()), Some(true))
        .unwrap();
    assert!(same.is_empty());
    // A new source: the worker starts over.
    let moved = r.update_channel("a", Some(OTHER.to_string()), None).unwrap();
    assert_eq!(steps(&moved), vec!["stop a".to_string(), format!("spawn a {OTHER}")]);
    // A new source for a channel that is switched off.
    let off = r
        .update_channel("a", Some(URL.to_string()), Some(false))
        .unwrap();
    assert_eq!(
        steps(&off),
        vec![
            "stop a".to_string(),
            format!("spawn a {URL}"),
            "stop a".to_string()
        ]
    );
    assert!(!r.list()[0].enabled && !r.list()[0].running);
    // While it is off, a new source starts nothing.
    let silent = r.update_channel("a", Some(OTHER.to_string()), None).unwrap();
    assert!(silent.is_empty());
    assert_eq!(
        steps(&r.enable_channel("a").unwrap()),
        vec![format!("spawn a {OTHER}")]
    );
    assert_eq!(steps(&r.disable_channel("a").unwrap()), vec!["stop a"]);
    assert!(r.disable_channel("a").unwrap().is_empty());
}

#[test]
fn refused_updates_change_nothing() {
    let mut r = registry();
    add(&mut r, "a", true);
    assert_eq!(
        r.update_channel("x", None, Some(false)).unwrap_err(),
        RegistryError::NotFound
    );
    assert_eq!(
        r.update_channel("a", Some("x".to_string()), Some(false))
            .unwrap_err(),
        RegistryError::InvalidUrl
    );
    assert_eq!(r.enable_channel("x").unwrap_err(), RegistryError::NotFound);
    assert_eq!(r.disable_channel("x").unwrap_err(), RegistryError::NotFound);
    assert_eq!(r.remove_channel("x").unwrap_err(), RegistryError::NotFound);
    assert_eq!(
        RegistryError::NotFound.message("x"),
        "channel not found: x"
    );
    assert!(r.list()[0].enabled && r.list()[0].running);
}

#[test]
fn removal_undoes_addition() {
    let mut r = registry();
    add(&mut r, "a", true);
    add(&mut r, "b", true);
    assert_eq!(steps(&r.remove_channel("b").unwrap()), vec!["stop b"]);
    let ids: Vec<String> = r.list().into_iter().map(|c| c.id).collect();
    assert_eq!(ids, vec!["a"]);
    add(&mut r, "c", false);
    assert!(r.remove_channel("c").unwrap().is_empty());
}

#[test]
fn all_channels_are_switched() {
    let mut r = registry();
    add(&mut r, "b", false);
    add(&mut r, "a", true);
    add(&mut r, "c", false);
    let (n, on) = r.enable_all();
    assert_eq!(n, 3);
    assert_eq!(
        steps(&on),
        vec![format!("spawn b {URL}"), format!("spawn c {URL}")]
    );
    assert_eq!(r.active_count(), 3);
    let (n, again) = r.enable_all();
    assert_eq!((n, again.len()), (3, 0));
    let (n, off) = r.disable_all();
    assert_eq!(n, 3);
    assert_eq!(steps(&off), vec!["stop a", "stop b", "stop c"]);
    assert_eq!(r.active_count(), 0);
}

#[test]
fn discovery_lists_active_channels_by_mode() {
    for (mode, path) in [
        (OutputMode::Dash, "/live/a/index.mpd"),
        (OutputMode::Mpegts, "/live/a/mpegts"),
    ] {
        let mut r = ChannelRegistry::new(&config(mode));
        add(&mut r, "b", false);
        add(&mut r, "a", true);
        assert_eq!(
            r.list_active_discovery(),
            vec![("a".to_string(), path.to_string())]
        );
        r.worker_finished("a");
        assert!(r.list_active_discovery().is_empty());
        assert!(r.list()[0].enabled && !r.list()[0].running);
        // An enabled channel whose worker ended is not started by enabling it again.
        assert!(r.enable_channel("a").unwrap().is_empty());
        r.worker_finished("b");
        r.worker_finished("x");
        assert!(!r.list()[1].running);
    }
}

#[test]
fn errors_are_remembered_and_cleared() {
    let mut r = registry();
    add(&mut r, "a", true);
    r.set_last_error("a", Some("timeout".to_string()));
    r.set_last_error("x", Some("lost".to_string()));
    assert_eq!(r.list()[0].last_error.as_deref(), Some("timeout"));
    r.disable_channel("a").unwrap();
    assert_eq!(r.list()[0].last_error.as_deref(), Some("timeout"));
    r.set_last_error("a", None);
    assert_eq!(r.list()[0].last_error, None);
}

#[test]
fn the_pull_list_seeds_the_registry() {
    let source = |channel: &str, enable: bool| PullSource {
        url: URL.to_string(),
        channel: channel.to_string(),
        enable,
    };
    let mut r = registry();
    let (started, result) = r.seed_from_config(&vec![source("a", true), source("b", false)]);
    assert_eq!(result, Ok(()));
    assert_eq!(steps(&started), vec![format!("spawn a {URL}")]);
    assert_eq!(r.list().len(), 2);
    let mut r = registry();
    let (started, result) = r.seed_from_config(&vec![
        source("a", true),
        source("a", true),
        source("b", true),
    ]);
    assert_eq!(result, Err(RegistryError::AlreadyExists));
    assert_eq!(started.len(), 1);
    assert_eq!(r.list().len(), 1);
}

#[test]
fn api_answers() {
    let mut r = registry();
    let request = |id: &str| AddChannelRequest {
        id: id.to_string(),
        hls_url: URL.to_string(),
        enabled: true,
    };
    let (reply, started) = channel_api::add_channel(&mut r, request("a"));
    assert_eq!((reply.status, reply.body.as_str()), (201, "channel added"));
    assert_eq!(started.len(), 1);
    let (reply, started) = channel_api::add_channel(&mut r, request("a"));
    assert_eq!(
        (reply.status, reply.body.as_str()),
        (400, "channel already exists: a")
    );
    assert!(started.is_empty());
    let (reply, stopped) = channel_api::update_channel(
        &mut r,
        "a",
        UpdateChannelRequest {
            hls_url: None,
            enabled: Some(false),
        },
    );
    assert_eq!((reply.status, reply.body.as_str()), (200, "channel updated"));
    assert_eq!(steps(&stopped), vec!["stop a"]);
    let (reply, _) = channel_api::enable_channel(&mut r, "a");
    assert_eq!((reply.status, reply.body.as_str()), (200, "channel enabled"));
    let (reply, _) = channel_api::disable_channel(&mut r, "a");
    assert_eq!(
        (reply.status, reply.body.as_str()),
        (200, "channel disabled")
    );
    let (reply, _) = channel_api::enable_channel(&mut r, "x");
    assert_eq!(
        (reply.status, reply.body.as_str()),
        (400, "channel not found: x")
    );
    let (batch, started) = channel_api::enable_all_channels(&mut r);
    assert_eq!(
        batch,
        BatchChannelResult {
            affected: 1,
            enabled: true
        }
    );
    assert_eq!(started.len(), 1);
    let (batch, stopped) = channel_api::disable_all_channels(&mut r);
    assert_eq!(
        batch,
        BatchChannelResult {
            affected: 1,
            enabled: false
        }
    );
    assert_eq!(stopped.len(), 1);
    let (reply, _) = channel_api::remove_channel(&mut r, "a");
    assert_eq!((reply.status, reply.body.as_str()), (200, "channel removed"));
    let (reply, _) = channel_api::remove_channel(&mut r, "a");
    assert_eq!(
        (reply.status, reply.body.as_str()),
        (400, "channel not found: a")
    );
}
