use hls2dash::config::OutputMode;
use hls2dash::http::server::{
    is_safe_file, metrics, serve_media, serve_mpegts, MediaReply, StreamReply,
};
use hls2dash::service::next_backoff_secs;

#[test]
fn media_files_that_may_be_served() {
    for file in ["init.mp4", "seg_1.m4s", "a.mp4", "index.mpd", ".mpd"] {
        assert!(is_safe_file(file), "{file}");
    }
    for file in [
        "", "seg_1.ts", "..", "a..mp4", "../init.mp4", "a/b.mp4", "a\\b.mp4", "init.mp4.txt", "mp4",
    ] {
        assert!(!is_safe_file(file), "{file}");
    }
}

#[test]
fn media_requests() {
    let served = |channel: &str, file: &str| match serve_media(channel, file) {
        MediaReply::Serve {
            content_type,
            segment,
        } => Some((content_type, segment)),
        MediaReply::InvalidPath => None,
    };
    assert_eq!(served("demo", "seg_12.m4s"), Some(("video/mp4", Some(12))));
    assert_eq!(served("demo", "init.mp4"), Some(("video/mp4", None)));
    assert_eq!(
        served("demo", "x.mpd"),
        Some(("application/octet-stream", None))
    );
    assert_eq!(served("de mo", "init.mp4"), None);
    assert_eq!(served("..", "init.mp4"), None);
    assert_eq!(served(".", "init.mp4"), None);
    assert_eq!(served("demo", "../init.mp4"), None);
}

#[test]
fn stream_requests() {
    let dir: Vec<String> = (1..=3).map(|n| format!("seg_{n}.ts")).collect();
    assert_eq!(
        serve_mpegts(OutputMode::Mpegts, "demo", &dir, 3),
        StreamReply::Stream
    );
    assert_eq!(
        serve_mpegts(OutputMode::Mpegts, "demo", &dir, 4),
        StreamReply::NotReady
    );
    assert_eq!(
        serve_mpegts(OutputMode::Dash, "demo", &dir, 3),
        StreamReply::InvalidPath
    );
    assert_eq!(
        serve_mpegts(OutputMode::Mpegts, "a/b", &dir, 3),
        StreamReply::InvalidPath
    );
}

#[test]
fn metrics_text() {
    assert_eq!(metrics(0), "hls2dash_active_channels 0\n");
    assert_eq!(metrics(12), "hls2dash_active_channels 12\n");
}

#[test]
fn backoff_doubles_up_to_half_a_minute() {
    let mut secs = 1;
    let mut seen = Vec::new();
    for _ in 0..6 {
        secs = next_backoff_secs(secs, true);
        seen.push(secs);
    }
    assert_eq!(seen, vec![2, 4, 8, 16, 30, 30]);
    assert_eq!(next_backoff_secs(30, false), 1);
    assert_eq!(next_backoff_secs(u64::MAX, true), 30);
}
