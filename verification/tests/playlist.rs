use hls2dash::hls::playlist::{
    first_variant_uri, is_http_url, parse_media_playlist, resolve_joined, resolve_media_playlist_url,
    resolve_uri, PlaylistLocation, ResolveError,
};

const MEDIA: &str = "#EXTM3U\n#EXT-X-VERSION:3\n#EXT-X-TARGETDURATION:4\n\
#EXT-X-MEDIA-SEQUENCE:7\n#EXTINF:3.5,title\na.ts\n\n# a comment\n#EXT-X-DISCONTINUITY\n\
#EXTINF:2,\r\nb.ts\r\n#EXT-X-ENDLIST\n";

#[test]
fn a_media_playlist_is_read() {
    let pl = parse_media_playlist(MEDIA);
    assert_eq!(pl.media_sequence, 7);
    assert_eq!(pl.target_duration, "4");
    assert!(pl.end_list);
    assert_eq!(pl.segments.len(), 2);
    assert_eq!(pl.segments[0].seq, 7);
    assert_eq!(pl.segments[0].uri, "a.ts");
    assert_eq!(pl.segments[0].duration_secs, "3.5");
    assert!(!pl.segments[0].discontinuity);
    assert_eq!(pl.segments[1].seq, 8);
    assert_eq!(pl.segments[1].uri, "b.ts");
    assert_eq!(pl.segments[1].duration_secs, "2");
    assert!(pl.segments[1].discontinuity);
}

#[test]
fn an_empty_text_is_an_empty_playlist() {
    let pl = parse_media_playlist("");
    assert_eq!(pl.media_sequence, 0);
    assert_eq!(pl.target_duration, "6.0");
    assert!(pl.segments.is_empty());
    assert!(!pl.end_list);
}

#[test]
fn ignored_lines_change_nothing() {
    let with = "#EXTM3U\n#EXT-X-MEDIA-SEQUENCE:1\n#EXTINF:2,\n#EXT-X-SOMETHING:1\n\n#x\na.ts\n";
    let without = "#EXTM3U\n#EXT-X-MEDIA-SEQUENCE:1\n#EXTINF:2,\na.ts\n";
    let a = parse_media_playlist(with);
    let b = parse_media_playlist(without);
    assert_eq!(a.segments.len(), b.segments.len());
    assert_eq!(a.segments[0].duration_secs, b.segments[0].duration_secs);
    assert_eq!(a.segments[0].seq, b.segments[0].seq);
}

#[test]
fn segments_are_numbered_one_after_the_other() {
    // A URI without a duration before it is no segment.
    let pl = parse_media_playlist("#EXT-X-MEDIA-SEQUENCE:100\n#EXTINF:2,\na.ts\nno-extinf.ts\n#EXTINF:2,\nb.ts\n#EXTINF:2,\nc.ts\n");
    let seqs: Vec<u64> = pl.segments.iter().map(|s| s.seq).collect();
    assert_eq!(seqs, vec![100, 101, 102]);
}

#[test]
fn every_duration_is_a_number() {
    let pl = parse_media_playlist("#EXT-X-TARGETDURATION:x\n#EXTINF:abc,\na.ts\n#EXTINF:nan,\nb\n");
    assert!(pl.target_duration.parse::<f64>().is_ok());
    for s in &pl.segments {
        assert!(s.duration_secs.parse::<f64>().is_ok());
    }
}

#[test]
fn the_first_variant_of_a_master_playlist() {
    let body = "#EXTM3U\n#EXT-X-STREAM-INF:BANDWIDTH=1\nlow/index.m3u8\n\
#EXT-X-STREAM-INF:BANDWIDTH=2\nhigh/index.m3u8\n";
    assert_eq!(first_variant_uri(body), Some("low/index.m3u8".to_string()));
    assert_eq!(first_variant_uri(MEDIA), None);
}

#[test]
fn http_urls() {
    assert!(is_http_url("http://a"));
    assert!(is_http_url("https://a"));
    assert!(!is_http_url("HTTP://a"));
    assert!(!is_http_url("ftp://a"));
    assert!(!is_http_url("http:/a"));
}

#[test]
fn uris_resolve_against_the_playlist() {
    let base = "http://origin.example.com/live/x/index.m3u8?token=1";
    assert_eq!(
        resolve_uri(base, "seg1.ts").unwrap(),
        "http://origin.example.com/live/x/seg1.ts"
    );
    assert_eq!(
        resolve_uri(base, "../y/seg1.ts").unwrap(),
        "http://origin.example.com/live/y/seg1.ts"
    );
    assert_eq!(
        resolve_uri(base, "/abs.ts").unwrap(),
        "http://origin.example.com/abs.ts"
    );
    // A URI with an HTTP scheme is kept as it stands.
    assert_eq!(
        resolve_uri(base, "http://cdn.example.com/a b.ts").unwrap(),
        "http://cdn.example.com/a b.ts"
    );
    assert_eq!(
        resolve_uri("no base", "https://cdn.example.com/a.ts").unwrap(),
        "https://cdn.example.com/a.ts"
    );
}

#[test]
fn unresolvable_uris_are_refused() {
    assert!(matches!(
        resolve_uri("not a url", "a.ts"),
        Err(ResolveError::Playlist)
    ));
    assert!(matches!(
        resolve_uri("http://origin.example.com/", "http:///["),
        Ok(_)
    ));
    assert!(matches!(
        resolve_uri("http://origin.example.com/", "//["),
        Err(ResolveError::Join)
    ));
    assert!(matches!(
        resolve_joined("a.ts", true, None),
        Err(ResolveError::Join)
    ));
    assert_eq!(
        resolve_joined("a.ts", true, Some("http://h/a.ts".to_string())).unwrap(),
        "http://h/a.ts"
    );
}

#[test]
fn one_level_of_master_is_followed() {
    let url = "http://origin.example.com/live/master.m3u8";
    let master = "#EXTM3U\n#EXT-X-STREAM-INF:BANDWIDTH=1\nlow/index.m3u8\n";
    match resolve_media_playlist_url(url, master).unwrap() {
        PlaylistLocation::At(at) => {
            assert_eq!(at, "http://origin.example.com/live/low/index.m3u8")
        }
        PlaylistLocation::Here => panic!("the master has a variant"),
    }
    assert!(matches!(
        resolve_media_playlist_url(url, MEDIA),
        Ok(PlaylistLocation::Here)
    ));
    assert!(resolve_media_playlist_url("nowhere", master).is_err());
}

#[test]
fn segments_are_the_announced_uris() {
    let pl = parse_media_playlist(
        "#EXTINF:1,\n#EXT-X-DISCONTINUITY\n#EXTINF:2,\na.ts\nb.ts\n#EXT-X-DISCONTINUITY\nc.ts\n\
         #EXTINF:3,\nd.ts\n#EXTINF:4,\ne.ts\n#EXTINF:5,\n",
    );
    let read: Vec<(&str, &str, bool)> = pl
        .segments
        .iter()
        .map(|s| (s.uri.as_str(), s.duration_secs.as_str(), s.discontinuity))
        .collect();
    assert_eq!(
        read,
        vec![("a.ts", "2", true), ("d.ts", "3", true), ("e.ts", "4", false)]
    );
}
