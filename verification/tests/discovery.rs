use utilify::discovery::{
    check_source_kind, discover_mode, parse_playlist_ref, discovery_batch_size, release_limit, seed_playlist_source, source_is_fresh,
    source_key, thin_sample, Candidate, SOURCE_FRESH_SECS,
};

fn candidate(uri: &str, artists: Option<&str>) -> Candidate {
    Candidate {
        track_uri: uri.to_string(),
        name: None,
        artists: artists.map(|a| a.to_string()),
        album: None,
        source_key: "seed_artist:x".to_string(),
    }
}

#[test]
fn parses_playlist_references() {
    assert_eq!(parse_playlist_ref("spotify:playlist:37i9dQZF1DXcBWIGoYBM5M"), Some("37i9dQZF1DXcBWIGoYBM5M".into()));
    assert_eq!(
        parse_playlist_ref("https://open.spotify.com/playlist/37i9dQZF1DXcBWIGoYBM5M?si=abc"),
        Some("37i9dQZF1DXcBWIGoYBM5M".into())
    );
    assert_eq!(parse_playlist_ref("  37i9dQZF1DXcBWIGoYBM5M "), Some("37i9dQZF1DXcBWIGoYBM5M".into()));
    assert_eq!(parse_playlist_ref("not a playlist"), None);
}

#[test]
fn short_or_empty_references_are_refused() {
    assert_eq!(parse_playlist_ref("abc123"), None);
    assert_eq!(parse_playlist_ref("https://open.spotify.com/playlist/?si=abc"), None);
}

#[test]
fn a_thin_sample_spreads_over_artists_first() {
    let sample = vec![
        candidate("spotify:track:1", Some("A")),
        candidate("spotify:track:2", Some("a")),
        candidate("spotify:track:3", Some("B")),
        candidate("spotify:track:4", None),
    ];
    let out = thin_sample(sample.clone(), 3);
    let uris: Vec<&str> = out.iter().map(|c| c.track_uri.as_str()).collect();
    assert_eq!(uris, vec!["spotify:track:1", "spotify:track:3", "spotify:track:4"]);

    let out = thin_sample(sample, 4);
    let uris: Vec<&str> = out.iter().map(|c| c.track_uri.as_str()).collect();
    assert_eq!(uris, vec!["spotify:track:1", "spotify:track:3", "spotify:track:4", "spotify:track:2"]);
}

#[test]
fn sources_and_limits() {
    assert!(check_source_kind("followed_artist").is_ok());
    assert!(check_source_kind("seed_artist").is_ok());
    assert!(check_source_kind("seed_playlist").is_err());
    assert_eq!(release_limit(0), 1);
    assert_eq!(release_limit(80), 50);
    assert_eq!(release_limit(12), 12);
    assert_eq!(source_key("seed_artist", "abc"), "seed_artist:abc");
    assert!(source_is_fresh(1000, 1000 + SOURCE_FRESH_SECS - 1));
    assert!(!source_is_fresh(1000, 1000 + SOURCE_FRESH_SECS));
    let s = seed_playlist_source("pl", "Mix".to_string(), 5, 7);
    assert_eq!(s.key, "seed_playlist:pl");
    assert_eq!(s.kind, "seed_playlist");
    assert_eq!(s.track_count, 7);
}

#[test]
fn batch_sizes_and_modes() {
    assert_eq!(discovery_batch_size(0, "queue"), 1);
    assert_eq!(discovery_batch_size(50, "queue"), 20);
    assert_eq!(discovery_batch_size(500, "playlist"), 100);
    assert_eq!(discovery_batch_size(30, "playlist"), 30);
    assert_eq!(discover_mode("queue").unwrap(), true);
    assert_eq!(discover_mode("playlist").unwrap(), false);
    match discover_mode("radio") {
        Err(utilify::error::AppError::Other(m)) => assert_eq!(m, "unknown discovery mode 'radio'"),
        other => panic!("unexpected {other:?}"),
    }
}
