use utilify::error::AppError;
use utilify::models::{Artist, MissingTrack, Owner, SimplifiedPlaylist, Track};
use utilify::randomizer::SessionRow;
use utilify::shadow::{
    after_reshuffle, build_order, drop_unwritten, find_shadow, new_session, pick_source, playback_outcome,
    removals_around, reshuffled_order, shadow_description, BENCHED_REASON, NOT_ADDED_REASON,
};

fn track(uri: Option<&str>, name: &str, artist: &str) -> Track {
    Track {
        id: None,
        uri: uri.map(|u| u.to_string()),
        name: name.to_string(),
        kind: Some("track".to_string()),
        is_local: false,
        artists: vec![Artist { id: None, name: artist.to_string() }],
        album: None,
        duration_ms: None,
        linked_from: None,
    }
}

fn playlist(id: &str, name: &str, owner: Option<&str>) -> SimplifiedPlaylist {
    SimplifiedPlaylist {
        id: id.to_string(),
        name: name.to_string(),
        uri: None,
        snapshot_id: None,
        owner: owner.map(|o| Owner { id: Some(o.to_string()), display_name: None }),
        images: None,
        public: None,
        collaborative: None,
        description: None,
        tracks: None,
    }
}

fn strings(v: &[&str]) -> Vec<String> {
    v.iter().map(|s| s.to_string()).collect()
}

fn session(order: &[&str]) -> SessionRow {
    SessionRow {
        shadow_playlist_id: "shadow".to_string(),
        source_playlist_id: "src".to_string(),
        source_name: "Src".to_string(),
        shadow_name: "Src-Utilify".to_string(),
        track_count: order.len() as i64,
        last_track_uri: order.last().map(|u| u.to_string()),
        last_shuffled_at: 100,
        reshuffle_count: 4,
        active: true,
        track_order: strings(order),
        pending_pin: None,
        missing_tracks: vec![],
    }
}

#[test]
fn a_shuffle_keeps_every_copyable_track_and_reports_benched_ones() {
    let tracks = vec![
        track(Some("spotify:track:a"), "A", "X"),
        track(Some("spotify:track:b"), "B", "Y"),
        track(None, "Local", "Z"),
        track(Some("spotify:track:c"), "C", "W"),
        track(Some("spotify:track:d"), "D", "V"),
    ];
    let skipped = vec![MissingTrack {
        uri: None,
        name: "Local".to_string(),
        artists: "Z".to_string(),
        reason: "Local file".to_string(),
    }];
    let benched = strings(&["spotify:track:b"]);
    let (mut uris, missing) = build_order(&tracks, skipped, &benched, Some("spotify:track:d")).unwrap();
    uris.sort();
    assert_eq!(uris, strings(&["spotify:track:a", "spotify:track:c"]));
    assert_eq!(missing.len(), 2);
    assert_eq!(missing[0].name, "Local");
    assert_eq!(missing[1].uri.as_deref(), Some("spotify:track:b"));
    assert_eq!(missing[1].artists, "Y");
    assert_eq!(missing[1].reason, BENCHED_REASON);
}

#[test]
fn an_empty_shuffle_is_refused_unless_a_track_was_set_aside() {
    let tracks = vec![track(Some("spotify:track:a"), "A", "X")];
    let benched = strings(&["spotify:track:a"]);
    assert!(matches!(build_order(&tracks, vec![], &benched, None), Err(AppError::EmptyPlaylist)));
    let (uris, _) = build_order(&tracks, vec![], &vec![], Some("spotify:track:a")).unwrap();
    assert!(uris.is_empty());
}

#[test]
fn copies_the_playlist_lacks_come_off_the_end_of_the_order() {
    let mut order = strings(&["u1", "u2", "u1", "u3", "u1"]);
    let actual = vec![track(Some("u1"), "One", "A"), track(Some("u2"), "Two", "B"), track(None, "x", "y")];
    let tracks = vec![track(Some("u1"), "One", "A"), track(Some("u3"), "Three", "C")];
    let missing = drop_unwritten(&mut order, &actual, &tracks);
    assert_eq!(order, strings(&["u1", "u2"]));
    assert_eq!(missing.len(), 2);
    assert_eq!(missing[0].uri.as_deref(), Some("u1"));
    assert_eq!(missing[0].name, "One");
    assert_eq!(missing[1].uri.as_deref(), Some("u3"));
    assert_eq!(missing[1].name, "Three");
    assert_eq!(missing[1].artists, "C");
    assert_eq!(missing[1].reason, NOT_ADDED_REASON);
}

#[test]
fn a_complete_read_back_changes_nothing() {
    let mut order = strings(&["u1", "u2"]);
    let actual = vec![track(Some("u2"), "Two", "B"), track(Some("u1"), "One", "A")];
    let missing = drop_unwritten(&mut order, &actual, &vec![]);
    assert_eq!(order, strings(&["u1", "u2"]));
    assert!(missing.is_empty());
}

#[test]
fn an_unknown_uri_is_reported_under_itself() {
    let mut order = strings(&["u9"]);
    let missing = drop_unwritten(&mut order, &vec![], &vec![]);
    assert!(order.is_empty());
    assert_eq!(missing[0].name, "u9");
    assert_eq!(missing[0].artists, "");
}

#[test]
fn the_source_must_exist_and_not_be_a_shadow() {
    let all = vec![playlist("p1", "Chill", Some("me")), playlist("p2", "Chill-Utilify", Some("me"))];
    assert_eq!(pick_source(&all, "p1").unwrap(), 0);
    match pick_source(&all, "p2") {
        Err(AppError::Other(m)) => assert!(m.starts_with("That is already a Utilify shadow playlist")),
        other => panic!("unexpected {other:?}"),
    }
    match pick_source(&all, "p3") {
        Err(AppError::Other(m)) => assert_eq!(m, "Playlist not found in your library. Refresh and try again."),
        other => panic!("unexpected {other:?}"),
    }
}

#[test]
fn an_existing_shadow_is_reused_only_when_owned() {
    let all = vec![
        playlist("p1", "Chill", Some("me")),
        playlist("p2", "Chill-Utilify", Some("someone")),
        playlist("p3", "Chill-Utilify", Some("me")),
    ];
    assert_eq!(find_shadow(&all, "Chill-Utilify", Some("me")), Some(2));
    assert_eq!(find_shadow(&all, "Chill-Utilify", None), Some(1));
    assert_eq!(find_shadow(&all, "Rock-Utilify", Some("me")), None);
    assert_eq!(shadow_description("Chill"), "Randomized copy of \"Chill\" managed by Utilify.");
}

#[test]
fn a_new_session_carries_the_count_over() {
    let prev = session(&["a"]);
    let s = new_session(
        "shadow".to_string(),
        "src".to_string(),
        "Src".to_string(),
        strings(&["x", "y"]),
        500,
        Some(&prev),
        vec![],
    );
    assert_eq!(s.shadow_name, "Src-Utilify");
    assert_eq!(s.track_count, 2);
    assert_eq!(s.last_track_uri.as_deref(), Some("y"));
    assert_eq!(s.reshuffle_count, 4);
    assert!(s.active);
    assert!(s.pending_pin.is_none());
    let fresh = new_session("s".to_string(), "p".to_string(), "P".to_string(), vec![], 1, None, vec![]);
    assert_eq!(fresh.reshuffle_count, 0);
    assert!(fresh.last_track_uri.is_none());
}

#[test]
fn playback_problems_become_warnings() {
    assert_eq!(playback_outcome(&None, "X"), (false, None));
    assert_eq!(playback_outcome(&Some(Ok(())), "X"), (true, None));
    let (started, w) = playback_outcome(&Some(Err(AppError::NoActiveDevice)), "X-Utilify");
    assert!(!started);
    assert_eq!(
        w.unwrap(),
        "\"X-Utilify\" is ready, but no Spotify device is available. Open Spotify and play it from there with shuffle off."
    );
    let (_, w) = playback_outcome(&Some(Err(AppError::PremiumRequired)), "X");
    assert_eq!(w.unwrap(), "\"X\" is ready. Spotify Premium is required to start playback automatically.");
    let (_, w) = playback_outcome(&Some(Err(AppError::RateLimited)), "X");
    assert_eq!(
        w.unwrap(),
        "\"X\" is ready, but playback could not be started: Spotify is rate limiting requests. Wait a minute and try again."
    );
}

#[test]
fn an_incremental_reshuffle_removes_everything_but_the_pivot_once() {
    let order = strings(&["spotify:track:c", "spotify:track:a", "spotify:track:p", "spotify:track:a", "spotify:track:b"]);
    assert_eq!(
        removals_around(&order, "spotify:track:p"),
        strings(&["spotify:track:a", "spotify:track:b", "spotify:track:c"])
    );
    let (o, pin) = reshuffled_order(Some("p"), strings(&["x", "y"]));
    assert_eq!(o, strings(&["p", "x", "y"]));
    assert_eq!(pin.as_deref(), Some("p"));
    let (o, pin) = reshuffled_order(None, strings(&["x", "y"]));
    assert_eq!(o, strings(&["x", "y"]));
    assert!(pin.is_none());
}

#[test]
fn a_reshuffle_updates_the_session() {
    let s = session(&["a", "b"]);
    let auto = after_reshuffle(&s, strings(&["p", "x"]), Some("p".to_string()), 900, true, vec![]);
    assert_eq!(auto.reshuffle_count, 5);
    assert_eq!(auto.track_count, 2);
    assert_eq!(auto.last_track_uri.as_deref(), Some("x"));
    assert_eq!(auto.last_shuffled_at, 900);
    assert_eq!(auto.pending_pin.as_deref(), Some("p"));
    assert_eq!(auto.shadow_playlist_id, "shadow");
    let manual = after_reshuffle(&s, strings(&["x"]), None, 900, false, vec![]);
    assert_eq!(manual.reshuffle_count, 4);
}
