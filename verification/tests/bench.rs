use utilify::bench::{
    check_bench_request, check_unbench, drop_from_session, new_bench, restore_failure, restore_position, restore_retry,
    restore_time, shadow_uri_for, shadows_to_prune, BenchRequest, BenchRow, RestoreRetry, MAX_DURATION_SECS,
};
use utilify::error::AppError;
use utilify::randomizer::SessionRow;

fn request(uri: &str, secs: i64) -> BenchRequest<'_> {
    BenchRequest {
        playlist_id: "pl",
        track_uri: uri,
        track_name: Some("Song"),
        artist_name: Some("Band"),
        position: Some(3),
        duration_secs: secs,
    }
}

fn row(name: Option<&str>, playlist: Option<&str>, restored: Option<i64>) -> BenchRow {
    BenchRow {
        id: 1,
        track_uri: "spotify:track:x".to_string(),
        track_name: name.map(|n| n.to_string()),
        artist_name: None,
        playlist_id: "pl".to_string(),
        playlist_name: playlist.map(|n| n.to_string()),
        original_position: Some(3),
        benched_at: 100,
        restore_at: 200,
        restored_at: restored,
    }
}

fn session(shadow: &str, source: &str, active: bool, order: &[&str]) -> SessionRow {
    SessionRow {
        shadow_playlist_id: shadow.to_string(),
        source_playlist_id: source.to_string(),
        source_name: "S".to_string(),
        shadow_name: "S-Utilify".to_string(),
        track_count: order.len() as i64,
        last_track_uri: order.last().map(|u| u.to_string()),
        last_shuffled_at: 0,
        reshuffle_count: 0,
        active,
        track_order: order.iter().map(|u| u.to_string()).collect(),
        pending_pin: None,
        missing_tracks: vec![],
    }
}

#[test]
fn bench_lifecycle() {
    assert!(check_bench_request(&request("spotify:track:x", 3600), false).is_ok());
    assert!(check_bench_request(&request("spotify:track:x", 59), false).is_err());
    assert!(check_bench_request(&request("spotify:track:x", MAX_DURATION_SECS + 1), false).is_err());
    assert!(check_bench_request(&request("spotify:local:x", 3600), false).is_err());
    assert!(check_bench_request(&request("spotify:track:x", 3600), true).is_err());
    assert_eq!(restore_time(100, 100), 200);
    let b = new_bench(&request("spotify:track:x", 150), Some("Mix"), 100);
    assert_eq!(b.restore_at, 250);
    assert_eq!(b.original_position, Some(3));
    assert_eq!(b.playlist_name, Some("Mix"));
    assert_eq!(restore_position(Some(4)), Some(4));
    assert_eq!(restore_position(Some(-1)), None);
    assert_eq!(restore_position(None), None);
}

#[test]
fn a_failed_restore_is_retried_or_reported() {
    let shrank = AppError::Spotify { status: 400, message: "bad position".to_string() };
    assert_eq!(restore_retry(&shrank, true), RestoreRetry::Append);
    assert_eq!(restore_retry(&shrank, false), RestoreRetry::Fail);
    let gone = AppError::Spotify { status: 404, message: "gone".to_string() };
    assert_eq!(restore_retry(&gone, true), RestoreRetry::Gone);
    assert_eq!(restore_retry(&AppError::RateLimited, true), RestoreRetry::Fail);
    assert_eq!(
        restore_failure(&row(Some("Song"), None, None), &AppError::RateLimited),
        "Could not restore \"Song\" to \"pl\": Spotify is rate limiting requests. Wait a minute and try again."
    );
    assert_eq!(
        restore_failure(&row(None, Some("Mix"), None), &AppError::EmptyPlaylist),
        "Could not restore \"spotify:track:x\" to \"Mix\": Playlist has no playable tracks."
    );
}

#[test]
fn unbenching_needs_a_live_entry() {
    match check_unbench(None) {
        Err(AppError::Other(m)) => assert_eq!(m, "Unknown bench entry."),
        other => panic!("unexpected {other:?}"),
    }
    match check_unbench(Some(row(None, None, Some(5)))) {
        Err(AppError::Other(m)) => assert_eq!(m, "That track has already been restored."),
        other => panic!("unexpected {other:?}"),
    }
    assert_eq!(check_unbench(Some(row(None, None, None))).unwrap().id, 1);
}

#[test]
fn benching_prunes_the_shadows_that_hold_the_track() {
    let own = session("pl", "src", true, &["a"]);
    let active = vec![
        session("sh1", "pl", true, &["a", "b"]),
        session("sh2", "other", true, &["a"]),
        session("pl", "pl", true, &["a"]),
    ];
    let r = shadows_to_prune(Some(own), active, "pl");
    let ids: Vec<&str> = r.iter().map(|s| s.shadow_playlist_id.as_str()).collect();
    assert_eq!(ids, vec!["pl", "sh1"]);
    assert!(shadows_to_prune(Some(session("pl", "src", false, &[])), vec![], "pl").is_empty());

    let mut s = session("sh1", "pl", true, &["a", "b", "a", "c"]);
    drop_from_session(&mut s, &vec!["a".to_string()]);
    assert_eq!(s.track_order, vec!["b".to_string(), "c".to_string()]);
    assert_eq!(s.track_count, 2);
    assert_eq!(s.last_track_uri.as_deref(), Some("c"));
    assert_eq!(shadow_uri_for("pl"), "spotify:playlist:pl");
}
