use utilify::diff::{check_pair, diff, diff_tracks, PlaylistRef};
use utilify::duplicates::{
    check_selection, occurrences_in, plan_removal, removal_playlists, removal_uris, scan_report, RemovalRequest,
};
use utilify::error::AppError;
use utilify::merge::{check_sources, merge_description, merge_uris};
use utilify::playlists::{batch_positions, batches, remove_keys, split_entries, try_other_key};
use utilify::models::{Artist, PlaylistEntry, Track};
use utilify::tracks::TrackInfo;

fn row(uri: &str, name: &str, artists: &str, position: i64) -> TrackInfo {
    TrackInfo {
        uri: uri.to_string(),
        id: None,
        name: name.to_string(),
        artists: artists.to_string(),
        artist_ids: vec![],
        artist_refs: vec![],
        album: None,
        duration_ms: None,
        added_at: None,
        position,
        is_local: false,
        playable: true,
    }
}

fn local(name: &str, position: i64) -> TrackInfo {
    let mut t = row("spotify:local:x", name, "Someone", position);
    t.is_local = true;
    t.playable = false;
    t
}

fn strings(v: &[&str]) -> Vec<String> {
    v.iter().map(|s| s.to_string()).collect()
}

#[test]
fn a_diff_splits_two_playlists_three_ways() {
    let a = vec![row("u1", "One", "A", 0), row("u2", "Two", "B", 1), local("L", 2)];
    let b = vec![row("u2", "Two", "B", 0), row("u3", "Three", "C", 1)];
    let (only_a, only_b, both) = diff_tracks(&a, &b, false);
    assert_eq!(only_a.len(), 1);
    assert_eq!(only_a[0].uri, "u1");
    assert_eq!(only_b.len(), 1);
    assert_eq!(only_b[0].uri, "u3");
    assert_eq!(both.len(), 1);
    assert!(!both[0].different_uri);
}

#[test]
fn name_matching_pairs_editions_under_different_uris() {
    let a = vec![row("u1", "Hello - Remastered 2011", "Adele", 0)];
    let b = vec![row("u9", "Hello", "Adele, Someone", 0)];
    let (only_a, only_b, both) = diff_tracks(&a, &b, true);
    assert!(only_a.is_empty() && only_b.is_empty());
    assert_eq!(both.len(), 1);
    assert!(both[0].different_uri);
    assert_eq!(both[0].b.uri, "u9");
}

#[test]
fn a_diff_needs_two_playlists() {
    let p = PlaylistRef { id: "p".to_string(), name: "P".to_string() };
    match diff(p.clone(), p.clone(), &vec![], &vec![], false) {
        Err(AppError::Other(m)) => assert_eq!(m, "Pick two different playlists."),
        other => panic!("unexpected {other:?}"),
    }
    assert!(check_pair("a", "b").is_ok());
}

#[test]
fn a_merge_writes_each_uri_once() {
    let tracks = vec![
        row("u1", "One", "A", 0),
        row("u2", "Two", "B", 1),
        row("u1", "One", "A", 0),
        local("L", 2),
        row("u3", "One - Live", "A", 3),
    ];
    let (uris, seen, skipped) = merge_uris(&tracks, false);
    assert_eq!(uris, strings(&["u1", "u2", "u3"]));
    assert_eq!(seen, 4);
    assert_eq!(skipped, 1);
    let (uris, _, skipped) = merge_uris(&tracks, true);
    assert_eq!(uris, strings(&["u1", "u2"]));
    assert_eq!(skipped, 2);
}

#[test]
fn merge_inputs_and_descriptions() {
    assert!(check_sources(1).is_err());
    assert!(check_sources(2).is_ok());
    assert_eq!(merge_description("  Mix  ", &strings(&["A", "B"])), "Mix");
    assert_eq!(merge_description(" ", &strings(&["A", "B"])), "Merge of A, B");
}

#[test]
fn duplicates_within_one_playlist() {
    assert!(check_selection(0).is_err());
    let tracks = vec![row("u1", "One", "A", 0), row("u2", "Two", "B", 1), row("u1", "One", "A", 2), local("L", 3)];
    let occ = occurrences_in("p", "P", &tracks);
    assert_eq!(occ.len(), 3);
    let report = scan_report(1, &occ, false);
    assert_eq!(report.mode, "single");
    assert_eq!(report.tracks_scanned, 3);
    assert_eq!(report.groups.len(), 1);
    assert_eq!(report.groups[0].match_kind, "uri");
    assert_eq!(report.groups[0].occurrences.len(), 2);
    assert_eq!(report.groups[0].occurrences[1].track.position, 2);
}

#[test]
fn duplicates_across_playlists_need_two_playlists() {
    let mut occ = occurrences_in("p", "P", &vec![row("u1", "Song", "A", 0), row("u1", "Song", "A", 1)]);
    occ.extend(occurrences_in("q", "Q", &vec![row("u2", "Other", "B", 0), row("u3", "Song - 2011 Remaster", "A", 1)]));
    let report = scan_report(2, &occ, true);
    assert_eq!(report.mode, "cross");
    assert_eq!(report.groups.len(), 1);
    assert_eq!(report.groups[0].match_kind, "name");
    assert_eq!(report.groups[0].occurrences.len(), 3);
    assert_eq!(report.groups[0].occurrences[2].playlist_id, "q");
}

#[test]
fn a_removal_plan_puts_kept_copies_back_in_place() {
    let entries = vec![
        row("u1", "One", "A", 0),
        row("u2", "Two", "B", 1),
        row("u1", "One", "A", 2),
        row("u3", "Three", "C", 3),
        row("u1", "One", "A", 4),
    ];
    let reqs = vec![RemovalRequest { playlist_id: "p".to_string(), uri: "u1".to_string(), positions: vec![2] }];
    let (removed, adds) = plan_removal(&entries, &reqs, "p");
    assert_eq!(removed, 1);
    assert_eq!(adds, vec![(0, "u1".to_string()), (3, "u1".to_string())]);
    // Remove every copy of the URI, then add the kept copies back in turn.
    let mut playlist: Vec<String> = entries.iter().map(|e| e.uri.clone()).filter(|u| u != "u1").collect();
    for (idx, uri) in &adds {
        playlist.insert(*idx, uri.clone());
    }
    assert_eq!(playlist, strings(&["u1", "u2", "u3", "u1"]));
    assert_eq!(removal_playlists(&reqs), strings(&["p"]));
    assert_eq!(removal_uris(&reqs, "p"), strings(&["u1"]));
    assert!(removal_uris(&reqs, "q").is_empty());
}

fn track(uri: Option<&str>, local: bool, kind: Option<&str>) -> Track {
    Track {
        id: None,
        uri: uri.map(|u| u.to_string()),
        name: "N".to_string(),
        kind: kind.map(|k| k.to_string()),
        is_local: local,
        artists: vec![Artist { id: None, name: "A".to_string() }],
        album: None,
        duration_ms: None,
        linked_from: None,
    }
}

#[test]
fn entries_that_cannot_be_copied_are_reported() {
    let entries = vec![
        PlaylistEntry { added_at: None, track: Some(track(Some("spotify:track:1"), false, Some("track"))) },
        PlaylistEntry { added_at: None, track: Some(track(Some("spotify:local:x"), true, None)) },
        PlaylistEntry { added_at: None, track: Some(track(Some("spotify:episode:e"), false, Some("episode"))) },
        PlaylistEntry { added_at: None, track: None },
    ];
    let items = split_entries(entries);
    assert_eq!(items.tracks.len(), 1);
    assert_eq!(items.skipped.len(), 3);
    assert_eq!(items.skipped[0].reason, "Local file; the Spotify API cannot add it to playlists");
    assert_eq!(items.skipped[1].reason, "Podcast episode; only tracks are copied");
    assert_eq!(items.skipped[2].name, "Unknown track");
    assert!(items.skipped[2].uri.is_none());
}

#[test]
fn writes_go_in_batches_of_a_hundred() {
    let uris: Vec<String> = (0..250).map(|i| format!("u{i}")).collect();
    let b = batches(&uris);
    assert_eq!(b.len(), 3);
    assert_eq!(b[0].len(), 100);
    assert_eq!(b[2].len(), 50);
    assert_eq!(b[2][0], "u200");
    assert_eq!(b.concat(), uris);
    assert!(batches(&vec![]).is_empty());
    assert_eq!(batch_positions(Some(5), 250), vec![Some(5), Some(105), Some(205)]);
    assert_eq!(batch_positions(None, 101), vec![None, None]);
}

#[test]
fn removals_try_the_learned_body_key() {
    assert_eq!(remove_keys(0), vec![("items", 2), ("tracks", 1)]);
    assert_eq!(remove_keys(1), vec![("tracks", 1)]);
    assert_eq!(remove_keys(2), vec![("items", 2)]);
    let bad = AppError::Spotify { status: 400, message: "bad".to_string() };
    assert!(try_other_key(&bad, 2));
    assert!(!try_other_key(&bad, 1));
    assert!(!try_other_key(&AppError::RateLimited, 2));
}

#[test]
fn an_episode_with_a_track_uri_is_never_playable() {
    assert!(track(Some("spotify:track:1"), false, Some("track")).is_playable_catalog_track());
    assert!(!track(Some("spotify:track:1"), false, Some("episode")).is_playable_catalog_track());
    assert!(!track(Some("spotify:track:1"), true, None).is_playable_catalog_track());
}
