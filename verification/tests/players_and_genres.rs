use utilify::discovery::{oversample, passed_between, shared_playlist};
use utilify::genre::{
    after_probe, artist_names_of, cache_cutoff, genres_of_track, ids_not_in, search_hit, should_probe_search, sorted_ids,
    tally_genres, GENRE_CACHE_SECS,
};
use utilify::library::{playlist_row, with_flags};
use utilify::models::{ArtistObject, Context, CountRef, Device, Image, Owner, PlaybackState, SimplifiedPlaylist, Track};
use utilify::playback::{device_query, pick_device, DevicePick};
use utilify::playback_log::counts_as_skip;
use utilify::tracks::{ArtistRef, TrackInfo};
use utilify::updater::{add_chunk, current_version};

fn device(id: Option<&str>, active: bool, restricted: bool) -> Device {
    Device { id: id.map(|i| i.to_string()), name: "D".to_string(), is_active: active, is_restricted: restricted, kind: None }
}

fn playing(context: Option<&str>, uri: &str) -> PlaybackState {
    PlaybackState {
        device: None,
        is_playing: true,
        progress_ms: Some(1000),
        shuffle_state: false,
        repeat_state: None,
        context: context.map(|c| Context { uri: c.to_string(), kind: None }),
        item: Some(Track {
            id: None,
            uri: Some(uri.to_string()),
            name: "N".to_string(),
            kind: None,
            is_local: false,
            artists: vec![],
            album: None,
            duration_ms: None,
            linked_from: None,
        }),
        currently_playing_type: None,
        timestamp: 0,
    }
}

fn tagged_row(uri: &str, ids: &[&str]) -> TrackInfo {
    TrackInfo {
        uri: uri.to_string(),
        id: None,
        name: uri.to_string(),
        artists: "A".to_string(),
        artist_ids: ids.iter().map(|i| i.to_string()).collect(),
        artist_refs: ids
            .iter()
            .map(|i| ArtistRef { id: Some(i.to_string()), name: format!("name-{i}") })
            .collect(),
        album: None,
        duration_ms: None,
        added_at: None,
        position: 0,
        is_local: false,
        playable: true,
    }
}

fn strings(v: &[&str]) -> Vec<String> {
    v.iter().map(|s| s.to_string()).collect()
}

#[test]
fn a_playlist_starts_on_the_active_device_else_the_first_usable_one() {
    let ds = vec![device(Some("a"), false, false), device(Some("b"), true, true), device(Some("c"), true, false)];
    assert_eq!(pick_device(&ds), DevicePick::Active(2));
    let ds = vec![device(None, false, false), device(Some("b"), false, true), device(Some("c"), false, false)];
    assert_eq!(pick_device(&ds), DevicePick::Fallback(2));
    assert_eq!(pick_device(&vec![device(Some("x"), false, true)]), DevicePick::NoDevice);
    assert!(device_query(None).is_empty());
    assert_eq!(device_query(Some("d1")), vec![("device_id", "d1".to_string())]);
}

#[test]
fn discovery_marks_what_played_between_polls() {
    let order = strings(&["t0", "t1", "t2", "t3", "t4"]);
    let prev = playing(Some("spotify:playlist:disc"), "t1");
    let cur = playing(Some("spotify:playlist:disc"), "t4");
    assert_eq!(shared_playlist(&prev, &cur).as_deref(), Some("disc"));
    assert_eq!(passed_between(&order, &prev, &cur), strings(&["t2", "t3"]));
    assert!(passed_between(&order, &cur, &prev).is_empty());
    let elsewhere = playing(Some("spotify:album:x"), "t4");
    assert!(shared_playlist(&prev, &elsewhere).is_none());
    assert!(shared_playlist(&playing(None, "t1"), &cur).is_none());
    assert_eq!(oversample(2), 20);
    assert_eq!(oversample(30), 120);
}

#[test]
fn genres_are_counted_per_track() {
    let tags = vec![
        ("a1".to_string(), strings(&["pop", "dance"])),
        ("a2".to_string(), strings(&["rock", "pop"])),
        ("a3".to_string(), vec![]),
    ];
    assert_eq!(genres_of_track(&strings(&["a1", "a2"]), &tags), strings(&["pop", "dance", "rock"]));
    let tracks = vec![tagged_row("u1", &["a1", "a2"]), tagged_row("u2", &["a2"]), tagged_row("u3", &["a3"])];
    let (per_track, counts, untagged) = tally_genres(tracks, &tags);
    assert_eq!(per_track.len(), 3);
    assert_eq!(untagged, 1);
    let listed: Vec<(&str, usize)> = counts.iter().map(|c| (c.genre.as_str(), c.count)).collect();
    assert_eq!(listed, vec![("pop", 2), ("rock", 2), ("dance", 1)]);
}

#[test]
fn genre_lookups_are_planned() {
    let tracks = vec![tagged_row("u1", &["b", "a"]), tagged_row("u2", &["a"])];
    let names = artist_names_of(&tracks);
    assert_eq!(names, vec![("b".to_string(), "name-b".to_string()), ("a".to_string(), "name-a".to_string())]);
    assert_eq!(sorted_ids(&names), strings(&["a", "b"]));
    assert_eq!(cache_cutoff(false, 10_000_000), 10_000_000 - GENRE_CACHE_SECS);
    assert_eq!(cache_cutoff(true, 10_000_000), i64::MAX);
    assert!(should_probe_search(false, &vec![vec![], vec![]]));
    assert!(!should_probe_search(false, &vec![vec![], strings(&["pop"])]));
    assert!(!should_probe_search(true, &vec![vec![]]));
    assert!(!should_probe_search(false, &vec![]));
}

#[test]
fn library_rows_carry_the_listing() {
    let p = SimplifiedPlaylist {
        id: "p1".to_string(),
        name: "Mix-Utilify".to_string(),
        uri: Some("spotify:playlist:p1".to_string()),
        snapshot_id: None,
        owner: Some(Owner { id: Some("me".to_string()), display_name: Some("Me".to_string()) }),
        images: Some(vec![
            Image { url: "big".to_string(), width: Some(300), height: None },
            Image { url: "small".to_string(), width: Some(60), height: None },
        ]),
        public: Some(false),
        collaborative: None,
        description: None,
        tracks: Some(CountRef { total: 42 }),
    };
    let row = playlist_row(&p, 3, 99);
    assert_eq!(row.track_count, 42);
    assert_eq!(row.position, 3);
    assert_eq!(row.owner_name.as_deref(), Some("Me"));
    assert!(row.image_url.is_some());
    let flagged = with_flags(row, Some("me"));
    assert!(flagged.is_shadow);
    assert!(flagged.is_own);
    assert!(!with_flags(flagged, Some("you")).is_own);
}

#[test]
fn skips_and_downloads() {
    assert!(counts_as_skip(5_000, 10_000));
    assert!(!counts_as_skip(10_000, 10_000));
    assert_eq!(add_chunk(100, 50), 150);
}

fn hit(id: &str, name: &str) -> ArtistObject {
    ArtistObject { id: id.to_string(), name: name.to_string(), images: vec![], genres: vec![], followers: None }
}

#[test]
fn a_search_hit_with_the_artists_id_wins_over_a_name_match() {
    let hits = vec![hit("x", "Muse"), hit("m1", "Muse (tribute)"), hit("m1b", "MUSE")];
    assert_eq!(search_hit(&hits, "m1", "Muse"), Some(1));
}

#[test]
fn without_the_id_the_first_case_insensitive_name_match_is_taken() {
    let hits = vec![hit("a", "Muser"), hit("b", "MUSE"), hit("c", "muse")];
    assert_eq!(search_hit(&hits, "zz", "Muse"), Some(1));
    assert_eq!(search_hit(&hits, "zz", "Blur"), None);
    assert_eq!(search_hit(&Vec::new(), "zz", "Blur"), None);
}

#[test]
fn ids_already_cached_are_not_looked_up_again() {
    let ids = vec!["a".to_string(), "b".to_string(), "c".to_string(), "d".to_string()];
    let cached = vec!["c".to_string(), "a".to_string()];
    assert_eq!(ids_not_in(&ids, &cached), vec!["b".to_string(), "d".to_string()]);
    assert_eq!(ids_not_in(&ids, &vec![]), ids);
}

#[test]
fn a_probe_decides_the_strategy_and_the_no_tags_flag() {
    let empty: Vec<Vec<String>> = vec![vec![], vec![]];
    let tagged: Vec<Vec<String>> = vec![vec!["rock".to_string()], vec![]];
    // Probe found tags: switch to search; the re-fetch carries tags.
    assert_eq!(after_probe(false, true, 2, &tagged), (true, false));
    // Probe found tags but the re-fetch by search carried none.
    assert_eq!(after_probe(false, true, 1, &empty), (true, true));
    // Probe found nothing: stay with single lookups, report no tags.
    assert_eq!(after_probe(false, true, 0, &empty), (false, true));
    // Already on search, nothing tagged.
    assert_eq!(after_probe(true, false, 0, &empty), (true, true));
    // Single lookups with tags, no probe.
    assert_eq!(after_probe(false, false, 0, &tagged), (false, false));
    assert_eq!(after_probe(true, false, 0, &vec![]), (true, false));
}

#[test]
fn the_version_is_the_package_version() {
    assert_eq!(current_version(), "0.1.0");
}
