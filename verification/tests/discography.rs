use utilify::discography::{ListingCache, Selection, MAX_SKIPPED_REPORTED, album_cache_key, album_info, artist_hit, build_description, select_groups};
use utilify::models::{Artist, ArtistObject, Followers, Image, SimplifiedAlbum, Track};

const MAC: &str = "artist-mac";

fn track(name: &str, uri: &str, artists: &[(&str, &str)]) -> Track {
    Track {
        id: Some(uri.to_string()),
        uri: Some(format!("spotify:track:{uri}")),
        name: name.to_string(),
        kind: Some("track".into()),
        is_local: false,
        artists: artists
            .iter()
            .map(|(id, n)| Artist { id: Some(id.to_string()), name: n.to_string() })
            .collect(),
        album: None,
        duration_ms: Some(180_000),
        linked_from: None,
    }
}

fn mac(name: &str, uri: &str) -> Track {
    track(name, uri, &[(MAC, "Mac Miller")])
}

#[test]
fn a_later_single_loses_its_title_to_an_earlier_release_and_says_so() {
    let mut sel = Selection::default();
    sel.consider(&mac("Butterflies", "old"), "Swimming", MAC, true, true);
    sel.consider(&mac("Butterflies", "new"), "Butterflies", MAC, true, true);

    assert_eq!(sel.uris.len(), 1, "only the first copy is kept");
    assert_eq!(sel.duplicates, 1);
    assert_eq!(sel.skipped.len(), 1);
    let s = &sel.skipped[0];
    assert_eq!(s.name, "Butterflies");
    assert_eq!(s.release, "Butterflies");
    assert_eq!(s.reason, "same-title");
    assert_eq!(s.kept_from.as_deref(), Some("Swimming"));
}

#[test]
fn title_dedupe_off_keeps_both_copies() {
    let mut sel = Selection::default();
    sel.consider(&mac("Butterflies", "old"), "Swimming", MAC, true, false);
    sel.consider(&mac("Butterflies", "new"), "Butterflies", MAC, true, false);
    assert_eq!(sel.uris.len(), 2);
    assert!(sel.skipped.is_empty());
}

#[test]
fn the_same_recording_twice_is_named_as_such() {
    let mut sel = Selection::default();
    sel.consider(&mac("Circles", "c1"), "Circles", MAC, true, true);
    sel.consider(&mac("Circles", "c1"), "Best Of", MAC, true, true);
    assert_eq!(sel.uris.len(), 1);
    assert_eq!(sel.skipped[0].reason, "same-recording");
    assert_eq!(sel.skipped[0].kept_from.as_deref(), Some("Circles"));
}

#[test]
fn edition_noise_collapses_but_different_songs_do_not() {
    let mut sel = Selection::default();
    sel.consider(&mac("Self Care", "a"), "Swimming", MAC, true, true);
    sel.consider(&mac("Self Care - Live", "b"), "Live EP", MAC, true, true);
    sel.consider(&mac("Self Care (feat. Someone)", "c"), "Deluxe", MAC, true, true);
    sel.consider(&mac("Selfish", "d"), "Other", MAC, true, true);
    assert_eq!(sel.uris.len(), 2, "two distinct songs survive");
    assert_eq!(sel.duplicates, 2);
    assert!(sel.skipped.iter().all(|s| s.reason == "same-title"));
}

#[test]
fn a_guest_only_track_is_reported_not_silently_dropped() {
    let mut sel = Selection::default();
    sel.consider(&track("Someone Else's Song", "x", &[("other", "Another Artist")]), "Compilation", MAC, true, true);
    assert!(sel.uris.is_empty());
    assert_eq!(sel.other_artist, 1);
    assert_eq!(sel.skipped[0].reason, "other-artist");
    assert_eq!(sel.skipped[0].artists, "Another Artist");

    let mut open = Selection::default();
    open.consider(&track("Someone Else's Song", "x", &[("other", "Another Artist")]), "Compilation", MAC, false, true);
    assert_eq!(open.uris.len(), 1);
    assert!(open.skipped.is_empty());
}

#[test]
fn a_local_file_is_reported_as_unplayable() {
    let mut sel = Selection::default();
    let mut local = mac("Bootleg", "b");
    local.is_local = true;
    sel.consider(&local, "Mixtape", MAC, true, true);
    assert!(sel.uris.is_empty());
    assert_eq!(sel.unplayable, 1);
    assert_eq!(sel.skipped[0].reason, "unplayable");
    assert_eq!(sel.tracks_seen, 1, "it was still read");
}

#[test]
fn the_reported_list_is_capped_but_the_counts_are_not() {
    let mut sel = Selection::default();
    sel.consider(&mac("Keeper", "k"), "Album", MAC, true, true);
    for i in 0..(MAX_SKIPPED_REPORTED + 50) {
        sel.consider(&mac("Keeper", &format!("dup{i}")), "Reissue", MAC, true, true);
    }
    assert_eq!(sel.skipped.len(), MAX_SKIPPED_REPORTED);
    assert_eq!(sel.duplicates, MAX_SKIPPED_REPORTED + 50);
}

#[test]
fn release_groups_are_filtered_sorted_and_deduplicated() {
    let groups = vec!["single".to_string(), "album".to_string(), "bogus".to_string(), "album".to_string()];
    assert_eq!(select_groups(&groups).unwrap(), vec!["album", "single"]);
    let err = select_groups(&["nope".to_string()]).unwrap_err();
    assert_eq!(err.message(), "Pick at least one release type.");
}

#[test]
fn a_discography_is_named_after_the_artist_unless_named() {
    assert_eq!(build_description("Mac Miller", "  "), "Mac Miller discography");
    assert_eq!(build_description("Mac Miller", "  Best of Mac "), "Best of Mac");
}

#[test]
fn a_cached_listing_comes_back_until_it_goes_stale() {
    let mut cache: ListingCache<u32> = ListingCache::new();
    cache.cache_put("a".to_string(), vec![1, 2], 1_000);
    assert_eq!(cache.cache_get("a", 1_000), Some(&vec![1, 2]));
    assert_eq!(cache.cache_get("a", 1_000 + 899_999), Some(&vec![1, 2]));
    assert_eq!(cache.cache_get("a", 1_000 + 900_000), None);
    assert_eq!(cache.cache_get("b", 1_000), None);
    cache.cache_put("b".to_string(), vec![3], 2_000);
    cache.cache_put("a".to_string(), vec![4], 3_000);
    assert_eq!(cache.cache_get("a", 3_000), Some(&vec![4]));
    assert_eq!(cache.cache_get("b", 3_000), Some(&vec![3]));
    assert_eq!(cache.entries.len(), 2);
}

#[test]
fn listings_map_into_hits_and_album_rows() {
    let a = ArtistObject {
        id: "id1".into(),
        name: "Adele".into(),
        images: vec![
            Image { url: "big".into(), width: Some(640), height: Some(640) },
            Image { url: "small".into(), width: Some(64), height: Some(64) },
            Image { url: "none".into(), width: None, height: None },
        ],
        genres: vec!["pop".into()],
        followers: Some(Followers { total: Some(10) }),
    };
    let h = artist_hit(a);
    assert_eq!(h.image_url.as_deref(), Some("small"));
    assert_eq!(h.followers, Some(10));

    let al = SimplifiedAlbum {
        id: "al".into(),
        name: "25".into(),
        album_type: Some("album".into()),
        album_group: None,
        release_date: Some("2015-11-20".into()),
        total_tracks: None,
        images: vec![],
        artists: vec![Artist { id: None, name: "Adele".into() }, Artist { id: None, name: "Guest".into() }],
    };
    let info = album_info(al);
    assert_eq!(info.group, "album");
    assert_eq!(info.total_tracks, 0);
    assert_eq!(info.artists, "Adele, Guest");
    assert_eq!(info.image_url, None);
    assert_eq!(album_cache_key("x", &vec!["album".to_string(), "single".to_string()]), "x|album,single");
}

#[test]
fn the_report_lists_every_dropped_track_up_to_its_cap() {
    let mut sel = Selection::default();
    for k in 0..(MAX_SKIPPED_REPORTED + 20) {
        let mut t = mac("Song", &format!("x{k}"));
        t.is_local = true;
        sel.consider(&t, "R", MAC, true, true);
    }
    sel.consider(&mac("Kept", "k1"), "R", MAC, true, true);
    assert_eq!(sel.unplayable, MAX_SKIPPED_REPORTED + 20);
    assert_eq!(sel.skipped.len(), MAX_SKIPPED_REPORTED);
    assert_eq!(sel.tracks_seen, MAX_SKIPPED_REPORTED + 21);
    assert_eq!(sel.uris, vec!["spotify:track:k1".to_string()]);
}
