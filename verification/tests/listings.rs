use utilify::discography::release_listing;
use utilify::discovery::newest_releases;
use utilify::models::{Artist, Image, SimplifiedAlbum};

fn album(id: &str, name: &str, date: Option<&str>) -> SimplifiedAlbum {
    SimplifiedAlbum {
        id: id.to_string(),
        name: name.to_string(),
        album_type: Some("album".to_string()),
        album_group: None,
        release_date: date.map(|d| d.to_string()),
        total_tracks: Some(10),
        images: vec![
            Image { url: "big".to_string(), width: Some(640), height: None },
            Image { url: "small".to_string(), width: Some(64), height: None },
        ],
        artists: vec![Artist { id: None, name: "A".to_string() }, Artist { id: None, name: "B".to_string() }],
    }
}

#[test]
fn releases_are_listed_oldest_first_then_by_name() {
    let out = release_listing(vec![
        album("1", "Later", Some("2020-05-01")),
        album("2", "Beta", Some("2019")),
        album("3", "Alpha", Some("2019")),
        album("4", "Undated", None),
    ]);
    let ids: Vec<&str> = out.iter().map(|a| a.id.as_str()).collect();
    assert_eq!(ids, vec!["4", "3", "2", "1"]);
    assert_eq!(out[0].group, "album");
    assert_eq!(out[0].image_url.as_deref(), Some("small"));
    assert_eq!(out[0].artists, "A, B");
    assert_eq!(out[0].total_tracks, 10);
}

#[test]
fn the_newest_releases_are_indexed_first() {
    let albums = vec![
        album("1", "a", Some("2018")),
        album("2", "b", Some("2021")),
        album("3", "c", None),
        album("4", "d", Some("2021")),
    ];
    assert_eq!(newest_releases(&albums, 3), vec![1, 3, 0]);
    assert_eq!(newest_releases(&albums, 10), vec![1, 3, 0, 2]);
    assert!(newest_releases(&albums, 0).is_empty());
}
