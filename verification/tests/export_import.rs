use utilify::error::AppError;
use utilify::export_import::{
    csv_field, export_content, mmss, parse_import_lines, parse_line, plain_query, safe_file_stem, structured_query,
};
use utilify::tracks::TrackInfo;

fn track(name: &str, artists: &str, position: i64) -> TrackInfo {
    TrackInfo {
        uri: format!("spotify:track:{name}"),
        id: Some(name.to_string()),
        name: name.to_string(),
        artists: artists.to_string(),
        artist_ids: vec![],
        artist_refs: vec![],
        album: Some("Album, Deluxe".to_string()),
        duration_ms: Some(125_000),
        added_at: None,
        position,
        is_local: false,
        playable: true,
    }
}

#[test]
fn parses_separators() {
    assert_eq!(parse_line("Daft Punk — One More Time"), Some((Some("Daft Punk".into()), "One More Time".into())));
    assert_eq!(parse_line("Daft Punk - One More Time"), Some((Some("Daft Punk".into()), "One More Time".into())));
    assert_eq!(parse_line("Daft Punk\tOne More Time"), Some((Some("Daft Punk".into()), "One More Time".into())));
    assert_eq!(parse_line("One More Time"), Some((None, "One More Time".into())));
    assert_eq!(parse_line("   "), None);
    assert_eq!(parse_line("# comment"), None);
}

#[test]
fn csv_quoting() {
    assert_eq!(csv_field("plain"), "plain");
    assert_eq!(csv_field("a,b"), "\"a,b\"");
    assert_eq!(csv_field("say \"hi\""), "\"say \"\"hi\"\"\"");
    assert_eq!(mmss(Some(125_000)), "2:05");
    assert_eq!(safe_file_stem("My / List: 2024"), "My _ List_ 2024");
}

#[test]
fn durations_and_stems_at_the_edges() {
    assert_eq!(mmss(None), "");
    assert_eq!(mmss(Some(59_999)), "0:59");
    assert_eq!(mmss(Some(3_600_000)), "60:00");
    assert_eq!(safe_file_stem("   "), "playlist");
}

#[test]
fn an_export_has_one_line_per_track() {
    let tracks = vec![track("One", "A", 0), track("Two", "B", 1)];
    let csv = export_content("Mix: 1", &tracks, "csv").unwrap();
    assert_eq!(csv.file_name, "Mix_ 1.csv");
    assert_eq!(csv.tracks, 2);
    assert_eq!(
        csv.content,
        "position,title,artists,album,duration,duration_ms,added_at,uri\n\
         1,One,A,\"Album, Deluxe\",2:05,125000,,spotify:track:One\n\
         2,Two,B,\"Album, Deluxe\",2:05,125000,,spotify:track:Two\n"
    );
    let txt = export_content("Mix", &tracks, "txt").unwrap();
    assert_eq!(txt.content, "A — One\nB — Two\n");
    match export_content("Mix", &tracks, "xml") {
        Err(AppError::Other(m)) => assert_eq!(m, "unknown export format 'xml'"),
        other => panic!("unexpected {other:?}"),
    }
}

#[test]
fn a_pasted_list_becomes_queries() {
    let lines = vec!["# header".to_string(), "  Daft Punk - Around the World ".to_string(), "".to_string()];
    let q = parse_import_lines(&lines).unwrap();
    assert_eq!(q.len(), 1);
    assert_eq!(q[0].0, "Daft Punk - Around the World");
    assert_eq!(q[0].1.as_deref(), Some("Daft Punk"));
    assert_eq!(q[0].2, "Around the World");
    assert!(parse_import_lines(&vec!["#".to_string(), " ".to_string()]).is_err());
    let many: Vec<String> = (0..501).map(|i| format!("Song {i}")).collect();
    assert!(parse_import_lines(&many).is_err());
}

#[test]
fn search_queries() {
    assert_eq!(structured_query(Some("Adele"), "Hello"), "track:\"Hello\" artist:\"Adele\"");
    assert_eq!(structured_query(None, "Hello"), "track:\"Hello\"");
    assert_eq!(plain_query(Some("Adele"), "Hello"), "Adele Hello");
    assert_eq!(plain_query(None, "Hello"), "Hello");
}

#[test]
fn a_text_export_reads_back_line_by_line() {
    let tracks = vec![track("One More Time", "Daft Punk", 0), track("Hello - Remastered", "Adele, Someone", 1)];
    let txt = export_content("Mix", &tracks, "txt").unwrap();
    let back: Vec<_> = txt.content.lines().map(|l| parse_line(l).unwrap()).collect();
    assert_eq!(back[0], (Some("Daft Punk".to_string()), "One More Time".to_string()));
    assert_eq!(back[1], (Some("Adele, Someone".to_string()), "Hello - Remastered".to_string()));
}
