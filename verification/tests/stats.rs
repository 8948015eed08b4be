use utilify::error::AppError;
use utilify::stats::{
    check_import_read, ImportTally, ParsedFile, complete_months, fill, fold_platforms, hour_labels, import_source, is_history_file,
    month_labels, parse_month, parse_ts, platform_family, rank_songs, summary_window, weekday_labels, Bucket,
    RawPlay, SongStat,
};

fn bucket(label: &str, plays: i64, ms: i64) -> Bucket {
    Bucket { label: label.to_string(), plays, ms }
}

fn song(name: &str, plays: i64, skips: i64, ms: i64) -> SongStat {
    SongStat { name: name.to_string(), artist: "Band".to_string(), uri: None, plays, skips, ms }
}

fn raw(ts: &str, uri: Option<&str>) -> RawPlay {
    RawPlay {
        ts: ts.to_string(),
        ms_played: Some(120_554),
        platform: Some("iOS 14.3 (iPhone11,8)".to_string()),
        conn_country: Some("US".to_string()),
        master_metadata_track_name: Some("HOLIDAY".to_string()),
        master_metadata_album_artist_name: Some("Lil Nas X".to_string()),
        master_metadata_album_album_name: Some("HOLIDAY".to_string()),
        spotify_track_uri: uri.map(|u| u.to_string()),
        reason_start: Some("playbtn".to_string()),
        reason_end: Some("fwdbtn".to_string()),
        shuffle: Some(false),
        skipped: Some(false),
        offline: Some(false),
        incognito_mode: Some(false),
    }
}

#[test]
fn recognises_history_file_names() {
    assert!(is_history_file("Spotify Extended Streaming History/Streaming_History_Audio_2024.json"));
    assert!(is_history_file("Streaming_History_Video_2026.json"));
    assert!(is_history_file("endsong_0.json"));
    assert!(is_history_file("StreamingHistory_music_0.json"));
    assert!(!is_history_file("Playlist1.json"));
    assert!(!is_history_file("ReadMeFirst_ExtendedStreamingHistory.pdf"));
    assert!(!is_history_file("__MACOSX/._Streaming_History_Audio_2024.json"));
    assert!(!is_history_file("Spotify Extended Streaming History/._Streaming_History_Audio_2024.json"));
}

#[test]
fn platforms_fold_into_device_families() {
    assert_eq!(platform_family("iOS 14.8.1 (iPhone11,8)"), "iPhone / iPad");
    assert_eq!(platform_family("ios"), "iPhone / iPad");
    assert_eq!(platform_family("windows"), "Windows");
    assert_eq!(platform_family("Android OS 13 API 33 (Google, Pixel 7)"), "Android");
    assert_eq!(platform_family("web_player windows 10;chrome 102.0;desktop"), "Web player");
    assert_eq!(platform_family(""), "Unknown");

    let folded = fold_platforms(vec![
        bucket("ios", 2, 200),
        bucket("iOS 15.6 (iPhone11,8)", 1, 100),
        bucket("windows", 5, 500),
    ]);
    assert_eq!(folded.len(), 2);
    assert_eq!(folded[0].label, "Windows");
    assert_eq!(folded[1].label, "iPhone / iPad");
    assert_eq!(folded[1].plays, 3);
    assert_eq!(folded[1].ms, 300);
}

#[test]
fn parses_an_export_record() {
    let row = raw("2021-01-31T15:17:35Z", Some("spotify:track:6zFMeegAMYQo0mt8rXtrli")).into_row().unwrap();
    assert_eq!(row.ts, 1_612_106_255);
    assert_eq!(row.ms_played, 120_554);
    assert_eq!(row.artist_name.as_deref(), Some("Lil Nas X"));
    assert_eq!(row.track_uri, "spotify:track:6zFMeegAMYQo0mt8rXtrli");
}

#[test]
fn podcast_rows_have_no_track_and_are_dropped() {
    assert!(raw("2023-04-05T10:00:00Z", None).into_row().is_none());
}

#[test]
fn a_row_with_an_unreadable_time_is_dropped() {
    assert!(raw("yesterday", Some("spotify:track:1")).into_row().is_none());
}

#[test]
fn timestamps_in_both_export_formats_are_read() {
    assert_eq!(parse_ts("2021-01-31T15:17:35Z"), Some(1_612_106_255));
    assert_eq!(parse_ts("2021-01-31 15:17"), Some(1_612_106_220));
    assert_eq!(parse_ts("not a time"), None);
}

#[test]
fn hour_and_weekday_buckets_are_complete() {
    let hours = hour_labels();
    assert_eq!(hours.len(), 24);
    assert_eq!(hours[0], "00");
    assert_eq!(hours[9], "09");
    assert_eq!(hours[23], "23");
    let days = weekday_labels();
    assert_eq!(days, vec!["0", "1", "2", "3", "4", "5", "6"]);

    let filled = fill(&hours, &vec![bucket("14", 1, 200_000)]);
    assert_eq!(filled.len(), 24);
    assert_eq!(filled[14].plays, 1);
    assert_eq!(filled[14].ms, 200_000);
    assert_eq!(filled[13].plays, 0);
    assert_eq!(filled[0].label, "00");
}

#[test]
fn month_buckets_include_silent_months() {
    let months = complete_months(&vec![bucket("2023-01", 1, 200_000), bucket("2023-04", 1, 30_000)]);
    let labels: Vec<&str> = months.iter().map(|b| b.label.as_str()).collect();
    assert_eq!(labels, vec!["2023-01", "2023-02", "2023-03", "2023-04"], "{months:?}");
    assert_eq!(months[0].plays, 1);
    assert_eq!(months[1].plays, 0);
    assert_eq!(months[2].ms, 0);
    assert_eq!(months[3].ms, 30_000);
}

#[test]
fn months_cross_the_year_boundary() {
    let labels = month_labels((2023, 11), (2024, 2));
    assert_eq!(labels, vec!["2023-11", "2023-12", "2024-01", "2024-02"]);
    assert!(month_labels((2024, 3), (2024, 1)).is_empty());
    assert_eq!(parse_month("2023-04"), Some((2023, 4)));
    assert_eq!(parse_month("April"), None);
}

#[test]
fn labels_that_are_not_months_are_left_alone() {
    let out = complete_months(&vec![bucket("x", 1, 10), bucket("y", 2, 20)]);
    assert_eq!(out.len(), 2);
    assert_eq!(out[1].label, "y");
    assert_eq!(out[1].plays, 2);
}

#[test]
fn skipped_ranking_needs_repeat_skips() {
    let all = vec![song("Keeper", 2, 0, 400_000), song("Skipper", 0, 3, 2_700), song("Once", 1, 1, 900)];
    let (top, skipped) = rank_songs(&all, 10);
    assert_eq!(top.len(), 2);
    assert_eq!(top[0].name, "Keeper");
    assert_eq!(top[1].name, "Once");
    assert_eq!(skipped.len(), 1);
    assert_eq!(skipped[0].name, "Skipper");
}

#[test]
fn rankings_are_cut_to_the_limit_and_ties_go_by_time() {
    let all = vec![song("a", 3, 0, 100), song("b", 3, 0, 300), song("c", 5, 0, 10)];
    let (top, _) = rank_songs(&all, 2);
    assert_eq!(top.len(), 2);
    assert_eq!(top[0].name, "c");
    assert_eq!(top[1].name, "b");
}

#[test]
fn the_window_falls_back_to_the_history_span() {
    assert_eq!(summary_window(None, None, Some(100), Some(900), 30), (100, 900, 30_000));
    assert_eq!(summary_window(Some(500), Some(200), None, None, -5), (500, 500, 0));
    assert_eq!(summary_window(None, None, None, None, 99_999), (0, 0, 3_600_000));
}

#[test]
fn an_import_that_read_nothing_explains_itself() {
    assert!(check_import_read(1, 0).is_ok());
    match check_import_read(0, 1) {
        Err(AppError::Other(m)) => assert!(m.contains("Extended streaming history"), "{m}"),
        other => panic!("unexpected {other:?}"),
    }
    match check_import_read(0, 0) {
        Err(AppError::Other(m)) => assert!(m.contains("No streaming history"), "{m}"),
        other => panic!("unexpected {other:?}"),
    }
}

#[test]
fn an_import_is_named_by_its_file_or_count() {
    assert_eq!(import_source(&vec!["my_spotify_data.zip".to_string()]), "my_spotify_data.zip");
    assert_eq!(import_source(&vec!["a.json".to_string(), "b.json".to_string()]), "2 files");
}

#[test]
fn an_import_counts_every_record_once() {
    let mut tally = ImportTally::new();
    let rows = vec![
        raw("2021-01-31T15:17:35Z", Some("spotify:track:1")),
        raw("2021-01-31T15:20:00Z", None),
        raw("garbled", Some("spotify:track:2")),
    ];
    let batch = tally.add_file("Streaming_History_Audio_2021.json".to_string(), ParsedFile::Extended(rows));
    assert_eq!(batch.len(), 1);
    assert_eq!(batch[0].track_uri, "spotify:track:1");
    assert_eq!(tally.plays_read, 1);
    assert_eq!(tally.other_rows, 2);
    assert!(tally.add_file("Playlist1.json".to_string(), ParsedFile::Unrecognized).is_empty());
    assert!(tally.add_file("StreamingHistory_music_0.json".to_string(), ParsedFile::Basic).is_empty());
    assert_eq!(tally.basic_files, 1);
    let summary = tally.finish(&vec!["my_spotify_data.zip".to_string()], 1).unwrap();
    assert_eq!(summary.source, "my_spotify_data.zip");
    assert_eq!(summary.files, 1);
    assert_eq!(summary.plays_added, 1);
    assert_eq!(summary.ignored_files, vec!["Playlist1.json".to_string(), "StreamingHistory_music_0.json".to_string()]);
}

#[test]
fn an_import_of_only_account_data_explains_itself() {
    let mut tally = ImportTally::new();
    tally.add_file("StreamingHistory_music_0.json".to_string(), ParsedFile::Basic);
    match tally.finish(&vec!["StreamingHistory_music_0.json".to_string()], 0) {
        Err(AppError::Other(m)) => assert!(m.contains("Extended streaming history"), "{m}"),
        other => panic!("unexpected {other:?}"),
    }
}
