//! Personal stats from Spotify's "extended streaming history" export: which
//! files hold history, how a record becomes a stored play, how platforms fold
//! into device families, and how the Stats page's tables are completed and
//! ranked.
use vstd::prelude::*;
use vstd::string::StringExecFns;

use crate::error::AppError;
use crate::order::{is_stable_desc_order, stable_desc_order};
use crate::text::{
    after_last, after_last_chars, ascii_lowercase, ascii_lowercase_chars, chars_of, contains_sub,
    decimal_chars, decimal_spec, ends_with, ends_with_chars, find_sub, first_occurrence, has_sub,
    is_ascii_alphanumeric, is_ascii_alphanumeric_spec, is_first_occurrence,
    lemma_first_occurrence_unique, parse_unsigned, parse_unsigned_spec, starts_with,
    starts_with_chars, string_from_chars, subrange_chars,
};

verus! {

/// Rows returned per ranked table.
pub const TOP_LIMIT: usize = 100;

/// A song needs this many skips before it can be called one you skip past.
pub const MIN_SKIPS: i64 = 3;

/// One track play, as stored.
#[derive(Debug, Clone)]
pub struct PlayRow {
    pub ts: i64,
    pub track_uri: String,
    pub ms_played: i64,
    pub track_name: Option<String>,
    pub artist_name: Option<String>,
    pub album_name: Option<String>,
    pub reason_start: Option<String>,
    pub reason_end: Option<String>,
    pub shuffle: Option<bool>,
    pub skipped: Option<bool>,
    pub platform: Option<String>,
    pub country: Option<String>,
    pub offline: Option<bool>,
    pub incognito: Option<bool>,
}

/// One row of `Streaming_History_Audio_*.json`.
#[derive(Debug, Clone)]
pub struct RawPlay {
    pub ts: String,
    pub ms_played: Option<i64>,
    pub platform: Option<String>,
    pub conn_country: Option<String>,
    pub master_metadata_track_name: Option<String>,
    pub master_metadata_album_artist_name: Option<String>,
    pub master_metadata_album_album_name: Option<String>,
    pub spotify_track_uri: Option<String>,
    pub reason_start: Option<String>,
    pub reason_end: Option<String>,
    pub shuffle: Option<bool>,
    pub skipped: Option<bool>,
    pub offline: Option<bool>,
    pub incognito_mode: Option<bool>,
}

#[derive(Debug, Clone)]
pub struct LastImport {
    pub imported_at: i64,
    pub source: String,
    pub rows_added: i64,
}

#[derive(Debug, Clone)]
pub struct StatsStatus {
    pub plays: i64,
    pub first_ts: Option<i64>,
    pub last_ts: Option<i64>,
    /// Years present in the history, newest first.
    pub years: Vec<i32>,
    pub last_import: Option<LastImport>,
}

#[derive(Debug, Clone)]
pub struct Totals {
    pub streams: i64,
    pub plays: i64,
    pub skips: i64,
    pub ms: i64,
    pub shuffle_streams: i64,
    pub songs: i64,
    pub artists: i64,
    pub albums: i64,
    pub days: i64,
    pub first_ts: Option<i64>,
    pub last_ts: Option<i64>,
}

#[derive(Debug, Clone)]
pub struct SongStat {
    pub name: String,
    pub artist: String,
    pub uri: Option<String>,
    pub plays: i64,
    pub skips: i64,
    pub ms: i64,
}

#[derive(Debug, Clone)]
pub struct NamedStat {
    pub name: String,
    /// Artist for an album row; empty for artist rows.
    pub secondary: String,
    pub plays: i64,
    pub ms: i64,
    pub songs: i64,
}

#[derive(Debug, Clone)]
pub struct Bucket {
    pub label: String,
    pub plays: i64,
    pub ms: i64,
}

#[derive(Debug, Clone)]
pub struct ImportSummary {
    pub source: String,
    pub files: usize,
    /// Track plays found in the files.
    pub plays_read: usize,
    /// How many of those were not already stored.
    pub plays_added: usize,
    /// Podcast episodes and audiobook chapters, which are not charted.
    pub other_rows: usize,
    /// Files that were read but held no streaming history.
    pub ignored_files: Vec<String>,
}

#[derive(Debug, Clone)]
pub struct ImportProgress {
    pub file: String,
    pub done: usize,
    pub total: usize,
    pub plays: usize,
}

#[derive(Debug, Clone)]
pub struct StatsSummary {
    pub from: i64,
    pub to: i64,
    pub threshold_ms: i64,
    pub status: StatsStatus,
    pub totals: Totals,
    pub top_songs: Vec<SongStat>,
    pub top_artists: Vec<NamedStat>,
    pub top_albums: Vec<NamedStat>,
    pub most_skipped: Vec<SongStat>,
    pub by_hour: Vec<Bucket>,
    pub by_weekday: Vec<Bucket>,
    pub by_month: Vec<Bucket>,
    pub by_platform: Vec<Bucket>,
}

// ---- timestamps ------------------------------------------------------------------

/// What `DateTime::parse_from_rfc3339(s)` yields as a Unix timestamp.
pub uninterp spec fn rfc3339_seconds(s: Seq<char>) -> Option<i64>;

/// What `NaiveDateTime::parse_from_str(s, "%Y-%m-%d %H:%M")` yields, read as
/// UTC, as a Unix timestamp.
pub uninterp spec fn utc_minute_seconds(s: Seq<char>) -> Option<i64>;

/// chrono's RFC 3339 parser; the timestamp of the parsed instant.
#[verifier::external_body]
fn parse_rfc3339(raw: &str) -> (r: Option<i64>)
    ensures
        r == rfc3339_seconds(raw@),
{
    chrono::DateTime::parse_from_rfc3339(raw).ok().map(|dt| dt.timestamp())
}

/// chrono's `%Y-%m-%d %H:%M` parser, taken as UTC.
#[verifier::external_body]
fn parse_utc_minute(raw: &str) -> (r: Option<i64>)
    ensures
        r == utc_minute_seconds(raw@),
{
    chrono::NaiveDateTime::parse_from_str(raw, "%Y-%m-%d %H:%M").ok().map(|dt| dt.and_utc().timestamp())
}

pub open spec fn parse_ts_spec(raw: Seq<char>) -> Option<i64> {
    match rfc3339_seconds(raw) {
        Some(t) => Some(t),
        None => utc_minute_seconds(raw),
    }
}

/// RFC 3339, or the older "2021-01-31 15:17" form in UTC.
pub fn parse_ts(raw: &str) -> (r: Option<i64>)
    ensures
        r == parse_ts_spec(raw@),
{
    match parse_rfc3339(raw) {
        Some(t) => Some(t),
        None => parse_utc_minute(raw),
    }
}

fn clone_opt(o: &Option<String>) -> (r: Option<String>)
    ensures
        r == *o,
{
    match o {
        Some(s) => Some(s.clone()),
        None => None,
    }
}

/// The stored play for a record: none without a track URI (podcasts,
/// audiobooks) or a readable timestamp; negative play times count as zero.
pub open spec fn row_of(p: RawPlay) -> Option<PlayRow> {
    match (p.spotify_track_uri, parse_ts_spec(p.ts@)) {
        (Some(u), Some(ts)) => Some(
            PlayRow {
                ts,
                track_uri: u,
                ms_played: match p.ms_played {
                    Some(ms) => if ms < 0 {
                        0
                    } else {
                        ms
                    },
                    None => 0,
                },
                track_name: p.master_metadata_track_name,
                artist_name: p.master_metadata_album_artist_name,
                album_name: p.master_metadata_album_album_name,
                reason_start: p.reason_start,
                reason_end: p.reason_end,
                shuffle: p.shuffle,
                skipped: p.skipped,
                platform: p.platform,
                country: p.conn_country,
                offline: p.offline,
                incognito: p.incognito_mode,
            },
        ),
        _ => None,
    }
}

impl RawPlay {
    /// The stored play for a record: `None` for rows without a track URI
    /// (podcasts, audiobooks) or an unreadable timestamp; negative play
    /// times count as zero.
    pub fn into_row(self) -> (r: Option<PlayRow>)
        ensures
            r == row_of(self),
            r is Some <==> (self.spotify_track_uri is Some && parse_ts_spec(self.ts@) is Some),
            r matches Some(row) ==> {
                &&& row.ts == parse_ts_spec(self.ts@)->Some_0
                &&& row.track_uri == self.spotify_track_uri->Some_0
                &&& row.ms_played == match self.ms_played {
                    Some(ms) => if ms < 0 {
                        0
                    } else {
                        ms
                    },
                    None => 0,
                }
                &&& row.track_name == self.master_metadata_track_name
                &&& row.artist_name == self.master_metadata_album_artist_name
                &&& row.album_name == self.master_metadata_album_album_name
                &&& row.reason_start == self.reason_start
                &&& row.reason_end == self.reason_end
                &&& row.shuffle == self.shuffle
                &&& row.skipped == self.skipped
                &&& row.platform == self.platform
                &&& row.country == self.conn_country
                &&& row.offline == self.offline
                &&& row.incognito == self.incognito_mode
            },
    {
        let track_uri = match self.spotify_track_uri {
            Some(u) => u,
            None => {
                return None;
            },
        };
        let ts = match parse_ts(self.ts.as_str()) {
            Some(t) => t,
            None => {
                return None;
            },
        };
        let ms = match self.ms_played {
            Some(ms) => if ms < 0 {
                0
            } else {
                ms
            },
            None => 0,
        };
        Some(PlayRow {
            ts,
            track_uri,
            ms_played: ms,
            track_name: self.master_metadata_track_name,
            artist_name: self.master_metadata_album_artist_name,
            album_name: self.master_metadata_album_album_name,
            reason_start: self.reason_start,
            reason_end: self.reason_end,
            shuffle: self.shuffle,
            skipped: self.skipped,
            platform: self.platform,
            country: self.conn_country,
            offline: self.offline,
            incognito: self.incognito_mode,
        })
    }
}

// ---- reading the selected files ----------------------------------------------------

/// The plays among a file's records, in order.
pub open spec fn plays_of(rows: Seq<RawPlay>) -> Seq<PlayRow>
    decreases rows.len(),
{
    if rows.len() == 0 {
        Seq::empty()
    } else {
        let prev = plays_of(rows.drop_last());
        match row_of(rows.last()) {
            Some(r) => prev.push(r),
            None => prev,
        }
    }
}

/// The records of a file that are not plays.
pub open spec fn others_of(rows: Seq<RawPlay>) -> nat
    decreases rows.len(),
{
    if rows.len() == 0 {
        0
    } else {
        others_of(rows.drop_last()) + if row_of(rows.last()) is Some {
            0nat
        } else {
            1nat
        }
    }
}

/// Every record of a file is counted once: as a play or as another row.
pub proof fn every_record_is_counted_once(rows: Seq<RawPlay>)
    ensures
        plays_of(rows).len() + others_of(rows) == rows.len(),
    decreases rows.len(),
{
    if rows.len() > 0 {
        every_record_is_counted_once(rows.drop_last());
    }
}

/// What a selected file turned out to hold.
pub enum ParsedFile {
    /// Extended streaming history: its records.
    Extended(Vec<RawPlay>),
    /// The short "account data" history, which cannot be charted.
    Basic,
    Unrecognized,
}

/// The running counts of an import.
#[derive(Debug, Clone)]
pub struct ImportTally {
    pub files_used: usize,
    pub plays_read: usize,
    pub other_rows: usize,
    pub basic_files: usize,
    pub ignored_files: Vec<String>,
}

impl ImportTally {
    pub fn new() -> (t: ImportTally)
        ensures
            t.files_used == 0 && t.plays_read == 0 && t.other_rows == 0 && t.basic_files == 0,
            t.ignored_files@.len() == 0,
    {
        ImportTally { files_used: 0, plays_read: 0, other_rows: 0, basic_files: 0, ignored_files: Vec::new() }
    }

    /// Count one file and hand back its plays to store; a file without
    /// extended history is listed as ignored.
    pub fn add_file(&mut self, name: String, parsed: ParsedFile) -> (batch: Vec<PlayRow>)
        requires
            old(self).files_used < usize::MAX,
            old(self).basic_files < usize::MAX,
            parsed matches ParsedFile::Extended(rows) ==> old(self).plays_read + rows@.len() <= usize::MAX
                && old(self).other_rows + rows@.len() <= usize::MAX,
        ensures
            match parsed {
                ParsedFile::Extended(rows) => {
                    &&& batch@ == plays_of(rows@)
                    &&& final(self).files_used == old(self).files_used + 1
                    &&& final(self).plays_read == old(self).plays_read + batch@.len()
                    &&& final(self).other_rows == old(self).other_rows + others_of(rows@)
                    &&& final(self).basic_files == old(self).basic_files
                    &&& final(self).ignored_files == old(self).ignored_files
                },
                ParsedFile::Basic => {
                    &&& batch@.len() == 0
                    &&& final(self).files_used == old(self).files_used
                    &&& final(self).plays_read == old(self).plays_read
                    &&& final(self).other_rows == old(self).other_rows
                    &&& final(self).basic_files == old(self).basic_files + 1
                    &&& final(self).ignored_files@ == old(self).ignored_files@.push(name)
                },
                ParsedFile::Unrecognized => {
                    &&& batch@.len() == 0
                    &&& final(self).files_used == old(self).files_used
                    &&& final(self).plays_read == old(self).plays_read
                    &&& final(self).other_rows == old(self).other_rows
                    &&& final(self).basic_files == old(self).basic_files
                    &&& final(self).ignored_files@ == old(self).ignored_files@.push(name)
                },
            },
    {
        match parsed {
            ParsedFile::Basic => {
                self.basic_files = self.basic_files + 1;
                self.ignored_files.push(name);
                Vec::new()
            },
            ParsedFile::Unrecognized => {
                self.ignored_files.push(name);
                Vec::new()
            },
            ParsedFile::Extended(rows) => {
                let ghost all = rows@;
                let mut batch: Vec<PlayRow> = Vec::new();
                let mut others: usize = 0;
                proof {
                    every_record_is_counted_once(all);
                }
                assert(all.len() <= usize::MAX);
                for raw in it: rows.into_iter()
                    invariant
                        it.seq() == all,
                        all.len() <= usize::MAX,
                        batch@ == plays_of(all.subrange(0, it.index() as int)),
                        others == others_of(all.subrange(0, it.index() as int)),
                        batch@.len() + others == it.index(),
                {
                    let ghost k = it.index();
                    assert(all.subrange(0, k + 1).drop_last() =~= all.subrange(0, k as int));
                    assert(all.subrange(0, k + 1).last() == raw);
                    match raw.into_row() {
                        Some(r) => {
                            batch.push(r);
                        },
                        None => {
                            others = others + 1;
                        },
                    }
                }
                assert(all.subrange(0, all.len() as int) =~= all);
                self.files_used = self.files_used + 1;
                self.plays_read = self.plays_read + batch.len();
                self.other_rows = self.other_rows + others;
                batch
            },
        }
    }

    /// The import's summary once every file was read, or why nothing could
    /// be: `names` are the selected files, `plays_added` how many plays
    /// were new.
    pub fn finish(self, names: &Vec<String>, plays_added: usize) -> (r: Result<ImportSummary, AppError>)
        ensures
            r is Ok <==> self.files_used > 0,
            self.files_used == 0 ==> (r matches Err(AppError::Other(m)) && m@ == nothing_read_message(
                self.basic_files,
            )),
            r matches Ok(s) ==> {
                &&& s.source@ == import_source_spec(names@.map_values(|n: String| n@))
                &&& s.files == self.files_used
                &&& s.plays_read == self.plays_read
                &&& s.plays_added == plays_added
                &&& s.other_rows == self.other_rows
                &&& s.ignored_files == self.ignored_files
            },
    {
        match check_import_read(self.files_used, self.basic_files) {
            Err(e) => Err(e),
            Ok(()) => Ok(
                ImportSummary {
                    source: import_source(names),
                    files: self.files_used,
                    plays_read: self.plays_read,
                    plays_added,
                    other_rows: self.other_rows,
                    ignored_files: self.ignored_files,
                },
            ),
        }
    }
}

// ---- which files hold history ------------------------------------------------------

pub open spec fn squash_alnum(s: Seq<char>) -> Seq<char> {
    s.filter(|c: char| is_ascii_alphanumeric_spec(c))
}

/// `Streaming_History_Audio_2024.json`, `Streaming_History_Video_2024.json`,
/// `endsong_0.json`, and the short `StreamingHistory_music_0.json`; never a
/// macOS resource fork (`__MACOSX/`, `._name`).
pub open spec fn is_history_file_spec(name: Seq<char>) -> bool {
    let path = ascii_lowercase(name);
    let file = after_last(path, '/');
    !has_sub(path, "__macosx"@) && ends_with(file, ".json"@) && !starts_with(file, "._"@) && (
    has_sub(squash_alnum(file), "streaminghistory"@) || has_sub(squash_alnum(file), "endsong"@))
}

fn squash_alnum_chars(s: &Vec<char>) -> (r: Vec<char>)
    ensures
        r@ == squash_alnum(s@),
{
    let mut r: Vec<char> = Vec::new();
    let mut k: usize = 0;
    while k < s.len()
        invariant
            k <= s.len(),
            r@ == squash_alnum(s@.subrange(0, k as int)),
        decreases s.len() - k,
    {
        let ghost pre = s@.subrange(0, k as int);
        assert(s@.subrange(0, k + 1).drop_last() =~= pre);
        if is_ascii_alphanumeric(s[k]) {
            r.push(s[k]);
        }
        proof {
            reveal_with_fuel(Seq::filter, 1);
        }
        k += 1;
    }
    assert(s@.subrange(0, s.len() as int) =~= s@);
    r
}

pub fn is_history_file(name: &str) -> (r: bool)
    ensures
        r == is_history_file_spec(name@),
{
    let path = ascii_lowercase_chars(&chars_of(name));
    if contains_sub(&path, &chars_of("__macosx")) {
        return false;
    }
    let file = after_last_chars(&path, '/');
    if !ends_with_chars(&file, &chars_of(".json")) || starts_with_chars(&file, &chars_of("._")) {
        return false;
    }
    let squashed = squash_alnum_chars(&file);
    contains_sub(&squashed, &chars_of("streaminghistory")) || contains_sub(
        &squashed,
        &chars_of("endsong"),
    )
}

// ---- platforms ----------------------------------------------------------------------

/// Device family of a raw `platform` string. Order matters: a web player
/// string also names its operating system.
pub open spec fn platform_family_spec(raw: Seq<char>) -> Seq<char> {
    let p = ascii_lowercase(raw);
    if p.len() == 0 {
        "Unknown"@
    } else if has_sub(p, "web_player"@) || has_sub(p, "webplayer"@) {
        "Web player"@
    } else if has_sub(p, "ios"@) || has_sub(p, "iphone"@) || has_sub(p, "ipad"@) {
        "iPhone / iPad"@
    } else if has_sub(p, "android"@) {
        "Android"@
    } else if has_sub(p, "windows"@) || has_sub(p, "win32"@) || has_sub(p, "winrt"@) {
        "Windows"@
    } else if has_sub(p, "osx"@) || has_sub(p, "os x"@) || has_sub(p, "macos"@) || has_sub(
        p,
        "darwin"@,
    ) {
        "macOS"@
    } else if has_sub(p, "linux"@) {
        "Linux"@
    } else if has_sub(p, "cast"@) {
        "Cast"@
    } else if has_sub(p, "partner"@) || has_sub(p, "sonos"@) || has_sub(p, "xbox"@) || has_sub(
        p,
        "playstation"@,
    ) {
        "Speakers & consoles"@
    } else {
        "Other"@
    }
}

/// The markers of each device family, in the order families are tried:
/// web player, iPhone / iPad, Android, Windows, macOS, Linux, Cast, speakers
/// and consoles.
pub open spec fn family_markers(f: int) -> Seq<Seq<char>> {
    if f == 0 {
        seq!["web_player"@, "webplayer"@]
    } else if f == 1 {
        seq!["ios"@, "iphone"@, "ipad"@]
    } else if f == 2 {
        seq!["android"@]
    } else if f == 3 {
        seq!["windows"@, "win32"@, "winrt"@]
    } else if f == 4 {
        seq!["osx"@, "os x"@, "macos"@, "darwin"@]
    } else if f == 5 {
        seq!["linux"@]
    } else if f == 6 {
        seq!["cast"@]
    } else if f == 7 {
        seq!["partner"@, "sonos"@, "xbox"@, "playstation"@]
    } else {
        Seq::empty()
    }
}

/// The name of each device family, in the same order.
pub open spec fn family_name(f: int) -> Seq<char> {
    if f == 0 {
        "Web player"@
    } else if f == 1 {
        "iPhone / iPad"@
    } else if f == 2 {
        "Android"@
    } else if f == 3 {
        "Windows"@
    } else if f == 4 {
        "macOS"@
    } else if f == 5 {
        "Linux"@
    } else if f == 6 {
        "Cast"@
    } else if f == 7 {
        "Speakers & consoles"@
    } else {
        "Other"@
    }
}

/// The lower-case form of `raw` contains `m`.
pub open spec fn lower_has(raw: Seq<char>, m: Seq<char>) -> bool {
    has_sub(ascii_lowercase(raw), m)
}

/// The lower-case form of `raw` contains a marker of family `f`.
pub open spec fn family_seen(raw: Seq<char>, f: int) -> bool {
    exists|k: int| 0 <= k < family_markers(f).len() && lower_has(raw, #[trigger] family_markers(f)[k])
}

/// A platform belongs to the first family, in order, whose marker its
/// lower-case form contains ("OS X 10.15.7" is macOS, "Android OS 9 API 28"
/// is Android); with no marker at all it is "Other", and a blank one is
/// "Unknown".
pub proof fn platforms_go_to_the_first_family_named(raw: Seq<char>)
    ensures
        forall|f: int, k: int|
            0 <= f < 8 && 0 <= k < family_markers(f).len() && lower_has(raw, #[trigger] family_markers(f)[k]) && (
            forall|e: int| 0 <= e < f ==> !#[trigger] family_seen(raw, e)) ==> platform_family_spec(raw)
                == family_name(f),
        raw.len() > 0 && (forall|e: int| 0 <= e < 8 ==> !#[trigger] family_seen(raw, e)) ==> platform_family_spec(raw)
            == "Other"@,
        raw.len() == 0 ==> platform_family_spec(raw) == "Unknown"@,
{
    reveal_strlit("web_player");
    reveal_strlit("webplayer");
    reveal_strlit("ios");
    reveal_strlit("iphone");
    reveal_strlit("ipad");
    reveal_strlit("android");
    reveal_strlit("windows");
    reveal_strlit("win32");
    reveal_strlit("winrt");
    reveal_strlit("osx");
    reveal_strlit("os x");
    reveal_strlit("macos");
    reveal_strlit("darwin");
    reveal_strlit("linux");
    reveal_strlit("cast");
    reveal_strlit("partner");
    reveal_strlit("sonos");
    reveal_strlit("xbox");
    reveal_strlit("playstation");
    assert forall|f: int, k: int|
        0 <= f < 8 && 0 <= k < family_markers(f).len() && lower_has(raw, #[trigger] family_markers(f)[k]) && (
        forall|e: int| 0 <= e < f ==> !#[trigger] family_seen(raw, e)) implies platform_family_spec(raw)
            == family_name(f) by {
        let p = ascii_lowercase(raw);
        let m = family_markers(f)[k];
        let i = choose|i: int| crate::text::occurs_at(p, m, i);
        assert(m.len() > 0);
        assert(p.len() > 0);
        if f == 0 {
            if k == 0 {
                assert(m == "web_player"@);
            }
            if k == 1 {
                assert(m == "webplayer"@);
            }
        } else if f == 1 {
            assert(!family_seen(raw, 0));
            assert(family_markers(0).len() > 0);
            assert(!family_seen(raw, 0));
        assert(family_markers(0).len() > 0);
        assert(!lower_has(raw, family_markers(0)[0]));
            assert(family_markers(0)[0] == "web_player"@);
            assert(!lower_has(raw, family_markers(0)[1]));
            assert(family_markers(0)[1] == "webplayer"@);
            if k == 0 {
                assert(m == "ios"@);
            }
            if k == 1 {
                assert(m == "iphone"@);
            }
            if k == 2 {
                assert(m == "ipad"@);
            }
        } else if f == 2 {
            assert(!family_seen(raw, 0));
            assert(family_markers(0).len() > 0);
            assert(!family_seen(raw, 0));
        assert(family_markers(0).len() > 0);
        assert(!lower_has(raw, family_markers(0)[0]));
            assert(family_markers(0)[0] == "web_player"@);
            assert(!lower_has(raw, family_markers(0)[1]));
            assert(family_markers(0)[1] == "webplayer"@);
            assert(!family_seen(raw, 1));
            assert(family_markers(1).len() > 0);
            assert(!family_seen(raw, 1));
        assert(family_markers(1).len() > 0);
        assert(!lower_has(raw, family_markers(1)[0]));
            assert(family_markers(1)[0] == "ios"@);
            assert(!lower_has(raw, family_markers(1)[1]));
            assert(family_markers(1)[1] == "iphone"@);
            assert(!lower_has(raw, family_markers(1)[2]));
            assert(family_markers(1)[2] == "ipad"@);
            if k == 0 {
                assert(m == "android"@);
            }
        } else if f == 3 {
            assert(!family_seen(raw, 0));
            assert(family_markers(0).len() > 0);
            assert(!family_seen(raw, 0));
        assert(family_markers(0).len() > 0);
        assert(!lower_has(raw, family_markers(0)[0]));
            assert(family_markers(0)[0] == "web_player"@);
            assert(!lower_has(raw, family_markers(0)[1]));
            assert(family_markers(0)[1] == "webplayer"@);
            assert(!family_seen(raw, 1));
            assert(family_markers(1).len() > 0);
            assert(!family_seen(raw, 1));
        assert(family_markers(1).len() > 0);
        assert(!lower_has(raw, family_markers(1)[0]));
            assert(family_markers(1)[0] == "ios"@);
            assert(!lower_has(raw, family_markers(1)[1]));
            assert(family_markers(1)[1] == "iphone"@);
            assert(!lower_has(raw, family_markers(1)[2]));
            assert(family_markers(1)[2] == "ipad"@);
            assert(!family_seen(raw, 2));
            assert(family_markers(2).len() > 0);
            assert(!family_seen(raw, 2));
        assert(family_markers(2).len() > 0);
        assert(!lower_has(raw, family_markers(2)[0]));
            assert(family_markers(2)[0] == "android"@);
            if k == 0 {
                assert(m == "windows"@);
            }
            if k == 1 {
                assert(m == "win32"@);
            }
            if k == 2 {
                assert(m == "winrt"@);
            }
        } else if f == 4 {
            assert(!family_seen(raw, 0));
            assert(family_markers(0).len() > 0);
            assert(!family_seen(raw, 0));
        assert(family_markers(0).len() > 0);
        assert(!lower_has(raw, family_markers(0)[0]));
            assert(family_markers(0)[0] == "web_player"@);
            assert(!lower_has(raw, family_markers(0)[1]));
            assert(family_markers(0)[1] == "webplayer"@);
            assert(!family_seen(raw, 1));
            assert(family_markers(1).len() > 0);
            assert(!family_seen(raw, 1));
        assert(family_markers(1).len() > 0);
        assert(!lower_has(raw, family_markers(1)[0]));
            assert(family_markers(1)[0] == "ios"@);
            assert(!lower_has(raw, family_markers(1)[1]));
            assert(family_markers(1)[1] == "iphone"@);
            assert(!lower_has(raw, family_markers(1)[2]));
            assert(family_markers(1)[2] == "ipad"@);
            assert(!family_seen(raw, 2));
            assert(family_markers(2).len() > 0);
            assert(!family_seen(raw, 2));
        assert(family_markers(2).len() > 0);
        assert(!lower_has(raw, family_markers(2)[0]));
            assert(family_markers(2)[0] == "android"@);
            assert(!family_seen(raw, 3));
            assert(family_markers(3).len() > 0);
            assert(!family_seen(raw, 3));
        assert(family_markers(3).len() > 0);
        assert(!lower_has(raw, family_markers(3)[0]));
            assert(family_markers(3)[0] == "windows"@);
            assert(!lower_has(raw, family_markers(3)[1]));
            assert(family_markers(3)[1] == "win32"@);
            assert(!lower_has(raw, family_markers(3)[2]));
            assert(family_markers(3)[2] == "winrt"@);
            if k == 0 {
                assert(m == "osx"@);
            }
            if k == 1 {
                assert(m == "os x"@);
            }
            if k == 2 {
                assert(m == "macos"@);
            }
            if k == 3 {
                assert(m == "darwin"@);
            }
        } else if f == 5 {
            assert(!family_seen(raw, 0));
            assert(family_markers(0).len() > 0);
            assert(!family_seen(raw, 0));
        assert(family_markers(0).len() > 0);
        assert(!lower_has(raw, family_markers(0)[0]));
            assert(family_markers(0)[0] == "web_player"@);
            assert(!lower_has(raw, family_markers(0)[1]));
            assert(family_markers(0)[1] == "webplayer"@);
            assert(!family_seen(raw, 1));
            assert(family_markers(1).len() > 0);
            assert(!family_seen(raw, 1));
        assert(family_markers(1).len() > 0);
        assert(!lower_has(raw, family_markers(1)[0]));
            assert(family_markers(1)[0] == "ios"@);
            assert(!lower_has(raw, family_markers(1)[1]));
            assert(family_markers(1)[1] == "iphone"@);
            assert(!lower_has(raw, family_markers(1)[2]));
            assert(family_markers(1)[2] == "ipad"@);
            assert(!family_seen(raw, 2));
            assert(family_markers(2).len() > 0);
            assert(!family_seen(raw, 2));
        assert(family_markers(2).len() > 0);
        assert(!lower_has(raw, family_markers(2)[0]));
            assert(family_markers(2)[0] == "android"@);
            assert(!family_seen(raw, 3));
            assert(family_markers(3).len() > 0);
            assert(!family_seen(raw, 3));
        assert(family_markers(3).len() > 0);
        assert(!lower_has(raw, family_markers(3)[0]));
            assert(family_markers(3)[0] == "windows"@);
            assert(!lower_has(raw, family_markers(3)[1]));
            assert(family_markers(3)[1] == "win32"@);
            assert(!lower_has(raw, family_markers(3)[2]));
            assert(family_markers(3)[2] == "winrt"@);
            assert(!family_seen(raw, 4));
            assert(family_markers(4).len() > 0);
            assert(!family_seen(raw, 4));
        assert(family_markers(4).len() > 0);
        assert(!lower_has(raw, family_markers(4)[0]));
            assert(family_markers(4)[0] == "osx"@);
            assert(!lower_has(raw, family_markers(4)[1]));
            assert(family_markers(4)[1] == "os x"@);
            assert(!lower_has(raw, family_markers(4)[2]));
            assert(family_markers(4)[2] == "macos"@);
            assert(!lower_has(raw, family_markers(4)[3]));
            assert(family_markers(4)[3] == "darwin"@);
            if k == 0 {
                assert(m == "linux"@);
            }
        } else if f == 6 {
            assert(!family_seen(raw, 0));
            assert(family_markers(0).len() > 0);
            assert(!family_seen(raw, 0));
        assert(family_markers(0).len() > 0);
        assert(!lower_has(raw, family_markers(0)[0]));
            assert(family_markers(0)[0] == "web_player"@);
            assert(!lower_has(raw, family_markers(0)[1]));
            assert(family_markers(0)[1] == "webplayer"@);
            assert(!family_seen(raw, 1));
            assert(family_markers(1).len() > 0);
            assert(!family_seen(raw, 1));
        assert(family_markers(1).len() > 0);
        assert(!lower_has(raw, family_markers(1)[0]));
            assert(family_markers(1)[0] == "ios"@);
            assert(!lower_has(raw, family_markers(1)[1]));
            assert(family_markers(1)[1] == "iphone"@);
            assert(!lower_has(raw, family_markers(1)[2]));
            assert(family_markers(1)[2] == "ipad"@);
            assert(!family_seen(raw, 2));
            assert(family_markers(2).len() > 0);
            assert(!family_seen(raw, 2));
        assert(family_markers(2).len() > 0);
        assert(!lower_has(raw, family_markers(2)[0]));
            assert(family_markers(2)[0] == "android"@);
            assert(!family_seen(raw, 3));
            assert(family_markers(3).len() > 0);
            assert(!family_seen(raw, 3));
        assert(family_markers(3).len() > 0);
        assert(!lower_has(raw, family_markers(3)[0]));
            assert(family_markers(3)[0] == "windows"@);
            assert(!lower_has(raw, family_markers(3)[1]));
            assert(family_markers(3)[1] == "win32"@);
            assert(!lower_has(raw, family_markers(3)[2]));
            assert(family_markers(3)[2] == "winrt"@);
            assert(!family_seen(raw, 4));
            assert(family_markers(4).len() > 0);
            assert(!family_seen(raw, 4));
        assert(family_markers(4).len() > 0);
        assert(!lower_has(raw, family_markers(4)[0]));
            assert(family_markers(4)[0] == "osx"@);
            assert(!lower_has(raw, family_markers(4)[1]));
            assert(family_markers(4)[1] == "os x"@);
            assert(!lower_has(raw, family_markers(4)[2]));
            assert(family_markers(4)[2] == "macos"@);
            assert(!lower_has(raw, family_markers(4)[3]));
            assert(family_markers(4)[3] == "darwin"@);
            assert(!family_seen(raw, 5));
            assert(family_markers(5).len() > 0);
            assert(!family_seen(raw, 5));
        assert(family_markers(5).len() > 0);
        assert(!lower_has(raw, family_markers(5)[0]));
            assert(family_markers(5)[0] == "linux"@);
            if k == 0 {
                assert(m == "cast"@);
            }
        } else if f == 7 {
            assert(!family_seen(raw, 0));
            assert(family_markers(0).len() > 0);
            assert(!family_seen(raw, 0));
        assert(family_markers(0).len() > 0);
        assert(!lower_has(raw, family_markers(0)[0]));
            assert(family_markers(0)[0] == "web_player"@);
            assert(!lower_has(raw, family_markers(0)[1]));
            assert(family_markers(0)[1] == "webplayer"@);
            assert(!family_seen(raw, 1));
            assert(family_markers(1).len() > 0);
            assert(!family_seen(raw, 1));
        assert(family_markers(1).len() > 0);
        assert(!lower_has(raw, family_markers(1)[0]));
            assert(family_markers(1)[0] == "ios"@);
            assert(!lower_has(raw, family_markers(1)[1]));
            assert(family_markers(1)[1] == "iphone"@);
            assert(!lower_has(raw, family_markers(1)[2]));
            assert(family_markers(1)[2] == "ipad"@);
            assert(!family_seen(raw, 2));
            assert(family_markers(2).len() > 0);
            assert(!family_seen(raw, 2));
        assert(family_markers(2).len() > 0);
        assert(!lower_has(raw, family_markers(2)[0]));
            assert(family_markers(2)[0] == "android"@);
            assert(!family_seen(raw, 3));
            assert(family_markers(3).len() > 0);
            assert(!family_seen(raw, 3));
        assert(family_markers(3).len() > 0);
        assert(!lower_has(raw, family_markers(3)[0]));
            assert(family_markers(3)[0] == "windows"@);
            assert(!lower_has(raw, family_markers(3)[1]));
            assert(family_markers(3)[1] == "win32"@);
            assert(!lower_has(raw, family_markers(3)[2]));
            assert(family_markers(3)[2] == "winrt"@);
            assert(!family_seen(raw, 4));
            assert(family_markers(4).len() > 0);
            assert(!family_seen(raw, 4));
        assert(family_markers(4).len() > 0);
        assert(!lower_has(raw, family_markers(4)[0]));
            assert(family_markers(4)[0] == "osx"@);
            assert(!lower_has(raw, family_markers(4)[1]));
            assert(family_markers(4)[1] == "os x"@);
            assert(!lower_has(raw, family_markers(4)[2]));
            assert(family_markers(4)[2] == "macos"@);
            assert(!lower_has(raw, family_markers(4)[3]));
            assert(family_markers(4)[3] == "darwin"@);
            assert(!family_seen(raw, 5));
            assert(family_markers(5).len() > 0);
            assert(!family_seen(raw, 5));
        assert(family_markers(5).len() > 0);
        assert(!lower_has(raw, family_markers(5)[0]));
            assert(family_markers(5)[0] == "linux"@);
            assert(!family_seen(raw, 6));
            assert(family_markers(6).len() > 0);
            assert(!family_seen(raw, 6));
        assert(family_markers(6).len() > 0);
        assert(!lower_has(raw, family_markers(6)[0]));
            assert(family_markers(6)[0] == "cast"@);
            if k == 0 {
                assert(m == "partner"@);
            }
            if k == 1 {
                assert(m == "sonos"@);
            }
            if k == 2 {
                assert(m == "xbox"@);
            }
            if k == 3 {
                assert(m == "playstation"@);
            }
        }
    }
    if raw.len() > 0 && (forall|e: int| 0 <= e < 8 ==> !#[trigger] family_seen(raw, e)) {
        assert(!family_seen(raw, 0));
        assert(family_markers(0).len() > 0);
        assert(!lower_has(raw, family_markers(0)[0]));
        assert(family_markers(0)[0] == "web_player"@);
        assert(!lower_has(raw, family_markers(0)[1]));
        assert(family_markers(0)[1] == "webplayer"@);
        assert(!family_seen(raw, 1));
        assert(family_markers(1).len() > 0);
        assert(!lower_has(raw, family_markers(1)[0]));
        assert(family_markers(1)[0] == "ios"@);
        assert(!lower_has(raw, family_markers(1)[1]));
        assert(family_markers(1)[1] == "iphone"@);
        assert(!lower_has(raw, family_markers(1)[2]));
        assert(family_markers(1)[2] == "ipad"@);
        assert(!family_seen(raw, 2));
        assert(family_markers(2).len() > 0);
        assert(!lower_has(raw, family_markers(2)[0]));
        assert(family_markers(2)[0] == "android"@);
        assert(!family_seen(raw, 3));
        assert(family_markers(3).len() > 0);
        assert(!lower_has(raw, family_markers(3)[0]));
        assert(family_markers(3)[0] == "windows"@);
        assert(!lower_has(raw, family_markers(3)[1]));
        assert(family_markers(3)[1] == "win32"@);
        assert(!lower_has(raw, family_markers(3)[2]));
        assert(family_markers(3)[2] == "winrt"@);
        assert(!family_seen(raw, 4));
        assert(family_markers(4).len() > 0);
        assert(!lower_has(raw, family_markers(4)[0]));
        assert(family_markers(4)[0] == "osx"@);
        assert(!lower_has(raw, family_markers(4)[1]));
        assert(family_markers(4)[1] == "os x"@);
        assert(!lower_has(raw, family_markers(4)[2]));
        assert(family_markers(4)[2] == "macos"@);
        assert(!lower_has(raw, family_markers(4)[3]));
        assert(family_markers(4)[3] == "darwin"@);
        assert(!family_seen(raw, 5));
        assert(family_markers(5).len() > 0);
        assert(!lower_has(raw, family_markers(5)[0]));
        assert(family_markers(5)[0] == "linux"@);
        assert(!family_seen(raw, 6));
        assert(family_markers(6).len() > 0);
        assert(!lower_has(raw, family_markers(6)[0]));
        assert(family_markers(6)[0] == "cast"@);
        assert(!family_seen(raw, 7));
        assert(family_markers(7).len() > 0);
        assert(!lower_has(raw, family_markers(7)[0]));
        assert(family_markers(7)[0] == "partner"@);
        assert(!lower_has(raw, family_markers(7)[1]));
        assert(family_markers(7)[1] == "sonos"@);
        assert(!lower_has(raw, family_markers(7)[2]));
        assert(family_markers(7)[2] == "xbox"@);
        assert(!lower_has(raw, family_markers(7)[3]));
        assert(family_markers(7)[3] == "playstation"@);
    }
}

fn has(p: &Vec<char>, s: &str) -> (r: bool)
    ensures
        r == has_sub(p@, s@),
{
    contains_sub(p, &chars_of(s))
}

/// Fold "iOS 14.8.1 (iPhone11,8)", "ios" and the rest into device families.
pub fn platform_family(raw: &str) -> (r: &'static str)
    ensures
        r@ == platform_family_spec(raw@),
{
    let p = ascii_lowercase_chars(&chars_of(raw));
    if p.len() == 0 {
        return "Unknown";
    }
    if has(&p, "web_player") || has(&p, "webplayer") {
        return "Web player";
    }
    if has(&p, "ios") || has(&p, "iphone") || has(&p, "ipad") {
        return "iPhone / iPad";
    }
    if has(&p, "android") {
        return "Android";
    }
    if has(&p, "windows") || has(&p, "win32") || has(&p, "winrt") {
        return "Windows";
    }
    if has(&p, "osx") || has(&p, "os x") || has(&p, "macos") || has(&p, "darwin") {
        return "macOS";
    }
    if has(&p, "linux") {
        return "Linux";
    }
    if has(&p, "cast") {
        return "Cast";
    }
    if has(&p, "partner") || has(&p, "sonos") || has(&p, "xbox") || has(&p, "playstation") {
        return "Speakers & consoles";
    }
    "Other"
}

/// Families in order of first appearance, each with its summed plays and ms.
pub open spec fn fold_spec(raw: Seq<Bucket>) -> Seq<(Seq<char>, int, int)>
    decreases raw.len(),
{
    if raw.len() == 0 {
        Seq::empty()
    } else {
        let prev = fold_spec(raw.drop_last());
        let b = raw.last();
        let f = platform_family_spec(b.label@);
        if exists|k: int| 0 <= k < prev.len() && prev[k].0 == f {
            let k = choose|k: int| 0 <= k < prev.len() && prev[k].0 == f;
            prev.update(k, (f, prev[k].1 + b.plays, prev[k].2 + b.ms))
        } else {
            prev.push((f, b.plays as int, b.ms as int))
        }
    }
}

pub open spec fn total_plays(raw: Seq<Bucket>) -> int
    decreases raw.len(),
{
    if raw.len() == 0 {
        0
    } else {
        total_plays(raw.drop_last()) + raw.last().plays
    }
}

pub open spec fn total_ms(raw: Seq<Bucket>) -> int
    decreases raw.len(),
{
    if raw.len() == 0 {
        0
    } else {
        total_ms(raw.drop_last()) + raw.last().ms
    }
}

pub open spec fn bucket_view(b: Bucket) -> (Seq<char>, int, int) {
    (b.label@, b.plays as int, b.ms as int)
}

pub open spec fn ms_keys(g: Seq<(Seq<char>, int, int)>) -> Seq<(i64, i64)> {
    g.map_values(|e: (Seq<char>, int, int)| (e.2 as i64, 0i64))
}

/// The families have distinct names and sums between 0 and the totals.
pub open spec fn fold_bounded(g: Seq<(Seq<char>, int, int)>, tp: int, tm: int) -> bool {
    &&& forall|a: int, b: int| 0 <= a < b < g.len() ==> g[a].0 != g[b].0
    &&& forall|k: int| 0 <= k < g.len() ==> 0 <= #[trigger] g[k].1 <= tp && 0 <= g[k].2 <= tm
}

proof fn lemma_fold_bounded(raw: Seq<Bucket>)
    requires
        forall|k: int| 0 <= k < raw.len() ==> #[trigger] raw[k].plays >= 0 && raw[k].ms >= 0,
    ensures
        fold_bounded(fold_spec(raw), total_plays(raw), total_ms(raw)),
        total_plays(raw) >= 0,
        total_ms(raw) >= 0,
    decreases raw.len(),
{
    if raw.len() > 0 {
        let init = raw.drop_last();
        assert forall|k: int| 0 <= k < init.len() implies #[trigger] init[k].plays >= 0 && init[k].ms >= 0 by {
            assert(init[k] == raw[k]);
        }
        lemma_fold_bounded(init);
        assert(raw.last() == raw[raw.len() - 1]);
    }
}

pub open spec fn family_plays(g: Seq<(Seq<char>, int, int)>) -> int
    decreases g.len(),
{
    if g.len() == 0 {
        0
    } else {
        family_plays(g.drop_last()) + g.last().1
    }
}

pub open spec fn family_ms(g: Seq<(Seq<char>, int, int)>) -> int
    decreases g.len(),
{
    if g.len() == 0 {
        0
    } else {
        family_ms(g.drop_last()) + g.last().2
    }
}

proof fn lemma_family_sums_update(g: Seq<(Seq<char>, int, int)>, k: int, x: (Seq<char>, int, int))
    requires
        0 <= k < g.len(),
    ensures
        family_plays(g.update(k, x)) == family_plays(g) - g[k].1 + x.1,
        family_ms(g.update(k, x)) == family_ms(g) - g[k].2 + x.2,
    decreases g.len(),
{
    let u = g.update(k, x);
    if k == g.len() - 1 {
        assert(u.drop_last() =~= g.drop_last());
    } else {
        lemma_family_sums_update(g.drop_last(), k, x);
        assert(u.drop_last() =~= g.drop_last().update(k, x));
    }
}

/// Folding platforms into families loses no play and no listening time:
/// the families' sums add up to the totals of the platforms.
pub proof fn folding_keeps_every_play(raw: Seq<Bucket>)
    ensures
        family_plays(fold_spec(raw)) == total_plays(raw),
        family_ms(fold_spec(raw)) == total_ms(raw),
    decreases raw.len(),
{
    if raw.len() > 0 {
        let prev = fold_spec(raw.drop_last());
        folding_keeps_every_play(raw.drop_last());
        let b = raw.last();
        let f = platform_family_spec(b.label@);
        if exists|k: int| 0 <= k < prev.len() && prev[k].0 == f {
            let k = choose|k: int| 0 <= k < prev.len() && prev[k].0 == f;
            lemma_family_sums_update(prev, k, (f, prev[k].1 + b.plays, prev[k].2 + b.ms));
        } else {
            let x = (f, b.plays as int, b.ms as int);
            assert(prev.push(x).drop_last() =~= prev);
        }
    }
}

/// The plays of the platforms of `raw` that fold into family `f`.
pub open spec fn plays_in(raw: Seq<Bucket>, f: Seq<char>) -> int
    decreases raw.len(),
{
    if raw.len() == 0 {
        0
    } else {
        plays_in(raw.drop_last(), f) + if platform_family_spec(raw.last().label@) == f {
            raw.last().plays as int
        } else {
            0
        }
    }
}

/// The listening time of the platforms of `raw` that fold into family `f`.
pub open spec fn ms_in(raw: Seq<Bucket>, f: Seq<char>) -> int
    decreases raw.len(),
{
    if raw.len() == 0 {
        0
    } else {
        ms_in(raw.drop_last(), f) + if platform_family_spec(raw.last().label@) == f {
            raw.last().ms as int
        } else {
            0
        }
    }
}

/// Some platform of `raw` folds into family `f`.
pub open spec fn has_family(raw: Seq<Bucket>, f: Seq<char>) -> bool {
    exists|j: int| 0 <= j < raw.len() && platform_family_spec(#[trigger] raw[j].label@) == f
}

/// `f` names one of the folded families.
pub open spec fn is_family_of(g: Seq<(Seq<char>, int, int)>, f: Seq<char>) -> bool {
    exists|k: int| 0 <= k < g.len() && (#[trigger] g[k]).0 == f
}

proof fn lemma_absent_family_sums(raw: Seq<Bucket>, f: Seq<char>)
    requires
        !has_family(raw, f),
    ensures
        plays_in(raw, f) == 0,
        ms_in(raw, f) == 0,
    decreases raw.len(),
{
    if raw.len() > 0 {
        let init = raw.drop_last();
        assert(raw.last() == raw[raw.len() - 1]);
        assert(!has_family(init, f)) by {
            if has_family(init, f) {
                let j = choose|j: int| 0 <= j < init.len() && platform_family_spec(#[trigger] init[j].label@) == f;
                assert(raw[j] == init[j]);
            }
        }
        lemma_absent_family_sums(init, f);
    }
}

/// Folding platforms into families gives each family once, exactly the
/// families the platforms fold into, and each with the plays and listening
/// time of its own platforms.
pub proof fn each_family_sums_its_platforms(raw: Seq<Bucket>)
    ensures
        forall|a: int, b: int| 0 <= a < b < fold_spec(raw).len() ==> fold_spec(raw)[a].0 != fold_spec(raw)[b].0,
        forall|f: Seq<char>| #[trigger] is_family_of(fold_spec(raw), f) <==> has_family(raw, f),
        forall|k: int|
            0 <= k < fold_spec(raw).len() ==> (#[trigger] fold_spec(raw)[k]).1 == plays_in(raw, fold_spec(raw)[k].0)
                && fold_spec(raw)[k].2 == ms_in(raw, fold_spec(raw)[k].0),
    decreases raw.len(),
{
    if raw.len() > 0 {
        let init = raw.drop_last();
        each_family_sums_its_platforms(init);
        let prev = fold_spec(init);
        let b = raw.last();
        let n = raw.len();
        assert(b == raw[n - 1]);
        let f = platform_family_spec(b.label@);
        assert forall|x: Seq<char>| has_family(raw, x) <== (has_family(init, x) || x == f) by {
            if has_family(init, x) {
                let j = choose|j: int| 0 <= j < init.len() && platform_family_spec(#[trigger] init[j].label@) == x;
                assert(raw[j] == init[j]);
            } else if x == f {
                assert(platform_family_spec(raw[n - 1].label@) == x);
            }
        }
        assert forall|x: Seq<char>| has_family(raw, x) ==> (has_family(init, x) || x == f) by {
            if has_family(raw, x) {
                let j = choose|j: int| 0 <= j < raw.len() && platform_family_spec(#[trigger] raw[j].label@) == x;
                if j < n - 1 {
                    assert(raw[j] == init[j]);
                }
            }
        }
        let g = fold_spec(raw);
        if exists|k: int| 0 <= k < prev.len() && prev[k].0 == f {
            let k = choose|k: int| 0 <= k < prev.len() && prev[k].0 == f;
            assert(g == prev.update(k, (f, prev[k].1 + b.plays, prev[k].2 + b.ms)));
            assert(is_family_of(prev, f));
            assert forall|x: Seq<char>| #[trigger] is_family_of(g, x) <==> is_family_of(prev, x) by {
                if is_family_of(g, x) {
                    let q = choose|q: int| 0 <= q < g.len() && (#[trigger] g[q]).0 == x;
                    assert(prev[q].0 == x);
                }
                if is_family_of(prev, x) {
                    let q = choose|q: int| 0 <= q < prev.len() && (#[trigger] prev[q]).0 == x;
                    assert(g[q].0 == x);
                }
            }
            assert forall|q: int| 0 <= q < g.len() implies (#[trigger] g[q]).1 == plays_in(raw, g[q].0) && g[q].2
                == ms_in(raw, g[q].0) by {
                assert(prev[q].1 == plays_in(init, prev[q].0));
                if q != k {
                    assert(prev[q].0 != prev[k].0);
                }
            }
        } else {
            let x0 = (f, b.plays as int, b.ms as int);
            assert(g == prev.push(x0));
            assert(!is_family_of(prev, f));
            lemma_absent_family_sums(init, f);
            assert forall|x: Seq<char>| #[trigger] is_family_of(g, x) <==> (is_family_of(prev, x) || x == f) by {
                if is_family_of(g, x) {
                    let q = choose|q: int| 0 <= q < g.len() && (#[trigger] g[q]).0 == x;
                    if q < prev.len() {
                        assert(prev[q].0 == x);
                    }
                }
                if is_family_of(prev, x) {
                    let q = choose|q: int| 0 <= q < prev.len() && (#[trigger] prev[q]).0 == x;
                    assert(g[q].0 == x);
                }
                if x == f {
                    assert(g[prev.len() as int].0 == x);
                }
            }
            assert forall|q: int| 0 <= q < g.len() implies (#[trigger] g[q]).1 == plays_in(raw, g[q].0) && g[q].2
                == ms_in(raw, g[q].0) by {
                if q < prev.len() {
                    assert(g[q] == prev[q]);
                    assert(prev[q].1 == plays_in(init, prev[q].0));
                    if prev[q].0 == f {
                        assert(is_family_of(prev, f));
                    }
                }
            }
            assert forall|a: int, c: int| 0 <= a < c < g.len() implies g[a].0 != g[c].0 by {
                if c == prev.len() {
                    assert(g[a] == prev[a]);
                    if prev[a].0 == f {
                        assert(is_family_of(prev, f));
                    }
                }
            }
        }
    }
}

/// `k` is the first position of a bucket labelled `l`.
pub open spec fn first_with_label(found: Seq<Bucket>, l: Seq<char>, k: int) -> bool {
    &&& 0 <= k < found.len()
    &&& found[k].label@ == l
    &&& forall|t: int| 0 <= t < k ==> #[trigger] found[t].label@ != l
}

fn find_label(out: &Vec<Bucket>, family: &str) -> (r: Option<usize>)
    ensures
        match r {
            Some(k) => first_with_label(out@, family@, k as int),
            None => forall|k: int| 0 <= k < out@.len() ==> #[trigger] out@[k].label@ != family@,
        },
{
    let mut k: usize = 0;
    while k < out.len()
        invariant
            k <= out@.len(),
            forall|t: int| 0 <= t < k ==> out@[t].label@ != family@,
        decreases out@.len() - k,
    {
        if crate::models::str_eq(out[k].label.as_str(), family) {
            return Some(k);
        }
        k += 1;
    }
    None
}

/// Sum platform buckets into device families (first appearance order),
/// then order them by listening time, largest first (ties stay in order).
pub fn fold_platforms(raw: Vec<Bucket>) -> (out: Vec<Bucket>)
    requires
        forall|k: int| 0 <= k < raw@.len() ==> #[trigger] raw@[k].plays >= 0 && raw@[k].ms >= 0,
        total_plays(raw@) <= i64::MAX,
        total_ms(raw@) <= i64::MAX,
    ensures
        exists|perm: Seq<usize>|
            is_stable_desc_order(ms_keys(fold_spec(raw@)), perm) && out@.len() == perm.len()
                && forall|k: int|
                0 <= k < out@.len() ==> bucket_view(#[trigger] out@[k]) == fold_spec(raw@)[perm[k] as int],
{
    let mut grouped: Vec<Bucket> = Vec::new();
    let mut i: usize = 0;
    while i < raw.len()
        invariant
            i <= raw@.len(),
            forall|k: int| 0 <= k < raw@.len() ==> #[trigger] raw@[k].plays >= 0 && raw@[k].ms >= 0,
            total_plays(raw@) <= i64::MAX,
            total_ms(raw@) <= i64::MAX,
            grouped@.map_values(|b: Bucket| bucket_view(b)) == fold_spec(raw@.subrange(0, i as int)),
        decreases raw@.len() - i,
    {
        let ghost pre = raw@.subrange(0, i as int);
        let ghost cur = raw@.subrange(0, i + 1);
        assert(cur.drop_last() =~= pre);
        assert(cur.last() == raw@[i as int]);
        proof {
            assert forall|k: int| 0 <= k < cur.len() implies #[trigger] cur[k].plays >= 0 && cur[k].ms >= 0 by {
                assert(cur[k] == raw@[k]);
            }
            lemma_fold_bounded(cur);
            lemma_totals_prefix(raw@, i + 1);
        }
        let ghost g = grouped@.map_values(|b: Bucket| bucket_view(b));
        let b = &raw[i];
        let family = platform_family(b.label.as_str());
        match find_label(&grouped, family) {
            Some(k) => {
                proof {
                    assert(g[k as int].0 == platform_family_spec(b.label@));
                    let c = choose|c: int| 0 <= c < g.len() && g[c].0 == platform_family_spec(b.label@);
                    lemma_fold_bounded(pre);
                    if c != k {
                        assert(g[c].0 == g[k as int].0);
                    }
                    assert(fold_spec(cur)[k as int].1 <= total_plays(cur));
                    assert(fold_spec(cur)[k as int].2 <= total_ms(cur));
                }
                let plays = grouped[k].plays + b.plays;
                let ms = grouped[k].ms + b.ms;
                let label = grouped[k].label.clone();
                let ghost before = grouped@;
                grouped.set(k, Bucket { label, plays, ms });
                assert(grouped@.map_values(|b: Bucket| bucket_view(b)) =~= fold_spec(cur));
            },
            None => {
                let ghost before = grouped@;
                grouped.push(Bucket { label: String::from_str(family), plays: b.plays, ms: b.ms });
                assert(grouped@.map_values(|b: Bucket| bucket_view(b)) =~= fold_spec(cur));
            },
        }
        i += 1;
    }
    assert(raw@.subrange(0, raw@.len() as int) =~= raw@);
    let ghost g = fold_spec(raw@);
    let mut keys: Vec<(i64, i64)> = Vec::new();
    let mut k: usize = 0;
    while k < grouped.len()
        invariant
            k <= grouped@.len(),
            grouped@.map_values(|b: Bucket| bucket_view(b)) == g,
            keys@ == ms_keys(g).subrange(0, k as int),
        decreases grouped@.len() - k,
    {
        keys.push((grouped[k].ms, 0));
        k += 1;
        assert(keys@ =~= ms_keys(g).subrange(0, k as int));
    }
    assert(keys@ =~= ms_keys(g));
    let perm = stable_desc_order(&keys);
    let mut out: Vec<Bucket> = Vec::new();
    let mut p: usize = 0;
    while p < perm.len()
        invariant
            p <= perm@.len(),
            is_stable_desc_order(keys@, perm@),
            keys@.len() == grouped@.len(),
            grouped@.map_values(|b: Bucket| bucket_view(b)) == g,
            out@.len() == p,
            forall|t: int| 0 <= t < p ==> bucket_view(#[trigger] out@[t]) == g[perm@[t] as int],
        decreases perm@.len() - p,
    {
        let src = &grouped[perm[p]];
        out.push(Bucket { label: src.label.clone(), plays: src.plays, ms: src.ms });
        p += 1;
    }
    assert(is_stable_desc_order(ms_keys(fold_spec(raw@)), perm@));
    out
}

proof fn lemma_totals_prefix(raw: Seq<Bucket>, i: int)
    requires
        0 <= i <= raw.len(),
        forall|k: int| 0 <= k < raw.len() ==> #[trigger] raw[k].plays >= 0 && raw[k].ms >= 0,
    ensures
        total_plays(raw.subrange(0, i)) <= total_plays(raw),
        total_ms(raw.subrange(0, i)) <= total_ms(raw),
    decreases raw.len() - i,
{
    if i < raw.len() {
        lemma_totals_prefix(raw, i + 1);
        let s = raw.subrange(0, i + 1);
        assert(s.drop_last() =~= raw.subrange(0, i));
        assert(s.last() == raw[i]);
    } else {
        assert(raw.subrange(0, i) =~= raw);
    }
}

// ---- completing the charts ---------------------------------------------------------------

/// The bucket for one label: the first found bucket with that label, or an
/// empty one.
pub open spec fn filled_bucket(found: Seq<Bucket>, l: Seq<char>) -> (Seq<char>, int, int) {
    if exists|k: int| first_with_label(found, l, k) {
        bucket_view(found[choose|k: int| first_with_label(found, l, k)])
    } else {
        (l, 0, 0)
    }
}

proof fn lemma_first_with_label_unique(found: Seq<Bucket>, l: Seq<char>, a: int, b: int)
    requires
        first_with_label(found, l, a),
        first_with_label(found, l, b),
    ensures
        a == b,
{
    if a < b {
        assert(found[a].label@ != l);
    } else if b < a {
        assert(found[b].label@ != l);
    }
}

/// One bucket per label, in label order, so a chart keeps its shape.
pub fn fill(labels: &Vec<String>, found: &Vec<Bucket>) -> (out: Vec<Bucket>)
    ensures
        out@.len() == labels@.len(),
        forall|i: int|
            0 <= i < labels@.len() ==> bucket_view(#[trigger] out@[i]) == filled_bucket(
                found@,
                labels@[i]@,
            ),
{
    let mut out: Vec<Bucket> = Vec::new();
    let mut i: usize = 0;
    while i < labels.len()
        invariant
            i <= labels@.len(),
            out@.len() == i,
            forall|t: int|
                0 <= t < i ==> bucket_view(#[trigger] out@[t]) == filled_bucket(found@, labels@[t]@),
        decreases labels@.len() - i,
    {
        let l = &labels[i];
        match find_label(found, l.as_str()) {
            Some(k) => {
                proof {
                    let c = choose|c: int| first_with_label(found@, l@, c);
                    lemma_first_with_label_unique(found@, l@, c, k as int);
                }
                out.push(Bucket { label: found[k].label.clone(), plays: found[k].plays, ms: found[k].ms });
            },
            None => {
                out.push(Bucket { label: l.clone(), plays: 0, ms: 0 });
            },
        }
        i += 1;
    }
    out
}

// ---- song rankings -----------------------------------------------------------------------

/// Songs with at least one counted play.
pub open spec fn played_songs(all: Seq<SongStat>) -> Seq<SongStat> {
    all.filter(|s: SongStat| s.plays > 0)
}

/// Songs skipped past often enough to chart.
pub open spec fn skipped_songs(all: Seq<SongStat>) -> Seq<SongStat> {
    all.filter(|s: SongStat| s.skips >= MIN_SKIPS)
}

/// Most played first; equal play counts by listening time.
pub open spec fn play_keys(songs: Seq<SongStat>) -> Seq<(i64, i64)> {
    songs.map_values(|s: SongStat| (s.plays, s.ms))
}

/// Most skipped first; equal skip counts by how often the song came up.
pub open spec fn skip_keys(songs: Seq<SongStat>) -> Seq<(i64, i64)> {
    songs.map_values(|s: SongStat| (s.skips, (s.skips + s.plays) as i64))
}

/// `out` is `songs` in stable descending order of `keys`, cut to `limit`.
pub open spec fn ranked(songs: Seq<SongStat>, keys: Seq<(i64, i64)>, limit: usize, out: Seq<SongStat>) -> bool {
    exists|perm: Seq<usize>|
        is_stable_desc_order(keys, perm) && out.len() == (if limit < songs.len() {
            limit as int
        } else {
            songs.len() as int
        }) && forall|k: int| 0 <= k < out.len() ==> #[trigger] out[k] == songs[perm[k] as int]
}

fn copy_song(s: &SongStat) -> (r: SongStat)
    ensures
        r == *s,
{
    SongStat {
        name: s.name.clone(),
        artist: s.artist.clone(),
        uri: clone_opt(&s.uri),
        plays: s.plays,
        skips: s.skips,
        ms: s.ms,
    }
}

/// Every song in `r` is one of `all`.
pub open spec fn drawn_from(r: Seq<SongStat>, all: Seq<SongStat>) -> bool {
    forall|t: int| 0 <= t < r.len() ==> exists|i: int| 0 <= i < all.len() && #[trigger] r[t] == all[i]
}

fn select_songs(all: &Vec<SongStat>, by_plays: bool) -> (r: Vec<SongStat>)
    ensures
        by_plays ==> r@ == played_songs(all@),
        !by_plays ==> r@ == skipped_songs(all@),
        drawn_from(r@, all@),
{
    let mut r: Vec<SongStat> = Vec::new();
    let mut k: usize = 0;
    while k < all.len()
        invariant
            k <= all.len(),
            by_plays ==> r@ == played_songs(all@.subrange(0, k as int)),
            !by_plays ==> r@ == skipped_songs(all@.subrange(0, k as int)),
            drawn_from(r@, all@),
        decreases all.len() - k,
    {
        let ghost pre = all@.subrange(0, k as int);
        assert(all@.subrange(0, k + 1).drop_last() =~= pre);
        let keep = if by_plays {
            all[k].plays > 0
        } else {
            all[k].skips >= MIN_SKIPS
        };
        if keep {
            r.push(copy_song(&all[k]));
            assert(r@[r@.len() - 1] == all@[k as int]);
            assert forall|t: int| 0 <= t < r@.len() implies exists|i: int| 0 <= i < all@.len() && #[trigger] r@[t] == all@[i] by {
                if t == r@.len() - 1 {
                    assert(r@[t] == all@[k as int]);
                }
            }
        }
        proof {
            reveal_with_fuel(Seq::filter, 1);
        }
        k += 1;
    }
    assert(all@.subrange(0, all.len() as int) =~= all@);
    r
}

fn rank_by(songs: &Vec<SongStat>, keys: &Vec<(i64, i64)>, limit: usize) -> (out: Vec<SongStat>)
    requires
        keys@.len() == songs@.len(),
    ensures
        ranked(songs@, keys@, limit, out@),
{
    let perm = stable_desc_order(keys);
    let n = if limit < perm.len() {
        limit
    } else {
        perm.len()
    };
    let mut out: Vec<SongStat> = Vec::new();
    let mut p: usize = 0;
    while p < n
        invariant
            n <= perm@.len(),
            is_stable_desc_order(keys@, perm@),
            keys@.len() == songs@.len(),
            out@.len() == p,
            p <= n,
            forall|t: int| 0 <= t < p ==> #[trigger] out@[t] == songs@[perm@[t] as int],
        decreases n - p,
    {
        out.push(copy_song(&songs[perm[p]]));
        p += 1;
    }
    out
}

/// The song rankings are in order: the most played list holds songs with
/// plays, at most `limit`, with plays never rising down the list (equal
/// plays by listening time); the most skipped list holds songs skipped at
/// least `MIN_SKIPS` times, at most `limit`, with skips never rising down
/// the list (equal skips by how often the song came up).
pub proof fn rankings_are_ordered(all: Seq<SongStat>, limit: usize, played: Seq<SongStat>, skipped: Seq<SongStat>)
    requires
        forall|k: int| 0 <= k < all.len() ==> i64::MIN <= #[trigger] all[k].skips + all[k].plays <= i64::MAX,
        ranked(played_songs(all), play_keys(played_songs(all)), limit, played),
        ranked(skipped_songs(all), skip_keys(skipped_songs(all)), limit, skipped),
    ensures
        played.len() <= limit,
        forall|k: int| 0 <= k < played.len() ==> #[trigger] played[k].plays > 0,
        forall|k: int, l: int|
            0 <= k < l < played.len() ==> #[trigger] played[k].plays >= #[trigger] played[l].plays && (played[k].plays
                == played[l].plays ==> played[k].ms >= played[l].ms),
        skipped.len() <= limit,
        forall|k: int| 0 <= k < skipped.len() ==> #[trigger] skipped[k].skips >= MIN_SKIPS,
        forall|k: int, l: int|
            0 <= k < l < skipped.len() ==> #[trigger] skipped[k].skips >= #[trigger] skipped[l].skips && (
            skipped[k].skips == skipped[l].skips ==> skipped[k].skips + skipped[k].plays >= skipped[l].skips
                + skipped[l].plays),
{
    let ps = played_songs(all);
    let pk = play_keys(ps);
    let pperm = choose|perm: Seq<usize>|
        is_stable_desc_order(pk, perm) && played.len() == (if limit < ps.len() {
            limit as int
        } else {
            ps.len() as int
        }) && forall|k: int| 0 <= k < played.len() ==> #[trigger] played[k] == ps[perm[k] as int];
    assert forall|k: int| 0 <= k < played.len() implies #[trigger] played[k].plays > 0 by {
        assert(pperm[k] < pk.len());
        all.lemma_filter_pred(|s: SongStat| s.plays > 0, pperm[k] as int);
    }
    assert forall|k: int, l: int| 0 <= k < l < played.len() implies #[trigger] played[k].plays
        >= #[trigger] played[l].plays && (played[k].plays == played[l].plays ==> played[k].ms >= played[l].ms) by {
        assert(crate::order::ranks_before(pk, pperm[k] as int, pperm[l] as int));
        assert(pperm[k] < pk.len() && pperm[l] < pk.len());
    }
    let ss = skipped_songs(all);
    let sk = skip_keys(ss);
    let sperm = choose|perm: Seq<usize>|
        is_stable_desc_order(sk, perm) && skipped.len() == (if limit < ss.len() {
            limit as int
        } else {
            ss.len() as int
        }) && forall|k: int| 0 <= k < skipped.len() ==> #[trigger] skipped[k] == ss[perm[k] as int];
    let pred = |s: SongStat| s.skips >= MIN_SKIPS;
    assert forall|k: int| 0 <= k < skipped.len() implies #[trigger] skipped[k].skips >= MIN_SKIPS by {
        assert(sperm[k] < sk.len());
        all.lemma_filter_pred(pred, sperm[k] as int);
    }
    assert forall|k: int, l: int| 0 <= k < l < skipped.len() implies #[trigger] skipped[k].skips
        >= #[trigger] skipped[l].skips && (skipped[k].skips == skipped[l].skips ==> skipped[k].skips
        + skipped[k].plays >= skipped[l].skips + skipped[l].plays) by {
        let a = sperm[k] as int;
        let c = sperm[l] as int;
        assert(crate::order::ranks_before(sk, a, c));
        assert(a < sk.len() && c < sk.len());
        assert(ss.contains(ss[a]) && ss.contains(ss[c]));
        all.lemma_filter_contains_rev(pred, ss[a]);
        all.lemma_filter_contains_rev(pred, ss[c]);
        let ia = choose|i: int| 0 <= i < all.len() && all[i] == ss[a];
        let ic = choose|i: int| 0 <= i < all.len() && all[i] == ss[c];
        assert(i64::MIN <= all[ia].skips + all[ia].plays <= i64::MAX);
        assert(i64::MIN <= all[ic].skips + all[ic].plays <= i64::MAX);
    }
}

/// Both song rankings from one grouping: most played (by plays, then
/// listening time) and most skipped past (by skips, then times it came up),
/// each cut to `limit`.
pub fn rank_songs(all: &Vec<SongStat>, limit: usize) -> (r: (Vec<SongStat>, Vec<SongStat>))
    requires
        forall|k: int|
            0 <= k < all@.len() ==> i64::MIN <= #[trigger] all@[k].skips + all@[k].plays <= i64::MAX,
    ensures
        ranked(played_songs(all@), play_keys(played_songs(all@)), limit, r.0@),
        ranked(skipped_songs(all@), skip_keys(skipped_songs(all@)), limit, r.1@),
        r.0@.len() <= limit,
        forall|k: int| 0 <= k < r.0@.len() ==> #[trigger] r.0@[k].plays > 0,
        forall|k: int, l: int|
            0 <= k < l < r.0@.len() ==> #[trigger] r.0@[k].plays >= #[trigger] r.0@[l].plays && (r.0@[k].plays
                == r.0@[l].plays ==> r.0@[k].ms >= r.0@[l].ms),
        r.1@.len() <= limit,
        forall|k: int| 0 <= k < r.1@.len() ==> #[trigger] r.1@[k].skips >= MIN_SKIPS,
        forall|k: int, l: int|
            0 <= k < l < r.1@.len() ==> #[trigger] r.1@[k].skips >= #[trigger] r.1@[l].skips && (r.1@[k].skips
                == r.1@[l].skips ==> r.1@[k].skips + r.1@[k].plays >= r.1@[l].skips + r.1@[l].plays),
{
    let played = select_songs(all, true);
    let mut keys: Vec<(i64, i64)> = Vec::new();
    let mut k: usize = 0;
    while k < played.len()
        invariant
            k <= played@.len(),
            keys@ == play_keys(played@).subrange(0, k as int),
        decreases played@.len() - k,
    {
        keys.push((played[k].plays, played[k].ms));
        k += 1;
        assert(keys@ =~= play_keys(played@).subrange(0, k as int));
    }
    assert(keys@ =~= play_keys(played@));
    let top = rank_by(&played, &keys, limit);

    let skipped = select_songs(all, false);
    proof {
        assert forall|t: int| 0 <= t < skipped@.len() implies i64::MIN <= #[trigger] skipped@[t].skips
            + skipped@[t].plays <= i64::MAX by {
            let i = choose|i: int| 0 <= i < all@.len() && skipped@[t] == all@[i];
            assert(i64::MIN <= all@[i].skips + all@[i].plays <= i64::MAX);
        }
    }
    let mut skeys: Vec<(i64, i64)> = Vec::new();
    let mut j: usize = 0;
    while j < skipped.len()
        invariant
            j <= skipped@.len(),
            skeys@ == skip_keys(skipped@).subrange(0, j as int),
            forall|t: int|
                0 <= t < skipped@.len() ==> i64::MIN <= #[trigger] skipped@[t].skips + skipped@[t].plays
                    <= i64::MAX,
        decreases skipped@.len() - j,
    {
        let s = &skipped[j];
        assert(i64::MIN <= skipped@[j as int].skips + skipped@[j as int].plays <= i64::MAX);
        skeys.push((s.skips, s.skips + s.plays));
        j += 1;
        assert(skeys@ =~= skip_keys(skipped@).subrange(0, j as int));
    }
    assert(skeys@ =~= skip_keys(skipped@));
    let most_skipped = rank_by(&skipped, &skeys, limit);
    proof {
        rankings_are_ordered(all@, limit, top@, most_skipped@);
    }
    (top, most_skipped)
}

// ---- chart labels -----------------------------------------------------------------------

/// `n` in decimal, zero-padded on the left to `width` characters.
pub open spec fn padded(n: nat, width: nat) -> Seq<char> {
    let d = decimal_spec(n);
    if d.len() < width {
        Seq::new((width - d.len()) as nat, |i: int| '0') + d
    } else {
        d
    }
}

fn padded_chars(n: u64, width: usize) -> (r: Vec<char>)
    ensures
        r@ == padded(n as nat, width as nat),
{
    let d = decimal_chars(n);
    let mut r: Vec<char> = Vec::new();
    if d.len() < width {
        let pad = width - d.len();
        let mut k: usize = 0;
        while k < pad
            invariant
                k <= pad,
                r@ == Seq::new(k as nat, |i: int| '0'),
            decreases pad - k,
        {
            r.push('0');
            k += 1;
            assert(r@ =~= Seq::new(k as nat, |i: int| '0'));
        }
    }
    let mut j: usize = 0;
    let ghost head = r@;
    while j < d.len()
        invariant
            j <= d@.len(),
            r@ == head + d@.subrange(0, j as int),
        decreases d@.len() - j,
    {
        r.push(d[j]);
        j += 1;
        assert(r@ =~= head + d@.subrange(0, j as int));
    }
    assert(d@.subrange(0, d@.len() as int) =~= d@);
    assert(r@ =~= padded(n as nat, width as nat));
    r
}

/// The hour buckets "00" to "23".
pub fn hour_labels() -> (r: Vec<String>)
    ensures
        r@.len() == 24,
        forall|i: int| 0 <= i < 24 ==> (#[trigger] r@[i])@ == padded(i as nat, 2),
{
    let mut r: Vec<String> = Vec::new();
    let mut h: u64 = 0;
    while h < 24
        invariant
            h <= 24,
            r@.len() == h,
            forall|i: int| 0 <= i < h ==> (#[trigger] r@[i])@ == padded(i as nat, 2),
        decreases 24 - h,
    {
        let c = padded_chars(h, 2);
        r.push(string_from_chars(c.as_slice()));
        h += 1;
    }
    r
}

/// The weekday buckets "0" (Sunday) to "6".
pub fn weekday_labels() -> (r: Vec<String>)
    ensures
        r@.len() == 7,
        forall|i: int| 0 <= i < 7 ==> (#[trigger] r@[i])@ == decimal_spec(i as nat),
{
    let mut r: Vec<String> = Vec::new();
    let mut d: u64 = 0;
    while d < 7
        invariant
            d <= 7,
            r@.len() == d,
            forall|i: int| 0 <= i < d ==> (#[trigger] r@[i])@ == decimal_spec(i as nat),
        decreases 7 - d,
    {
        let c = decimal_chars(d);
        r.push(string_from_chars(c.as_slice()));
        d += 1;
    }
    r
}

// ---- months --------------------------------------------------------------------------------

/// "2023-04" read as (year, month): the text before the first `-` as an
/// `i32`, the rest as a `u32`.
pub open spec fn parse_month_spec(label: Seq<char>) -> Option<(int, int)> {
    if has_sub(label, seq!['-']) {
        let i = first_occurrence(label, seq!['-']);
        let y = parse_unsigned_spec(label.subrange(0, i), i32::MAX as int);
        let m = parse_unsigned_spec(label.subrange(i + 1, label.len() as int), u32::MAX as int);
        if y is Some && m is Some {
            Some((y->Some_0, m->Some_0))
        } else {
            None
        }
    } else {
        None
    }
}

pub fn parse_month(label: &str) -> (r: Option<(i32, u32)>)
    ensures
        match r {
            Some((y, m)) => y >= 0 && parse_month_spec(label@) == Some((y as int, m as int)),
            None => parse_month_spec(label@) is None,
        },
{
    let c = chars_of(label);
    let mut dash: Vec<char> = Vec::new();
    dash.push('-');
    assert(dash@ =~= seq!['-']);
    match find_sub(&c, &dash) {
        Some(i) => {
            proof {
                lemma_first_occurrence_unique(c@, dash@, i as int);
            }
            let ys = subrange_chars(&c, 0, i);
            let ms = subrange_chars(&c, i + 1, c.len());
            let y = parse_unsigned(&ys, 2147483647);
            let m = parse_unsigned(&ms, 4294967295);
            match (y, m) {
                (Some(y), Some(m)) => Some((y as i32, m as u32)),
                _ => None,
            }
        },
        None => None,
    }
}

pub open spec fn month_le(y: int, m: int, ly: int, lm: int) -> bool {
    y < ly || (y == ly && m <= lm)
}

pub open spec fn month_key(y: int, m: int) -> int {
    y * 13 + if m < 12 {
        m
    } else {
        12
    }
}

/// The month after (y, m): months past 12 roll over into January.
pub open spec fn next_month(y: int, m: int) -> (int, int) {
    if m + 1 > 12 {
        (y + 1, 1)
    } else {
        (y, m + 1)
    }
}

/// Every month from (y, m) up to (ly, lm), both included.
pub open spec fn month_steps(y: int, m: int, ly: int, lm: int) -> Seq<(int, int)>
    decreases ly * 13 + 14 - month_key(y, m),
{
    if month_le(y, m, ly, lm) {
        let n = next_month(y, m);
        seq![(y, m)] + month_steps(n.0, n.1, ly, lm)
    } else {
        Seq::empty()
    }
}

/// "YYYY-MM".
pub open spec fn month_label(y: int, m: int) -> Seq<char> {
    padded(y as nat, 4) + seq!['-'] + padded(m as nat, 2)
}

fn month_label_string(y: i32, m: u32) -> (r: String)
    requires
        y >= 0,
    ensures
        r@ == month_label(y as int, m as int),
{
    let yc = padded_chars(y as u64, 4);
    let mc = padded_chars(m as u64, 2);
    let mut all: Vec<char> = Vec::new();
    let mut k: usize = 0;
    while k < yc.len()
        invariant
            k <= yc@.len(),
            all@ == yc@.subrange(0, k as int),
        decreases yc@.len() - k,
    {
        all.push(yc[k]);
        k += 1;
        assert(all@ =~= yc@.subrange(0, k as int));
    }
    all.push('-');
    let ghost head = all@;
    assert(head =~= yc@ + seq!['-']);
    let mut j: usize = 0;
    while j < mc.len()
        invariant
            j <= mc@.len(),
            all@ == head + mc@.subrange(0, j as int),
        decreases mc@.len() - j,
    {
        all.push(mc[j]);
        j += 1;
        assert(all@ =~= head + mc@.subrange(0, j as int));
    }
    assert(mc@.subrange(0, mc@.len() as int) =~= mc@);
    string_from_chars(all.as_slice())
}

/// Labels of every month from `first` to `last`, both included.
pub fn month_labels(first: (i32, u32), last: (i32, u32)) -> (r: Vec<String>)
    requires
        first.0 >= 0,
        month_le(first.0 as int, first.1 as int, last.0 as int, last.1 as int) ==> first.1 < u32::MAX
            && !(last.0 == i32::MAX && last.1 >= 12),
    ensures
        r@.len() == month_steps(first.0 as int, first.1 as int, last.0 as int, last.1 as int).len(),
        forall|i: int|
            0 <= i < r@.len() ==> (#[trigger] r@[i])@ == ({
                let st = month_steps(first.0 as int, first.1 as int, last.0 as int, last.1 as int)[i];
                month_label(st.0, st.1)
            }),
{
    let ghost all = month_steps(first.0 as int, first.1 as int, last.0 as int, last.1 as int);
    let mut r: Vec<String> = Vec::new();
    let (mut y, mut m) = first;
    let ghost mut done: Seq<(int, int)> = Seq::empty();
    if !(y < last.0 || (y == last.0 && m <= last.1)) {
        return r;
    }
    while y < last.0 || (y == last.0 && m <= last.1)
        invariant
            all == month_steps(first.0 as int, first.1 as int, last.0 as int, last.1 as int),
            done + month_steps(y as int, m as int, last.0 as int, last.1 as int) == all,
            r@.len() == done.len(),
            forall|i: int| 0 <= i < r@.len() ==> (#[trigger] r@[i])@ == month_label(done[i].0, done[i].1),
            y >= 0,
            m < u32::MAX,
            !(last.0 == i32::MAX && last.1 >= 12),
        decreases last.0 * 13 + 14 - month_key(y as int, m as int),
    {
        let ghost rest = month_steps(y as int, m as int, last.0 as int, last.1 as int);
        let ghost nm = next_month(y as int, m as int);
        assert(rest == seq![(y as int, m as int)] + month_steps(nm.0, nm.1, last.0 as int, last.1 as int));
        r.push(month_label_string(y, m));
        proof {
            assert((done + seq![(y as int, m as int)]) + month_steps(nm.0, nm.1, last.0 as int, last.1 as int) =~= done + rest);
            done = done + seq![(y as int, m as int)];
        }
        m = m + 1;
        if m > 12 {
            m = 1;
            y = y + 1;
        }
    }
    assert(done + Seq::<(int, int)>::empty() =~= done);
    r
}

fn copy_buckets(found: &Vec<Bucket>) -> (r: Vec<Bucket>)
    ensures
        r@.len() == found@.len(),
        forall|i: int| 0 <= i < r@.len() ==> bucket_view(#[trigger] r@[i]) == bucket_view(found@[i]),
{
    let mut r: Vec<Bucket> = Vec::new();
    let mut k: usize = 0;
    while k < found.len()
        invariant
            k <= found@.len(),
            r@.len() == k,
            forall|i: int| 0 <= i < k ==> bucket_view(#[trigger] r@[i]) == bucket_view(found@[i]),
        decreases found@.len() - k,
    {
        r.push(Bucket { label: found[k].label.clone(), plays: found[k].plays, ms: found[k].ms });
        k += 1;
    }
    r
}

/// The months a complete chart shows: from the first found month to the last,
/// when both labels read as months.
pub open spec fn chart_months(found: Seq<Bucket>) -> Option<Seq<(int, int)>> {
    if found.len() == 0 {
        None
    } else {
        match (parse_month_spec(found[0].label@), parse_month_spec(found.last().label@)) {
            (Some(f), Some(l)) => Some(month_steps(f.0, f.1, l.0, l.1)),
            _ => None,
        }
    }
}

/// Whether the month walk between the first and last found labels stays
/// within `u32` months and `i32` years.
pub open spec fn months_fit(found: Seq<Bucket>) -> bool {
    found.len() > 0 ==> match (parse_month_spec(found[0].label@), parse_month_spec(found.last().label@)) {
        (Some(f), Some(l)) => month_le(f.0, f.1, l.0, l.1) ==> f.1 < u32::MAX && !(l.0 == i32::MAX
            && l.1 >= 12),
        _ => true,
    }
}

/// One bucket per calendar month between the first and last found month,
/// silent months included; the found buckets as they are when the labels
/// are not months.
pub fn complete_months(found: &Vec<Bucket>) -> (out: Vec<Bucket>)
    requires
        months_fit(found@),
    ensures
        match chart_months(found@) {
            None => out@.len() == found@.len() && forall|i: int|
                0 <= i < out@.len() ==> bucket_view(#[trigger] out@[i]) == bucket_view(found@[i]),
            Some(ms) => out@.len() == ms.len() && forall|i: int|
                0 <= i < out@.len() ==> bucket_view(#[trigger] out@[i]) == filled_bucket(
                    found@,
                    month_label(ms[i].0, ms[i].1),
                ),
        },
{
    if found.len() == 0 {
        return copy_buckets(found);
    }
    let first = parse_month(found[0].label.as_str());
    let last = parse_month(found[found.len() - 1].label.as_str());
    match (first, last) {
        (Some(f), Some(l)) => {
            let labels = month_labels(f, l);
            fill(&labels, found)
        },
        _ => copy_buckets(found),
    }
}

// ---- the summary's window ------------------------------------------------------------------

/// The range and play threshold a summary uses: open ends fall back to the
/// first and last play (or 0), the end is never before the start, and the
/// threshold is clamped to an hour.
pub open spec fn summary_window_spec(
    from: Option<i64>,
    to: Option<i64>,
    first_ts: Option<i64>,
    last_ts: Option<i64>,
    threshold_secs: i64,
) -> (int, int, int) {
    let f: int = match from {
        Some(v) => v as int,
        None => match first_ts {
            Some(v) => v as int,
            None => 0,
        },
    };
    let t0: int = match to {
        Some(v) => v as int,
        None => match last_ts {
            Some(v) => v as int,
            None => 0,
        },
    };
    let secs: int = if threshold_secs < 0 {
        0
    } else if threshold_secs > 3600 {
        3600
    } else {
        threshold_secs as int
    };
    (f, if t0 < f {
        f
    } else {
        t0
    }, secs * 1000)
}

pub fn summary_window(
    from: Option<i64>,
    to: Option<i64>,
    first_ts: Option<i64>,
    last_ts: Option<i64>,
    threshold_secs: i64,
) -> (r: (i64, i64, i64))
    ensures
        (r.0 as int, r.1 as int, r.2 as int) == summary_window_spec(from, to, first_ts, last_ts, threshold_secs),
{
    let secs = if threshold_secs < 0 {
        0
    } else if threshold_secs > 3600 {
        3600
    } else {
        threshold_secs
    };
    let f = match from {
        Some(v) => v,
        None => match first_ts {
            Some(v) => v,
            None => 0,
        },
    };
    let t0 = match to {
        Some(v) => v,
        None => match last_ts {
            Some(v) => v,
            None => 0,
        },
    };
    let t = if t0 < f {
        f
    } else {
        t0
    };
    (f, t, secs * 1000)
}

// ---- the end of an import ------------------------------------------------------------------

/// Nothing in the selection looked like streaming history.
pub fn no_history_selected() -> (e: AppError)
    ensures
        e matches AppError::Other(m) && m@
            == "No streaming history in that file. Pick the zip Spotify emailed you (it holds Streaming_History_Audio_*.json), or those JSON files directly."@,
{
    AppError::Other(
        String::from_str(
            "No streaming history in that file. Pick the zip Spotify emailed you (it holds Streaming_History_Audio_*.json), or those JSON files directly.",
        ),
    )
}

/// Why an import read nothing: the short "account data" export was picked,
/// or nothing usable at all.
pub open spec fn nothing_read_message(basic_files: usize) -> Seq<char> {
    if basic_files > 0 {
        "Those files are the short \"account data\" history, which has no track IDs, skips or shuffle flags. Request \"Extended streaming history\" on Spotify's privacy page and import that zip instead."@
    } else {
        "No streaming history could be read from the selected files."@
    }
}

/// After every file was read: an error when none held extended history,
/// explaining the short "account data" export when that is what was picked.
pub fn check_import_read(files_used: usize, basic_files: usize) -> (r: Result<(), AppError>)
    ensures
        files_used > 0 <==> r is Ok,
        files_used == 0 && basic_files > 0 ==> (r matches Err(AppError::Other(m)) && m@
            == "Those files are the short \"account data\" history, which has no track IDs, skips or shuffle flags. Request \"Extended streaming history\" on Spotify's privacy page and import that zip instead."@),
        files_used == 0 && basic_files == 0 ==> (r matches Err(AppError::Other(m)) && m@
            == "No streaming history could be read from the selected files."@),
{
    if files_used == 0 {
        if basic_files > 0 {
            return Err(
                AppError::Other(
                    String::from_str(
                        "Those files are the short \"account data\" history, which has no track IDs, skips or shuffle flags. Request \"Extended streaming history\" on Spotify's privacy page and import that zip instead.",
                    ),
                ),
            );
        }
        return Err(
            AppError::Other(
                String::from_str("No streaming history could be read from the selected files."),
            ),
        );
    }
    Ok(())
}

/// What an import is recorded as: the one file's name, or "N files".
pub open spec fn import_source_spec(names: Seq<Seq<char>>) -> Seq<char> {
    if names.len() == 1 {
        names[0]
    } else {
        decimal_spec(names.len()) + " files"@
    }
}

pub fn import_source(names: &Vec<String>) -> (r: String)
    ensures
        r@ == import_source_spec(names@.map_values(|s: String| s@)),
{
    if names.len() == 1 {
        return names[0].clone();
    }
    let mut c = decimal_chars(names.len() as u64);
    let suffix = chars_of(" files");
    let mut k: usize = 0;
    let ghost head = c@;
    while k < suffix.len()
        invariant
            k <= suffix@.len(),
            c@ == head + suffix@.subrange(0, k as int),
        decreases suffix@.len() - k,
    {
        c.push(suffix[k]);
        k += 1;
        assert(c@ =~= head + suffix@.subrange(0, k as int));
    }
    assert(suffix@.subrange(0, suffix@.len() as int) =~= suffix@);
    string_from_chars(c.as_slice())
}

} // verus!
