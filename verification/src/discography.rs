//! Artist Discography: which releases to list, and which tracks of the chosen
//! releases reach the playlist (with every dropped track recorded).
use vstd::prelude::*;
use vstd::string::StringExecFns;

use crate::error::AppError;
use crate::matching::{name_key, name_key_spec};
use crate::generated::GeneratedPlaylist;
use crate::models::{
    artist_name_views, artist_names_spec, is_first_smallest, is_playable_catalog_track_spec, join_spec, join_strings,
    smallest_image_url, str_eq, ArtistObject, SimplifiedAlbum, Track,
};
use crate::order::text_lt;
use crate::sorting::{date_lt, stable_order, OldestFirst};
use crate::text::{chars_of, concat_chars, starts_with, string_from_chars, trim, trim_chars};

verus! {

#[derive(Debug, Clone)]
pub struct ArtistHit {
    pub id: String,
    pub name: String,
    pub image_url: Option<String>,
    pub genres: Vec<String>,
    pub followers: Option<u64>,
}

#[derive(Debug, Clone)]
pub struct AlbumInfo {
    pub id: String,
    pub name: String,
    /// `album`, `single`, `compilation`, or `appears_on`.
    pub group: String,
    pub release_date: Option<String>,
    pub total_tracks: u32,
    pub image_url: Option<String>,
    pub artists: String,
}

/// A release the user ticked; the name travels with the id.
#[derive(Debug, Clone)]
pub struct AlbumRef {
    pub id: String,
    pub name: String,
}

#[derive(Debug, Clone)]
pub struct SkippedTrack {
    pub name: String,
    pub artists: String,
    /// Release this copy came from.
    pub release: String,
    /// `same-title`, `same-recording`, `other-artist` or `unplayable`.
    pub reason: String,
    /// Release whose copy was kept instead, for the two duplicate reasons.
    pub kept_from: Option<String>,
}

pub struct BuildRequest<'a> {
    pub artist_id: &'a str,
    pub artist_name: &'a str,
    pub albums: &'a [AlbumRef],
    pub name: &'a str,
    pub only_this_artist: bool,
    pub dedupe_by_name: bool,
    pub randomize: bool,
}

/// Ceiling on the reported list so a huge catalogue cannot bloat the payload.
pub const MAX_SKIPPED_REPORTED: usize = 500;

// ---- release groups --------------------------------------------------------------

pub open spec fn allowed_groups() -> Seq<Seq<char>> {
    seq!["album"@, "appears_on"@, "compilation"@, "single"@]
}

pub open spec fn requested(groups: Seq<String>, g: Seq<char>) -> bool {
    exists|k: int| 0 <= k < groups.len() && groups[k]@ == g
}

/// The allowed groups that were asked for, each once, in sorted order.
pub open spec fn selected_groups(groups: Seq<String>) -> Seq<Seq<char>> {
    allowed_groups().filter(|g: Seq<char>| requested(groups, g))
}

fn is_requested(groups: &[String], g: &str) -> (r: bool)
    ensures
        r == requested(groups@, g@),
{
    let mut k: usize = 0;
    while k < groups.len()
        invariant
            k <= groups.len(),
            forall|t: int| 0 <= t < k ==> groups@[t]@ != g@,
        decreases groups.len() - k,
    {
        if str_eq(groups[k].as_str(), g) {
            return true;
        }
        k += 1;
    }
    false
}

/// The release types to fetch: unknown ones dropped, duplicates removed,
/// sorted; an error when nothing usable is left.
pub fn select_groups(groups: &[String]) -> (r: Result<Vec<&'static str>, AppError>)
    ensures
        r matches Ok(v) ==> v@.map_values(|s: &'static str| s@) == selected_groups(groups@)
            && v@.len() > 0,
        r is Err <==> selected_groups(groups@).len() == 0,
        r matches Err(e) ==> e matches AppError::Other(m) && m@ == "Pick at least one release type."@,
{
    let all: [&'static str; 4] = ["album", "appears_on", "compilation", "single"];
    let mut out: Vec<&'static str> = Vec::new();
    let ghost allowed = allowed_groups();
    proof {
        reveal_strlit("album");
        reveal_strlit("appears_on");
        reveal_strlit("compilation");
        reveal_strlit("single");
    }
    assert(all@.map_values(|s: &'static str| s@) =~= allowed);
    let mut k: usize = 0;
    while k < 4
        invariant
            k <= 4,
            allowed == allowed_groups(),
            all@.map_values(|s: &'static str| s@) == allowed,
            out@.map_values(|s: &'static str| s@) == allowed.subrange(0, k as int).filter(
                |g: Seq<char>| requested(groups@, g),
            ),
        decreases 4 - k,
    {
        let g = all[k];
        assert(g@ == allowed[k as int]);
        let ghost before = out@;
        assert(allowed.subrange(0, k + 1).drop_last() =~= allowed.subrange(0, k as int));
        if is_requested(groups, g) {
            out.push(g);
            assert(out@.map_values(|s: &'static str| s@) =~= before.map_values(
                |s: &'static str| s@,
            ).push(g@));
        }
        proof {
            reveal_with_fuel(Seq::filter, 1);
        }
        k += 1;
    }
    assert(allowed.subrange(0, 4) =~= allowed);
    if out.len() == 0 {
        return Err(AppError::Other(String::from_str("Pick at least one release type.")));
    }
    Ok(out)
}

// ---- playlist description ----------------------------------------------------------

/// The playlist's description: the given name, trimmed, or "<artist> discography".
pub open spec fn build_description_spec(artist_name: Seq<char>, name: Seq<char>) -> Seq<char> {
    if trim(name).len() == 0 {
        artist_name + " discography"@
    } else {
        trim(name)
    }
}

pub fn build_description(artist_name: &str, name: &str) -> (r: String)
    ensures
        r@ == build_description_spec(artist_name@, name@),
{
    let t = trim_chars(&chars_of(name));
    if t.len() == 0 {
        let all = concat_chars(&chars_of(artist_name), &chars_of(" discography"));
        string_from_chars(all.as_slice())
    } else {
        string_from_chars(t.as_slice())
    }
}

// ---- selection -------------------------------------------------------------------

/// The value recorded for the first entry with `key`, if any.
pub open spec fn lookup(seen: Seq<(String, String)>, key: Seq<char>) -> Option<Seq<char>>
    decreases seen.len(),
{
    if seen.len() == 0 {
        None
    } else if seen[0].0@ == key {
        Some(seen[0].1@)
    } else {
        lookup(seen.drop_first(), key)
    }
}

fn find_seen(seen: &Vec<(String, String)>, key: &String) -> (r: Option<String>)
    ensures
        r is Some <==> lookup(seen@, key@) is Some,
        r matches Some(v) ==> lookup(seen@, key@) == Some(v@),
{
    let mut k: usize = 0;
    assert(seen@.subrange(0, seen@.len() as int) =~= seen@);
    while k < seen.len()
        invariant
            k <= seen.len(),
            lookup(seen@, key@) == lookup(seen@.subrange(k as int, seen.len() as int), key@),
        decreases seen.len() - k,
    {
        let ghost rest = seen@.subrange(k as int, seen.len() as int);
        assert(rest.drop_first() =~= seen@.subrange(k + 1, seen.len() as int));
        if seen[k].0 == *key {
            return Some(seen[k].1.clone());
        }
        k += 1;
    }
    None
}

/// What happens to a track, given what was already kept.
pub enum Verdict {
    Unplayable,
    OtherArtist,
    SameRecording(Seq<char>),
    SameTitle(Seq<char>),
    Keep,
}

pub open spec fn credits_artist(t: Track, artist_id: Seq<char>) -> bool {
    exists|k: int|
        0 <= k < t.artists@.len() && t.artists@[k].id is Some && t.artists@[k].id->Some_0@
            == artist_id
}

/// The selection rules, in order: catalogue tracks only; optionally only
/// tracks crediting the artist; the same URI once; with title dedupe, the
/// same normalized title + primary artist once. The first copy wins.
pub open spec fn verdict(
    seen_uri: Seq<(String, String)>,
    seen_name: Seq<(String, String)>,
    t: Track,
    artist_id: Seq<char>,
    only_this_artist: bool,
    dedupe_by_name: bool,
) -> Verdict {
    if !is_playable_catalog_track_spec(t) {
        Verdict::Unplayable
    } else if only_this_artist && !credits_artist(t, artist_id) {
        Verdict::OtherArtist
    } else if lookup(seen_uri, t.uri->Some_0@) is Some {
        Verdict::SameRecording(lookup(seen_uri, t.uri->Some_0@)->Some_0)
    } else if dedupe_by_name && lookup(
        seen_name,
        name_key_spec(t.name@, artist_names_spec(t)),
    ) is Some {
        Verdict::SameTitle(lookup(seen_name, name_key_spec(t.name@, artist_names_spec(t)))->Some_0)
    } else {
        Verdict::Keep
    }
}

pub open spec fn skipped_view(s: SkippedTrack) -> (Seq<char>, Seq<char>, Seq<char>, Seq<char>, Option<Seq<char>>) {
    (s.name@, s.artists@, s.release@, s.reason@, match s.kept_from {
        Some(k) => Some(k@),
        None => None,
    })
}

pub open spec fn skipped_views(s: Seq<SkippedTrack>) -> Seq<(Seq<char>, Seq<char>, Seq<char>, Seq<char>, Option<Seq<char>>)> {
    s.map_values(|x: SkippedTrack| skipped_view(x))
}

/// The report after noting one more dropped track: appended while under the cap.
pub open spec fn noted(
    before: Seq<(Seq<char>, Seq<char>, Seq<char>, Seq<char>, Option<Seq<char>>)>,
    entry: (Seq<char>, Seq<char>, Seq<char>, Seq<char>, Option<Seq<char>>),
) -> Seq<(Seq<char>, Seq<char>, Seq<char>, Seq<char>, Option<Seq<char>>)> {
    if before.len() >= MAX_SKIPPED_REPORTED {
        before
    } else {
        before.push(entry)
    }
}

/// How many dropped tracks the report lists: all of them, up to the cap.
pub open spec fn dropped_reported(dropped: int) -> int {
    if dropped < MAX_SKIPPED_REPORTED {
        dropped
    } else {
        MAX_SKIPPED_REPORTED as int
    }
}

/// Decides which tracks reach the playlist and records every one it drops.
pub struct Selection {
    pub seen_uri: Vec<(String, String)>,
    pub seen_name: Vec<(String, String)>,
    pub uris: Vec<String>,
    pub skipped: Vec<SkippedTrack>,
    pub tracks_seen: usize,
    pub duplicates: usize,
    pub other_artist: usize,
    pub unplayable: usize,
}

impl Selection {
    /// Every track read is counted in exactly one place, the report holds
    /// one entry per dropped track up to its cap, each kept URI is recorded
    /// once, every kept URI is a catalogue track's, and no recording is kept
    /// twice.
    pub open spec fn well_formed(&self) -> bool {
        &&& self.unplayable + self.other_artist + self.duplicates + self.uris@.len()
            == self.tracks_seen
        &&& self.skipped@.len() <= MAX_SKIPPED_REPORTED
        &&& self.skipped@.len() == dropped_reported(self.unplayable + self.other_artist + self.duplicates)
        &&& forall|k: int| 0 <= k < self.uris@.len() ==> starts_with(#[trigger] self.uris@[k]@, "spotify:track:"@)
        &&& self.seen_uri@.len() == self.uris@.len()
        &&& forall|k: int|
            0 <= k < self.uris@.len() ==> #[trigger] self.seen_uri@[k].0@ == self.uris@[k]@
        &&& forall|i: int, j: int|
            0 <= i < j < self.uris@.len() ==> #[trigger] self.uris@[i]@ != #[trigger] self.uris@[j]@
    }

    pub fn new() -> (s: Selection)
        ensures
            s.well_formed(),
            s.seen_uri@.len() == 0,
            s.seen_name@.len() == 0,
            s.uris@.len() == 0,
            s.skipped@.len() == 0,
            s.tracks_seen == 0,
            s.duplicates == 0,
            s.other_artist == 0,
            s.unplayable == 0,
    {
        Selection {
            seen_uri: Vec::new(),
            seen_name: Vec::new(),
            uris: Vec::new(),
            skipped: Vec::new(),
            tracks_seen: 0,
            duplicates: 0,
            other_artist: 0,
            unplayable: 0,
        }
    }

    pub fn note(&mut self, t: &Track, release: &str, reason: &str, kept_from: Option<String>)
        ensures
            skipped_views(final(self).skipped@) == noted(
                skipped_views(old(self).skipped@),
                (t.name@, artist_names_spec(*t), release@, reason@, match kept_from {
                    Some(k) => Some(k@),
                    None => None,
                }),
            ),
            old(self).skipped@.len() <= MAX_SKIPPED_REPORTED ==> final(self).skipped@.len()
                <= MAX_SKIPPED_REPORTED,
            final(self).skipped@.len() == if old(self).skipped@.len() >= MAX_SKIPPED_REPORTED {
                old(self).skipped@.len()
            } else {
                old(self).skipped@.len() + 1
            },
            final(self).seen_uri == old(self).seen_uri,
            final(self).seen_name == old(self).seen_name,
            final(self).uris == old(self).uris,
            final(self).tracks_seen == old(self).tracks_seen,
            final(self).duplicates == old(self).duplicates,
            final(self).other_artist == old(self).other_artist,
            final(self).unplayable == old(self).unplayable,
    {
        if self.skipped.len() >= MAX_SKIPPED_REPORTED {
            return;
        }
        let entry = SkippedTrack {
            name: self.clone_name(t),
            artists: t.artist_names(),
            release: String::from_str(release),
            reason: String::from_str(reason),
            kept_from,
        };
        let ghost before = self.skipped@;
        self.skipped.push(entry);
        assert(skipped_views(self.skipped@) =~= skipped_views(before).push(skipped_view(entry)));
    }

    fn clone_name(&self, t: &Track) -> (r: String)
        ensures
            r@ == t.name@,
    {
        t.name.clone()
    }

    pub fn consider(
        &mut self,
        t: &Track,
        release: &str,
        artist_id: &str,
        only_this_artist: bool,
        dedupe_by_name: bool,
    )
        requires
            old(self).well_formed(),
            old(self).tracks_seen < usize::MAX,
        ensures
            final(self).well_formed(),
            final(self).tracks_seen == old(self).tracks_seen + 1,
            ({
                let entry = |reason: Seq<char>, kept: Option<Seq<char>>|
                    (t.name@, artist_names_spec(*t), release@, reason, kept);
                match verdict(
                    old(self).seen_uri@,
                    old(self).seen_name@,
                    *t,
                    artist_id@,
                    only_this_artist,
                    dedupe_by_name,
                ) {
                    Verdict::Unplayable => {
                        &&& final(self).unplayable == old(self).unplayable + 1
                        &&& final(self).other_artist == old(self).other_artist
                        &&& final(self).duplicates == old(self).duplicates
                        &&& final(self).uris == old(self).uris
                        &&& final(self).seen_uri == old(self).seen_uri
                        &&& final(self).seen_name == old(self).seen_name
                        &&& skipped_views(final(self).skipped@) == noted(
                            skipped_views(old(self).skipped@),
                            entry("unplayable"@, None),
                        )
                    },
                    Verdict::OtherArtist => {
                        &&& final(self).unplayable == old(self).unplayable
                        &&& final(self).other_artist == old(self).other_artist + 1
                        &&& final(self).duplicates == old(self).duplicates
                        &&& final(self).uris == old(self).uris
                        &&& final(self).seen_uri == old(self).seen_uri
                        &&& final(self).seen_name == old(self).seen_name
                        &&& skipped_views(final(self).skipped@) == noted(
                            skipped_views(old(self).skipped@),
                            entry("other-artist"@, None),
                        )
                    },
                    Verdict::SameRecording(kept) => {
                        &&& final(self).unplayable == old(self).unplayable
                        &&& final(self).other_artist == old(self).other_artist
                        &&& final(self).duplicates == old(self).duplicates + 1
                        &&& final(self).uris == old(self).uris
                        &&& final(self).seen_uri == old(self).seen_uri
                        &&& final(self).seen_name == old(self).seen_name
                        &&& skipped_views(final(self).skipped@) == noted(
                            skipped_views(old(self).skipped@),
                            entry("same-recording"@, Some(kept)),
                        )
                    },
                    Verdict::SameTitle(kept) => {
                        &&& final(self).unplayable == old(self).unplayable
                        &&& final(self).other_artist == old(self).other_artist
                        &&& final(self).duplicates == old(self).duplicates + 1
                        &&& final(self).uris == old(self).uris
                        &&& final(self).seen_uri == old(self).seen_uri
                        &&& final(self).seen_name == old(self).seen_name
                        &&& skipped_views(final(self).skipped@) == noted(
                            skipped_views(old(self).skipped@),
                            entry("same-title"@, Some(kept)),
                        )
                    },
                    Verdict::Keep => {
                        &&& final(self).unplayable == old(self).unplayable
                        &&& final(self).other_artist == old(self).other_artist
                        &&& final(self).duplicates == old(self).duplicates
                        &&& final(self).uris@.len() == old(self).uris@.len() + 1
                        &&& final(self).uris@.drop_last() == old(self).uris@
                        &&& final(self).uris@.last()@ == t.uri->Some_0@
                        &&& final(self).seen_uri@.drop_last() == old(self).seen_uri@
                        &&& final(self).seen_uri@.last().0@ == t.uri->Some_0@
                        &&& final(self).seen_uri@.last().1@ == release@
                        &&& (if dedupe_by_name {
                            &&& final(self).seen_name@.len() == old(self).seen_name@.len() + 1
                            &&& final(self).seen_name@.drop_last() == old(self).seen_name@
                            &&& final(self).seen_name@.last().0@ == name_key_spec(
                                t.name@,
                                artist_names_spec(*t),
                            )
                            &&& final(self).seen_name@.last().1@ == release@
                        } else {
                            final(self).seen_name == old(self).seen_name
                        })
                        &&& final(self).skipped == old(self).skipped
                    },
                }
            }),
    {
        self.tracks_seen += 1;

        if !t.is_playable_catalog_track() {
            self.unplayable += 1;
            self.note(t, release, "unplayable", None);
            return;
        }
        if only_this_artist {
            let mut credited = false;
            let mut k: usize = 0;
            while k < t.artists.len()
                invariant
                    k <= t.artists@.len(),
                    credited == exists|q: int|
                        0 <= q < k && t.artists@[q].id is Some && t.artists@[q].id->Some_0@
                            == artist_id@,
                decreases t.artists.len() - k,
            {
                let hit = match &t.artists[k].id {
                    Some(id) => str_eq(id.as_str(), artist_id),
                    None => false,
                };
                credited = credited || hit;
                k += 1;
            }
            if !credited {
                self.other_artist += 1;
                self.note(t, release, "other-artist", None);
                return;
            }
        }
        let uri = match &t.uri {
            Some(u) => u.clone(),
            None => {
                self.unplayable += 1;
                self.note(t, release, "unplayable", None);
                return;
            },
        };
        match find_seen(&self.seen_uri, &uri) {
            Some(kept) => {
                self.duplicates += 1;
                self.note(t, release, "same-recording", Some(kept));
                return;
            },
            None => {},
        }
        if dedupe_by_name {
            let key = name_key(t.name.as_str(), t.artist_names().as_str());
            match find_seen(&self.seen_name, &key) {
                Some(kept) => {
                    self.duplicates += 1;
                    self.note(t, release, "same-title", Some(kept));
                    return;
                },
                None => {},
            }
            self.seen_name.push((key, String::from_str(release)));
        }
        let ghost old_seen = self.seen_uri@;
        let ghost old_uris = self.uris@;
        proof {
            assert forall|k: int| 0 <= k < old_uris.len() implies old_uris[k]@ != uri@ by {
                if old_uris[k]@ == uri@ {
                    assert(old_seen[k].0@ == uri@);
                    lemma_lookup_found(old_seen, uri@);
                }
            }
        }
        self.seen_uri.push((uri.clone(), String::from_str(release)));
        self.uris.push(uri);
        proof {
            assert forall|i: int, j: int| 0 <= i < j < self.uris@.len() implies #[trigger] self.uris@[i]@
                != #[trigger] self.uris@[j]@ by {
                assert(self.uris@[i] == old_uris[i]);
                if j < old_uris.len() {
                    assert(self.uris@[j] == old_uris[j]);
                }
            }
            assert forall|k: int| 0 <= k < self.uris@.len() implies #[trigger] self.seen_uri@[k].0@
                == self.uris@[k]@ by {
                if k < old_uris.len() {
                    assert(self.seen_uri@[k] == old_seen[k]);
                    assert(self.uris@[k] == old_uris[k]);
                }
            }
        }
    }
}

impl Default for Selection {
    fn default() -> (s: Selection)
        ensures
            s.well_formed(),
            s.uris@.len() == 0,
            s.skipped@.len() == 0,
            s.seen_uri@.len() == 0,
            s.seen_name@.len() == 0,
            s.tracks_seen == 0,
    {
        Selection::new()
    }
}

/// Law: a kept URI is never kept twice — after any track is considered,
/// a URI already kept is reported as the same recording.
pub proof fn kept_uri_is_never_kept_again(
    seen_uri: Seq<(String, String)>,
    seen_name: Seq<(String, String)>,
    t: Track,
    artist_id: Seq<char>,
    only_this_artist: bool,
    dedupe_by_name: bool,
)
    requires
        is_playable_catalog_track_spec(t),
        !only_this_artist || credits_artist(t, artist_id),
        exists|k: int| 0 <= k < seen_uri.len() && seen_uri[k].0@ == t.uri->Some_0@,
    ensures
        verdict(seen_uri, seen_name, t, artist_id, only_this_artist, dedupe_by_name) is SameRecording,
{
    lemma_lookup_found(seen_uri, t.uri->Some_0@);
}

proof fn lemma_lookup_found(seen: Seq<(String, String)>, key: Seq<char>)
    requires
        exists|k: int| 0 <= k < seen.len() && seen[k].0@ == key,
    ensures
        lookup(seen, key) is Some,
    decreases seen.len(),
{
    if seen[0].0@ != key {
        let k = choose|k: int| 0 <= k < seen.len() && seen[k].0@ == key;
        assert(seen.drop_first()[k - 1] == seen[k]);
        lemma_lookup_found(seen.drop_first(), key);
    }
}

#[derive(Debug, Clone)]
pub struct DiscographyResult {
    pub playlist: GeneratedPlaylist,
    pub albums: usize,
    pub tracks_seen: usize,
    pub duplicates_skipped: usize,
    pub other_artist_skipped: usize,
    pub unplayable_skipped: usize,
    /// What was read but left out. Capped; the counts above stay exact.
    pub skipped: Vec<SkippedTrack>,
}

// ---- cached listings -----------------------------------------------------------------

/// Listings stay fresh for 15 minutes.
pub const CACHE_TTL_MS: u64 = 900000;

/// Time since `at`, zero when the clock reads earlier.
pub open spec fn elapsed(at: u64, now: u64) -> int {
    if now >= at {
        now - at
    } else {
        0
    }
}

pub open spec fn fresh(at: u64, now: u64) -> bool {
    elapsed(at, now) < CACHE_TTL_MS
}

/// Listings by key, each with the time it was stored (milliseconds).
pub struct ListingCache<T> {
    pub entries: Vec<(String, u64, Vec<T>)>,
}

pub type EntryView<T> = (Seq<char>, u64, Seq<T>);

pub open spec fn entry_views<T>(entries: Seq<(String, u64, Vec<T>)>) -> Seq<EntryView<T>> {
    entries.map_values(|e: (String, u64, Vec<T>)| (e.0@, e.1, e.2@))
}

/// The entry stored under `key`, if any (the last one for it).
pub open spec fn entry_for<T>(v: Seq<EntryView<T>>, key: Seq<char>) -> Option<(u64, Seq<T>)>
    decreases v.len(),
{
    if v.len() == 0 {
        None
    } else if v.last().0 == key {
        Some((v.last().1, v.last().2))
    } else {
        entry_for(v.drop_last(), key)
    }
}

/// An entry that survives storing `key` at `now`: still fresh, other key.
pub open spec fn survives<T>(key: Seq<char>, now: u64) -> spec_fn(EntryView<T>) -> bool {
    |e: EntryView<T>| fresh(e.1, now) && e.0 != key
}

/// The entries after storing `value` under `key` at `now`.
pub open spec fn put_spec<T>(v: Seq<EntryView<T>>, key: Seq<char>, value: Seq<T>, now: u64) -> Seq<EntryView<T>> {
    v.filter(survives(key, now)).push((key, now, value))
}

pub open spec fn distinct_entries<T>(v: Seq<EntryView<T>>) -> bool {
    forall|i: int, j: int| 0 <= i < j < v.len() ==> v[i].0 != v[j].0
}

proof fn lemma_entry_absent<T>(v: Seq<EntryView<T>>, key: Seq<char>)
    requires
        forall|i: int| 0 <= i < v.len() ==> v[i].0 != key,
    ensures
        entry_for(v, key) is None,
    decreases v.len(),
{
    if v.len() > 0 {
        assert(v.last() == v[v.len() - 1]);
        lemma_entry_absent(v.drop_last(), key);
    }
}

proof fn lemma_entry_survives<T>(v: Seq<EntryView<T>>, key: Seq<char>, now: u64, other: Seq<char>)
    requires
        distinct_entries(v),
        other != key,
    ensures
        entry_for(v.filter(survives(key, now)), other) == match entry_for(v, other) {
            Some((at, x)) => if fresh(at, now) {
                Some((at, x))
            } else {
                None::<(u64, Seq<T>)>
            },
            None => None::<(u64, Seq<T>)>,
        },
        distinct_entries(v.filter(survives(key, now))),
        forall|i: int| 0 <= i < v.filter(survives(key, now)).len() ==> (#[trigger] v.filter(survives(key, now))[i]).0 != key,
    decreases v.len(),
{
    reveal_with_fuel(Seq::filter, 1);
    let f = survives::<T>(key, now);
    if v.len() > 0 {
        let d = v.drop_last();
        let x = v.last();
        assert(distinct_entries(d));
        lemma_entry_survives(d, key, now, other);
        let fd = d.filter(f);
        assert forall|i: int| 0 <= i < fd.len() implies d.contains(#[trigger] fd[i]) by {
            assert(fd.contains(fd[i]));
            d.lemma_filter_contains_rev(f, fd[i]);
        }
        if f(x) {
            assert(fd.push(x).drop_last() =~= fd);
            assert forall|i: int, j: int| 0 <= i < j < fd.push(x).len() implies fd.push(x)[i].0 != fd.push(x)[j].0 by {
                if j == fd.len() {
                    assert(d.contains(fd[i]));
                    let w = choose|w: int| 0 <= w < d.len() && d[w] == fd[i];
                    assert(v[w].0 != v[v.len() - 1].0);
                } else {
                    assert(fd.push(x)[i] == fd[i] && fd.push(x)[j] == fd[j]);
                }
            }
        }
        if x.0 == other {
            assert forall|i: int| 0 <= i < d.len() implies d[i].0 != other by {
                assert(v[i].0 != v[v.len() - 1].0);
            }
            lemma_entry_absent(d, other);
            assert forall|i: int| 0 <= i < fd.len() implies fd[i].0 != other by {
                let w = choose|w: int| 0 <= w < d.len() && d[w] == fd[i];
            }
            lemma_entry_absent(fd, other);
        }
    }
}

/// A listing just stored is what the cache gives back under its key; every
/// other listing stays while fresh and is gone once stale, and the cache
/// still holds each key once.
pub proof fn stored_listing_is_returned<T>(v: Seq<EntryView<T>>, key: Seq<char>, value: Seq<T>, now: u64, other: Seq<char>)
    requires
        distinct_entries(v),
    ensures
        entry_for(put_spec(v, key, value, now), key) == Some((now, value)),
        other != key ==> entry_for(put_spec(v, key, value, now), other) == match entry_for(v, other) {
            Some((at, x)) => if fresh(at, now) {
                Some((at, x))
            } else {
                None::<(u64, Seq<T>)>
            },
            None => None::<(u64, Seq<T>)>,
        },
        distinct_entries(put_spec(v, key, value, now)),
{
    let fv = v.filter(survives(key, now));
    let p = put_spec(v, key, value, now);
    assert(p.drop_last() =~= fv);
    let witness = if other != key {
        other
    } else {
        key + seq!['x']
    };
    assert(witness != key) by {
        if other == key {
            assert((key + seq!['x']).len() != key.len());
        }
    }
    lemma_entry_survives(v, key, now, witness);
    assert forall|i: int, j: int| 0 <= i < j < p.len() implies p[i].0 != p[j].0 by {
        if j == p.len() - 1 {
            assert(p[i] == fv[i]);
        } else {
            assert(p[i] == fv[i] && p[j] == fv[j]);
        }
    }
}

impl<T> ListingCache<T> {
    pub fn new() -> (c: Self)
        ensures
            c.entries@.len() == 0,
    {
        ListingCache { entries: Vec::new() }
    }

    /// The listing stored under `key` while it is fresh.
    pub fn cache_get(&self, key: &str, now: u64) -> (r: Option<&Vec<T>>)
        ensures
            match entry_for(entry_views(self.entries@), key@) {
                Some((at, v)) => if fresh(at, now) {
                    r matches Some(x) && x@ == v
                } else {
                    r is None
                },
                None => r is None,
            },
    {
        let ghost ev = entry_views(self.entries@);
        let mut k: usize = self.entries.len();
        assert(ev.subrange(0, k as int) =~= ev);
        while k > 0
            invariant
                k <= self.entries@.len(),
                ev == entry_views(self.entries@),
                entry_for(ev, key@) == entry_for(ev.subrange(0, k as int), key@),
            decreases k,
        {
            let ghost s = ev.subrange(0, k as int);
            assert(s.drop_last() =~= ev.subrange(0, k - 1));
            assert(s.last() == ev[k - 1]);
            let e = &self.entries[k - 1];
            if str_eq(e.0.as_str(), key) {
                let age = if now >= e.1 {
                    now - e.1
                } else {
                    0
                };
                if age < CACHE_TTL_MS {
                    return Some(&e.2);
                }
                return None;
            }
            k -= 1;
        }
        None
    }

    /// Store a listing under `key` at `now`, dropping stale listings and the
    /// older one under the same key.
    pub fn cache_put(&mut self, key: String, value: Vec<T>, now: u64)
        ensures
            entry_views(final(self).entries@) == put_spec(entry_views(old(self).entries@), key@, value@, now),
    {
        let ghost ov = entry_views(self.entries@);
        let mut old_entries: Vec<(String, u64, Vec<T>)> = Vec::new();
        std::mem::swap(&mut old_entries, &mut self.entries);
        assert(entry_views(old_entries@) == ov);
        let mut kept: Vec<(String, u64, Vec<T>)> = Vec::new();
        let ghost all = old_entries@;
        for e in it: old_entries.into_iter()
            invariant
                it.seq() == all,
                ov == entry_views(all),
                entry_views(kept@) == ov.subrange(0, it.index() as int).filter(survives(key@, now)),
        {
            let ghost k = it.index();
            let ghost pre = ov.subrange(0, k as int);
            let ghost before = kept@;
            assert(ov.subrange(0, k + 1).drop_last() =~= pre);
            assert(ov.subrange(0, k + 1).last() == (e.0@, e.1, e.2@));
            proof {
                reveal_with_fuel(Seq::filter, 1);
            }
            let age = if now >= e.1 {
                now - e.1
            } else {
                0
            };
            if age < CACHE_TTL_MS && !str_eq(e.0.as_str(), key.as_str()) {
                let ghost ee = (e.0@, e.1, e.2@);
                kept.push(e);
                assert(entry_views(kept@) =~= entry_views(before).push(ee));
            }
        }
        assert(ov.subrange(0, ov.len() as int) =~= ov);
        let ghost before = kept@;
        let ghost kv = (key@, now, value@);
        kept.push((key, now, value));
        assert(entry_views(kept@) =~= entry_views(before).push(kv));
        self.entries = kept;
    }
}

/// The key a release listing is cached under: the artist and the groups.
pub open spec fn album_cache_key_spec(artist_id: Seq<char>, groups: Seq<Seq<char>>) -> Seq<char> {
    artist_id + "|"@ + join_spec(groups, ","@)
}

pub fn album_cache_key(artist_id: &str, groups: &Vec<String>) -> (r: String)
    ensures
        r@ == album_cache_key_spec(artist_id@, groups@.map_values(|g: String| g@)),
{
    let head = concat_chars(&chars_of(artist_id), &chars_of("|"));
    let joined = join_strings(groups, ",");
    let all = concat_chars(&head, &chars_of(joined.as_str()));
    string_from_chars(all.as_slice())
}

// ---- listings as shown ----------------------------------------------------------------

fn clone_opt(o: &Option<String>) -> (r: Option<String>)
    ensures
        r == *o,
{
    match o {
        Some(s) => Some(s.clone()),
        None => None,
    }
}

/// A search hit: the artist with its smallest image and follower count.
pub fn artist_hit(a: ArtistObject) -> (r: ArtistHit)
    ensures
        r.id == a.id,
        r.name == a.name,
        r.genres == a.genres,
        r.followers == match a.followers {
            Some(f) => f.total,
            None => None::<u64>,
        },
        a.images@.len() == 0 <==> r.image_url is None,
        r.image_url matches Some(u) ==> exists|k: int| is_first_smallest(a.images@, k) && u@ == a.images@[k].url@,
{
    let image_url = smallest_image_url(&a.images);
    let followers = match &a.followers {
        Some(f) => f.total,
        None => None,
    };
    ArtistHit { id: a.id, name: a.name, image_url, genres: a.genres, followers }
}

/// `r` lists release `a`.
pub open spec fn info_of(a: SimplifiedAlbum, r: AlbumInfo) -> bool {
    &&& r.id == a.id
    &&& r.name == a.name
    &&& r.group@ == match a.album_group {
        Some(g) => g@,
        None => match a.album_type {
            Some(t) => t@,
            None => "album"@,
        },
    }
    &&& r.release_date == a.release_date
    &&& r.total_tracks == match a.total_tracks {
        Some(n) => n,
        None => 0u32,
    }
    &&& (a.images@.len() == 0 <==> r.image_url is None)
    &&& (r.image_url matches Some(u) ==> exists|k: int| is_first_smallest(a.images@, k) && u@ == a.images@[k].url@)
    &&& r.artists@ == join_spec(artist_name_views(a.artists@), ", "@)
}

/// A release as listed: its group (the listing's group, else its type,
/// else "album"), smallest image, artists joined by ", ".
pub fn album_info(a: SimplifiedAlbum) -> (r: AlbumInfo)
    ensures
        info_of(a, r),
{
    let group = match &a.album_group {
        Some(g) => g.clone(),
        None => match &a.album_type {
            Some(t) => t.clone(),
            None => String::from_str("album"),
        },
    };
    let image_url = smallest_image_url(&a.images);
    let mut names: Vec<String> = Vec::new();
    let mut k: usize = 0;
    while k < a.artists.len()
        invariant
            k <= a.artists@.len(),
            names@.map_values(|s: String| s@) == artist_name_views(a.artists@).subrange(0, k as int),
        decreases a.artists@.len() - k,
    {
        let ghost before = names@;
        names.push(a.artists[k].name.clone());
        assert(names@.map_values(|s: String| s@) =~= before.map_values(|s: String| s@).push(a.artists@[k as int].name@));
        assert(artist_name_views(a.artists@).subrange(0, k + 1) =~= artist_name_views(a.artists@).subrange(0, k as int).push(
            a.artists@[k as int].name@,
        ));
        k += 1;
    }
    assert(artist_name_views(a.artists@).subrange(0, a.artists@.len() as int) =~= artist_name_views(a.artists@));
    let artists = join_strings(&names, ", ");
    let total = match a.total_tracks {
        Some(n) => n,
        None => 0,
    };
    AlbumInfo {
        id: a.id,
        name: a.name,
        group,
        release_date: a.release_date,
        total_tracks: total,
        image_url,
        artists,
    }
}

#[derive(Debug, Clone, Copy)]
pub struct CacheSize {
    pub artists: i64,
    pub albums: i64,
    pub bytes: i64,
}


pub open spec fn release_date_view(a: SimplifiedAlbum) -> Option<Seq<char>> {
    match a.release_date {
        Some(d) => Some(d@),
        None => None,
    }
}

/// Release `a` is listed before `b`: an older (or unknown) date first, one
/// date by name.
pub open spec fn older(a: SimplifiedAlbum, b: SimplifiedAlbum) -> bool {
    date_lt(release_date_view(a), release_date_view(b)) || (release_date_view(a) == release_date_view(b)
        && text_lt(a.name@, b.name@))
}

/// `perm` lists each release once, oldest first, equal ones in the order
/// Spotify gave them.
pub open spec fn is_release_order(albums: Seq<SimplifiedAlbum>, perm: Seq<usize>) -> bool {
    &&& perm.len() == albums.len()
    &&& forall|k: int| 0 <= k < perm.len() ==> #[trigger] perm[k] < albums.len()
    &&& forall|v: usize| v < albums.len() ==> #[trigger] perm.contains(v)
    &&& forall|p: int, q: int|
        0 <= p < q < perm.len() ==> {
            let (a, b) = (albums[#[trigger] perm[p] as int], albums[#[trigger] perm[q] as int]);
            older(a, b) || (!older(b, a) && perm[p] < perm[q])
        }
}

fn opt_chars(o: &Option<String>) -> (r: Option<Vec<char>>)
    ensures
        match (r, *o) {
            (Some(v), Some(s)) => v@ == s@,
            (None, None) => true,
            _ => false,
        },
{
    match o {
        Some(s) => Some(chars_of(s.as_str())),
        None => None,
    }
}

fn copy_info(a: &AlbumInfo) -> (r: AlbumInfo)
    ensures
        r == *a,
{
    AlbumInfo {
        id: a.id.clone(),
        name: a.name.clone(),
        group: a.group.clone(),
        release_date: clone_opt(&a.release_date),
        total_tracks: a.total_tracks,
        image_url: clone_opt(&a.image_url),
        artists: a.artists.clone(),
    }
}

/// An artist's releases as listed, oldest first so a playlist built from
/// them reads chronologically.
pub fn release_listing(albums: Vec<SimplifiedAlbum>) -> (out: Vec<AlbumInfo>)
    ensures
        out@.len() == albums@.len(),
        exists|perm: Seq<usize>|
            is_release_order(albums@, perm) && forall|k: int|
                0 <= k < out@.len() ==> info_of(albums@[#[trigger] perm[k] as int], out@[k]),
{
    let ghost all = albums@;
    let mut keys: Vec<OldestFirst> = Vec::new();
    let mut k: usize = 0;
    while k < albums.len()
        invariant
            k <= albums@.len(),
            keys@.len() == k,
            forall|t: int|
                0 <= t < k ==> {
                    &&& crate::sorting::date_view((#[trigger] keys@[t]).date) == release_date_view(albums@[t])
                    &&& keys@[t].name@ == albums@[t].name@
                },
        decreases albums@.len() - k,
    {
        keys.push(OldestFirst { date: opt_chars(&albums[k].release_date), name: chars_of(albums[k].name.as_str()) });
        k += 1;
    }
    let perm = stable_order(&keys);
    let mut infos: Vec<AlbumInfo> = Vec::new();
    for a in it: albums.into_iter()
        invariant
            it.seq() == all,
            infos@.len() == it.index(),
            forall|t: int| 0 <= t < infos@.len() ==> info_of(all[t], #[trigger] infos@[t]),
    {
        infos.push(album_info(a));
    }
    let mut out: Vec<AlbumInfo> = Vec::new();
    let mut p: usize = 0;
    while p < perm.len()
        invariant
            perm@.len() == all.len(),
            infos@.len() == all.len(),
            forall|t: int| 0 <= t < infos@.len() ==> info_of(all[t], #[trigger] infos@[t]),
            forall|t: int| 0 <= t < perm@.len() ==> #[trigger] perm@[t] < all.len(),
            p <= perm@.len(),
            out@.len() == p,
            forall|t: int| 0 <= t < p ==> info_of(all[#[trigger] perm@[t] as int], out@[t]),
        decreases perm@.len() - p,
    {
        out.push(copy_info(&infos[perm[p]]));
        p += 1;
    }
    proof {
        assert forall|p: int, q: int| 0 <= p < q < perm@.len() implies {
            let (a, b) = (all[#[trigger] perm@[p] as int], all[#[trigger] perm@[q] as int]);
            older(a, b) || (!older(b, a) && perm@[p] < perm@[q])
        } by {
            assert(crate::sorting::ranks_before(keys@, perm@[p] as int, perm@[q] as int));
        }
        assert(is_release_order(all, perm@));
    }
    out
}

} // verus!
