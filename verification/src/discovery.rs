//! Discovery Mode: which playlist a reference names, how big a batch is, and
//! which tracks of a Discovery playlist were played between two polls.
use vstd::prelude::*;
use vstd::string::StringExecFns;

use crate::error::AppError;
use crate::generated::GeneratedPlaylist;
use crate::models::{artist_names_spec, is_playable_catalog_track_spec, str_eq, PlaybackState, SimplifiedAlbum, Track};
use crate::randomizer::{position_in, position_spec, shadow_context_uri_spec};
use crate::sorting::{date_lt, date_view, ranks_before, stable_order, NewestFirst};
use crate::text::{
    chars_of, concat_chars, find_sub, lowercase_of, occurs_at, to_lowercase, first_occurrence, has_sub, is_ascii_alphanumeric,
    is_ascii_alphanumeric_spec, lemma_first_occurrence_unique, starts_with, starts_with_chars,
    string_from_chars, subrange_chars, trim, trim_chars, trim_end, trim_start, is_whitespace_char,
    lemma_trim_end_shape,
};

verus! {

pub const MAX_QUEUE: usize = 20;

#[derive(Debug, Clone)]
pub struct LibraryIndexInfo {
    pub playlists: i64,
    pub tracks: i64,
    pub updated_at: Option<i64>,
}

#[derive(Debug, Clone)]
pub struct DiscoveryProgress {
    pub phase: String,
    pub done: usize,
    pub total: usize,
    pub label: String,
}

#[derive(Debug, Clone)]
pub struct ArtistRef {
    pub id: String,
    pub name: String,
}

/// The longest prefix made of ASCII letters and digits.
pub open spec fn alnum_prefix(s: Seq<char>) -> Seq<char>
    decreases s.len(),
{
    if s.len() > 0 && is_ascii_alphanumeric_spec(s[0]) {
        seq![s[0]] + alnum_prefix(s.drop_first())
    } else {
        Seq::empty()
    }
}

pub open spec fn all_ascii_alphanumeric(s: Seq<char>) -> bool {
    forall|k: int| 0 <= k < s.len() ==> is_ascii_alphanumeric_spec(#[trigger] s[k])
}

/// A playlist id from an id, a `spotify:playlist:` URI or an
/// open.spotify.com URL (the id ends at the first non-alphanumeric).
pub open spec fn parse_playlist_ref_spec(input: Seq<char>) -> Option<Seq<char>> {
    let s = trim(input);
    if starts_with(s, "spotify:playlist:"@) {
        Some(s.subrange(17, s.len() as int))
    } else if has_sub(s, "/playlist/"@) {
        let id = alnum_prefix(s.subrange(first_occurrence(s, "/playlist/"@) + 10, s.len() as int));
        if id.len() > 0 {
            Some(id)
        } else {
            None
        }
    } else if s.len() >= 16 && all_ascii_alphanumeric(s) {
        Some(s)
    } else {
        None
    }
}

/// A playlist's context URI reads back as its id, when the id has no
/// trailing blanks (a trim would cut them).
pub proof fn playlist_uri_reads_back(id: Seq<char>)
    requires
        trim_end(id) == id,
    ensures
        parse_playlist_ref_spec(shadow_context_uri_spec(id)) == Some(id),
{
    reveal_strlit("spotify:playlist:");
    let p = "spotify:playlist:"@;
    let s = shadow_context_uri_spec(id);
    assert(s == p + id);
    assert(s[0] == 's');
    assert(trim_start(s) == s);
    if id.len() > 0 {
        assert(s.last() == id.last());
        if is_whitespace_char(id.last()) {
            lemma_trim_end_shape(id.drop_last());
        }
        assert(!is_whitespace_char(id.last()));
    } else {
        assert(s.last() == ':');
    }
    assert(trim_end(s) == s);
    assert(s.subrange(0, 17) =~= p);
    assert(s.subrange(17, s.len() as int) =~= id);
}

fn alnum_prefix_chars(s: &Vec<char>, from: usize) -> (r: Vec<char>)
    requires
        from <= s.len(),
    ensures
        r@ == alnum_prefix(s@.subrange(from as int, s.len() as int)),
{
    let n = s.len();
    let mut k: usize = from;
    while k < n && is_ascii_alphanumeric(s[k])
        invariant
            n == s.len(),
            from <= k <= n,
            forall|t: int| from <= t < k ==> is_ascii_alphanumeric_spec(#[trigger] s@[t]),
        decreases n - k,
    {
        k += 1;
    }
    proof {
        lemma_alnum_prefix(s@, from as int, k as int);
    }
    subrange_chars(s, from, k)
}

proof fn lemma_alnum_prefix(s: Seq<char>, from: int, k: int)
    requires
        0 <= from <= k <= s.len(),
        forall|t: int| from <= t < k ==> is_ascii_alphanumeric_spec(#[trigger] s[t]),
        k == s.len() || !is_ascii_alphanumeric_spec(s[k]),
    ensures
        alnum_prefix(s.subrange(from, s.len() as int)) == s.subrange(from, k),
    decreases k - from,
{
    let t = s.subrange(from, s.len() as int);
    if from < k {
        assert(t.drop_first() =~= s.subrange(from + 1, s.len() as int));
        lemma_alnum_prefix(s, from + 1, k);
        assert(seq![s[from]] + s.subrange(from + 1, k) =~= s.subrange(from, k));
    } else {
        assert(s.subrange(from, k) =~= Seq::<char>::empty());
    }
}

/// Accepts a playlist id, `spotify:playlist:…` URI, or open.spotify.com URL.
pub fn parse_playlist_ref(input: &str) -> (r: Option<String>)
    ensures
        match r {
            Some(id) => parse_playlist_ref_spec(input@) == Some(id@),
            None => parse_playlist_ref_spec(input@) is None,
        },
{
    let s = trim_chars(&chars_of(input));
    let prefix = chars_of("spotify:playlist:");
    proof {
        reveal_strlit("spotify:playlist:");
        reveal_strlit("/playlist/");
    }
    if starts_with_chars(&s, &prefix) {
        return Some(string_from_chars(subrange_chars(&s, 17, s.len()).as_slice()));
    }
    let marker = chars_of("/playlist/");
    match find_sub(&s, &marker) {
        Some(idx) => {
            proof {
                lemma_first_occurrence_unique(s@, marker@, idx as int);
            }
            assert(marker@.len() == 10);
            assert(occurs_at(s@, marker@, idx as int));
            assert(idx + 10 <= s.len());
            let id = alnum_prefix_chars(&s, idx + 10);
            return if id.len() > 0 {
                Some(string_from_chars(id.as_slice()))
            } else {
                None
            };
        },
        None => {},
    }
    if s.len() >= 16 {
        let mut k: usize = 0;
        while k < s.len()
            invariant
                k <= s.len(),
                s@ == trim(input@),
                !starts_with(s@, "spotify:playlist:"@),
                !has_sub(s@, "/playlist/"@),
                forall|t: int| 0 <= t < k ==> is_ascii_alphanumeric_spec(#[trigger] s@[t]),
            decreases s.len() - k,
        {
            if !is_ascii_alphanumeric(s[k]) {
                assert(!all_ascii_alphanumeric(s@)) by {
                    assert(!is_ascii_alphanumeric_spec(s@[k as int]));
                }
                return None;
            }
            k += 1;
        }
        return Some(string_from_chars(s.as_slice()));
    }
    None
}

/// How many tracks one request may offer: at least one, at most
/// `MAX_QUEUE` for the queue and a hundred for a playlist.
pub fn discovery_batch_size(n: usize, mode: &str) -> (r: usize)
    ensures
        r == if n < 1 {
            1
        } else if n > (if mode@ == "queue"@ {
            MAX_QUEUE
        } else {
            100
        }) {
            if mode@ == "queue"@ {
                MAX_QUEUE
            } else {
                100
            }
        } else {
            n
        },
{
    let hi: usize = if str_eq(mode, "queue") {
        MAX_QUEUE
    } else {
        100
    };
    if n < 1 {
        1
    } else if n > hi {
        hi
    } else {
        n
    }
}

/// The tracks strictly between two observed positions of one ordered
/// playlist: played through unobserved when playback moved forward by more
/// than one track.
pub open spec fn between_spec(order: Seq<String>, i: int, j: int) -> Seq<String> {
    if j <= i + 1 {
        Seq::empty()
    } else {
        order.subrange(i + 1, j)
    }
}

/// Positional inference for a Discovery playlist's stored order: the tracks
/// played between the previous poll's track and the current one.
pub fn passed_between(order: &Vec<String>, previous: &PlaybackState, current: &PlaybackState) -> (r: Vec<String>)
    ensures
        match (position_spec(order@, *previous), position_spec(order@, *current)) {
            (Some(i), Some(j)) => r@ == between_spec(order@, i, j),
            _ => r@.len() == 0,
        },
{
    let i = match position_in(order, previous) {
        Some(i) => i,
        None => {
            return Vec::new();
        },
    };
    let j = match position_in(order, current) {
        Some(j) => j,
        None => {
            return Vec::new();
        },
    };
    if j <= i || j - i <= 1 {
        return Vec::new();
    }
    let mut out: Vec<String> = Vec::new();
    let mut k: usize = i + 1;
    while k < j
        invariant
            i + 1 <= k <= j,
            j < order@.len(),
            out@ == order@.subrange(i + 1, k as int),
        decreases j - k,
    {
        out.push(order[k].clone());
        k += 1;
        assert(out@ =~= order@.subrange(i + 1, k as int));
    }
    out
}

// ---- sources and the pool -----------------------------------------------------------

/// Sources younger than this are skipped by a non-forced re-index.
pub const SOURCE_FRESH_SECS: i64 = 604800;

#[derive(Debug, Clone)]
pub struct SourceRow {
    pub key: String,
    /// `followed_artist`, `seed_artist`, `seed_playlist`
    pub kind: String,
    pub label: String,
    pub indexed_at: i64,
    pub track_count: i64,
}

pub struct PoolTrack<'a> {
    pub track_uri: &'a str,
    pub name: Option<&'a str>,
    pub artists: Option<&'a str>,
    pub artist_id: Option<&'a str>,
    pub album: Option<&'a str>,
}

#[derive(Debug, Clone)]
pub struct Candidate {
    pub track_uri: String,
    pub name: Option<String>,
    pub artists: Option<String>,
    pub album: Option<String>,
    pub source_key: String,
}

#[derive(Debug, Clone)]
pub struct DiscoveryLogRow {
    pub id: i64,
    pub track_uri: String,
    pub track_name: Option<String>,
    pub artist_name: Option<String>,
    pub source: Option<String>,
    pub first_seen_at: i64,
    /// `queued`, `listened`, `skipped`
    pub status: String,
}

#[derive(Debug, Clone)]
pub struct DiscoveryTotals {
    pub offered: i64,
    pub listened: i64,
    pub skipped: i64,
    pub pending: i64,
}

#[derive(Debug, Clone)]
pub struct DiscoveryStatus {
    pub library: LibraryIndexInfo,
    pub pool_total: i64,
    pub pool_unseen: i64,
    pub sources: Vec<SourceRow>,
    pub totals: DiscoveryTotals,
    pub recent: Vec<DiscoveryLogRow>,
}

#[derive(Debug, Clone)]
pub struct DiscoverResult {
    pub mode: String,
    pub offered: Vec<Candidate>,
    pub playlist: Option<GeneratedPlaylist>,
}

/// Artist sources are followed artists or seed artists.
pub fn check_source_kind(kind: &str) -> (r: Result<(), AppError>)
    ensures
        r is Ok <==> (kind@ == "followed_artist"@ || kind@ == "seed_artist"@),
        r matches Err(e) ==> (e matches AppError::Other(m) && m@ == "unknown source kind"@),
{
    if str_eq(kind, "followed_artist") || str_eq(kind, "seed_artist") {
        Ok(())
    } else {
        Err(AppError::Other(String::from_str("unknown source kind")))
    }
}

/// Releases indexed per artist: between 1 and 50.
pub fn release_limit(max_releases: usize) -> (r: usize)
    ensures
        r == (if max_releases < 1 {
            1
        } else if max_releases > 50 {
            50
        } else {
            max_releases
        }),
{
    if max_releases < 1 {
        1
    } else if max_releases > 50 {
        50
    } else {
        max_releases
    }
}

/// The key of a source: its kind and id.
pub fn source_key(kind: &str, id: &str) -> (r: String)
    ensures
        r@ == kind@ + ":"@ + id@,
{
    let head = concat_chars(&chars_of(kind), &chars_of(":"));
    let all = concat_chars(&head, &chars_of(id));
    string_from_chars(all.as_slice())
}

/// A source indexed less than a week ago is left alone.
pub fn source_is_fresh(indexed_at: i64, now: i64) -> (r: bool)
    ensures
        r == (now - indexed_at < SOURCE_FRESH_SECS),
{
    if now >= indexed_at {
        (now as i128 - indexed_at as i128) < SOURCE_FRESH_SECS as i128
    } else {
        true
    }
}

/// The release's tracks that go into an artist's pool.
pub open spec fn pool_rows_spec(tracks: Seq<Track>, artist_id: Seq<char>) -> Seq<(Seq<char>, Seq<char>, Seq<char>)> {
    tracks.filter(
        |t: Track| is_playable_catalog_track_spec(t) && credits_id(t, artist_id) && t.uri is Some,
    ).map_values(|t: Track| (t.uri->Some_0@, t.name@, artist_names_spec(t)))
}

pub open spec fn id_is(o: Option<String>, v: Seq<char>) -> bool {
    match o {
        Some(i) => i@ == v,
        None => false,
    }
}

pub open spec fn credits_id(t: Track, artist_id: Seq<char>) -> bool {
    exists|k: int| 0 <= k < t.artists@.len() && id_is((#[trigger] t.artists@[k]).id, artist_id)
}

fn credits_exec(t: &Track, artist_id: &str) -> (r: bool)
    ensures
        r == credits_id(*t, artist_id@),
{
    let mut k: usize = 0;
    while k < t.artists.len()
        invariant
            k <= t.artists@.len(),
            forall|q: int| 0 <= q < k ==> !id_is((#[trigger] t.artists@[q]).id, artist_id@),
        decreases t.artists@.len() - k,
    {
        match &t.artists[k].id {
            Some(i) => {
                if str_eq(i.as_str(), artist_id) {
                    return true;
                }
            },
            None => {},
        }
        k += 1;
    }
    false
}

pub fn pool_rows(tracks: &Vec<Track>, artist_id: &str) -> (r: Vec<(String, String, String)>)
    ensures
        r@.map_values(|x: (String, String, String)| (x.0@, x.1@, x.2@)) == pool_rows_spec(tracks@, artist_id@),
{
    let mut r: Vec<(String, String, String)> = Vec::new();
    let mut k: usize = 0;
    while k < tracks.len()
        invariant
            k <= tracks@.len(),
            r@.map_values(|x: (String, String, String)| (x.0@, x.1@, x.2@)) == pool_rows_spec(tracks@.subrange(0, k as int), artist_id@),
        decreases tracks@.len() - k,
    {
        let ghost pre = tracks@.subrange(0, k as int);
        let ghost before = r@;
        assert(tracks@.subrange(0, k + 1).drop_last() =~= pre);
        assert(tracks@.subrange(0, k + 1).last() == tracks@[k as int]);
        proof {
            reveal_with_fuel(Seq::filter, 1);
        }
        let t = &tracks[k];
        if t.is_playable_catalog_track() && credits_exec(t, artist_id) {
            match &t.uri {
                Some(u) => {
                    let row = (u.clone(), t.name.clone(), t.artist_names());
                    r.push(row);
                    assert(r@.map_values(|x: (String, String, String)| (x.0@, x.1@, x.2@)) =~= before.map_values(
                        |x: (String, String, String)| (x.0@, x.1@, x.2@),
                    ).push((u@, t.name@, artist_names_spec(*t))));
                },
                None => {},
            }
        }
        k += 1;
    }
    assert(tracks@.subrange(0, tracks@.len() as int) =~= tracks@);
    r
}

/// A sample thinned to one track per artist where it can be: candidates
/// whose artist (lower-cased, empty when unknown) was not taken yet come
/// first, in sample order, until `n`; then the others fill up to `n`.
pub open spec fn artist_key(a: Option<String>) -> Seq<char> {
    lowercase_of(match a {
        Some(s) => s@,
        None => Seq::empty(),
    })
}

/// The thinning of a sample: the first pass takes the first candidate of
/// each artist until `n` are taken, remembering what it passed over; the
/// second fills up from those.
pub open spec fn thin_first(sample: Seq<Candidate>, n: nat) -> (Seq<Candidate>, Seq<Candidate>, Seq<Seq<char>>)
    decreases sample.len(),
{
    if sample.len() == 0 {
        (Seq::empty(), Seq::empty(), Seq::empty())
    } else {
        let (out, spare, keys) = thin_first(sample.drop_last(), n);
        if out.len() >= n {
            (out, spare, keys)
        } else {
            let c = sample.last();
            let k = artist_key(c.artists);
            if keys.contains(k) {
                (out, spare.push(c), keys)
            } else {
                (out.push(c), spare, keys.push(k))
            }
        }
    }
}

pub open spec fn thin_spec(sample: Seq<Candidate>, n: nat) -> Seq<Candidate> {
    let (out, spare, _) = thin_first(sample, n);
    if out.len() >= n {
        out
    } else if spare.len() <= n - out.len() {
        out + spare
    } else {
        out + spare.take((n - out.len()) as int)
    }
}

proof fn lemma_thin_first(sample: Seq<Candidate>, n: nat)
    ensures
        ({
            let (out, spare, keys) = thin_first(sample, n);
            &&& keys.len() == out.len()
            &&& forall|i: int| 0 <= i < out.len() ==> keys[i] == artist_key(#[trigger] out[i].artists)
            &&& forall|i: int, j: int| 0 <= i < j < keys.len() ==> keys[i] != keys[j]
            &&& out.len() <= n
            &&& out.len() + spare.len() <= sample.len()
            &&& out.len() < n ==> out.len() + spare.len() == sample.len()
            &&& out.len() < n ==> forall|t: int| 0 <= t < sample.len() ==> keys.contains(artist_key(#[trigger] sample[t].artists))
        }),
    decreases sample.len(),
{
    if sample.len() > 0 {
        let init = sample.drop_last();
        lemma_thin_first(init, n);
        let (out, spare, keys) = thin_first(init, n);
        let c = sample.last();
        let k = artist_key(c.artists);
        if out.len() < n {
            assert forall|t: int| 0 <= t < init.len() implies keys.contains(artist_key(#[trigger] sample[t].artists)) by {
                assert(sample[t] == init[t]);
            }
            if !keys.contains(k) {
                let keys2 = keys.push(k);
                let out2 = out.push(c);
                assert forall|i: int, j: int| 0 <= i < j < keys2.len() implies keys2[i] != keys2[j] by {
                    if j == keys.len() {
                        assert(keys2[i] == keys[i]);
                        assert(keys.contains(keys[i]));
                    }
                }
                assert forall|i: int| 0 <= i < out2.len() implies keys2[i] == artist_key(#[trigger] out2[i].artists) by {
                    if i < out.len() {
                        assert(out2[i] == out[i]);
                    }
                }
                assert forall|t: int| 0 <= t < sample.len() implies keys2.contains(artist_key(#[trigger] sample[t].artists)) by {
                    if t < init.len() {
                        assert(sample[t] == init[t]);
                        let w = choose|w: int| 0 <= w < keys.len() && keys[w] == artist_key(init[t].artists);
                        assert(keys2[w] == keys[w]);
                    } else {
                        assert(keys2[keys.len() as int] == k);
                    }
                }
            } else {
                assert forall|t: int| 0 <= t < sample.len() implies keys.contains(artist_key(#[trigger] sample[t].artists)) by {
                    if t < init.len() {
                        assert(sample[t] == init[t]);
                    }
                }
            }
        }
    }
}

/// Thinning hands out as many candidates as asked for, or all there are;
/// it opens with candidates of pairwise different artists, and when those
/// fall short of `n`, every artist of the sample is among them.
pub proof fn thinning_spreads_over_artists(sample: Seq<Candidate>, n: nat)
    ensures
        thin_spec(sample, n).len() == if n < sample.len() {
            n
        } else {
            sample.len()
        },
        ({
            let first = thin_first(sample, n).0;
            &&& thin_spec(sample, n).take(first.len() as int) == first
            &&& forall|i: int, j: int|
                0 <= i < j < first.len() ==> artist_key(#[trigger] first[i].artists) != artist_key(
                    #[trigger] first[j].artists,
                )
            &&& first.len() < n ==> forall|t: int|
                0 <= t < sample.len() ==> exists|i: int|
                    0 <= i < first.len() && artist_key(#[trigger] first[i].artists) == artist_key(
                        #[trigger] sample[t].artists,
                    )
        }),
{
    lemma_thin_first(sample, n);
    let (out, spare, keys) = thin_first(sample, n);
    let r = thin_spec(sample, n);
    assert(r.take(out.len() as int) =~= out);
    assert forall|i: int, j: int| 0 <= i < j < out.len() implies artist_key(#[trigger] out[i].artists) != artist_key(
        #[trigger] out[j].artists,
    ) by {
        assert(keys[i] == artist_key(out[i].artists));
        assert(keys[j] == artist_key(out[j].artists));
    }
    if out.len() < n {
        assert forall|t: int| 0 <= t < sample.len() implies exists|i: int|
            0 <= i < out.len() && artist_key(#[trigger] out[i].artists) == artist_key(#[trigger] sample[t].artists) by {
            assert(keys.contains(artist_key(sample[t].artists)));
            let w = choose|w: int| 0 <= w < keys.len() && keys[w] == artist_key(sample[t].artists);
            assert(keys[w] == artist_key(out[w].artists));
        }
    }
}

fn has_key(keys: &Vec<String>, k: &String) -> (r: bool)
    ensures
        r == keys@.map_values(|x: String| x@).contains(k@),
{
    let ghost v = keys@.map_values(|x: String| x@);
    let mut i: usize = 0;
    while i < keys.len()
        invariant
            i <= keys@.len(),
            v == keys@.map_values(|x: String| x@),
            forall|t: int| 0 <= t < i ==> v[t] != k@,
        decreases keys@.len() - i,
    {
        if str_eq(keys[i].as_str(), k.as_str()) {
            assert(v[i as int] == k@);
            return true;
        }
        i += 1;
    }
    false
}

/// Thin a random sample of unseen candidates to `n`, one per artist where
/// the sample allows.
pub fn thin_sample(sample: Vec<Candidate>, n: usize) -> (r: Vec<Candidate>)
    ensures
        r@ == thin_spec(sample@, n as nat),
{
    let ghost all = sample@;
    let mut out: Vec<Candidate> = Vec::new();
    let mut spare: Vec<Candidate> = Vec::new();
    let mut keys: Vec<String> = Vec::new();
    for c in it: sample.into_iter()
        invariant
            it.seq() == all,
            ({
                let st = thin_first(all.subrange(0, it.index() as int), n as nat);
                &&& out@ == st.0
                &&& spare@ == st.1
                &&& keys@.map_values(|x: String| x@) == st.2
            }),
    {
        let ghost k = it.index();
        let ghost pre = all.subrange(0, k as int);
        assert(all.subrange(0, k + 1).drop_last() =~= pre);
        assert(all.subrange(0, k + 1).last() == c);
        if out.len() < n {
            let key = match &c.artists {
                Some(a) => to_lowercase(a.as_str()),
                None => to_lowercase(""),
            };
            proof {
                reveal_strlit("");
                assert(""@ =~= Seq::<char>::empty());
            }
            assert(key@ == artist_key(c.artists));
            if has_key(&keys, &key) {
                spare.push(c);
            } else {
                let ghost before = keys@;
                let ghost kv = key@;
                keys.push(key);
                assert(keys@.map_values(|x: String| x@) =~= before.map_values(|x: String| x@).push(kv));
                out.push(c);
            }
        }
    }
    assert(all.subrange(0, all.len() as int) =~= all);
    let ghost first_out = out@;
    let ghost first_spare = spare@;
    let mut result = out;
    for c in it2: spare.into_iter()
        invariant
            it2.seq() == first_spare,
            first_out.len() < n ==> result@ == first_out + first_spare.take(
                (if it2.index() <= n - first_out.len() {
                    it2.index()
                } else {
                    (n - first_out.len()) as int
                }),
            ),
            first_out.len() >= n ==> result@ == first_out,
            result@.len() >= first_out.len(),
            first_out.len() < n ==> result@.len() <= n,
    {
        let ghost j = it2.index();
        if result.len() < n {
            let ghost before = result@;
            result.push(c);
            proof {
                assert(first_out.len() < n);
                assert(first_spare.take(j + 1) =~= first_spare.take(j as int).push(c));
            }
        }
    }
    proof {
        if first_out.len() < n && first_spare.len() <= n - first_out.len() {
            assert(first_spare.take(first_spare.len() as int) =~= first_spare);
        }
    }
    result
}

/// How Discovery hands out its picks: into the queue (`true`) or as a new
/// playlist (`false`).
pub fn discover_mode(mode: &str) -> (r: Result<bool, AppError>)
    ensures
        mode@ == "queue"@ ==> r == Ok::<bool, AppError>(true),
        mode@ == "playlist"@ ==> r == Ok::<bool, AppError>(false),
        mode@ != "queue"@ && mode@ != "playlist"@ ==> (r matches Err(AppError::Other(m)) && m@
            == "unknown discovery mode '"@ + mode@ + "'"@),
{
    proof {
        reveal_strlit("queue");
        reveal_strlit("playlist");
        assert("queue"@.len() != "playlist"@.len());
    }
    if str_eq(mode, "queue") {
        return Ok(true);
    }
    if str_eq(mode, "playlist") {
        return Ok(false);
    }
    let head = concat_chars(&chars_of("unknown discovery mode '"), &chars_of(mode));
    let all = concat_chars(&head, &chars_of("'"));
    Err(AppError::Other(string_from_chars(all.as_slice())))
}

/// Nothing unseen is left to offer.
pub fn pool_exhausted() -> (e: AppError)
    ensures
        e matches AppError::Other(m) && m@ == "No unseen tracks left in the pool. Add or re-index sources on this page."@,
{
    AppError::Other(String::from_str("No unseen tracks left in the pool. Add or re-index sources on this page."))
}

/// The source record of a seed playlist.
pub fn seed_playlist_source(id: &str, label: String, indexed_at: i64, track_count: i64) -> (r: SourceRow)
    ensures
        r.key@ == "seed_playlist:"@ + id@,
        r.kind@ == "seed_playlist"@,
        r.label == label,
        r.indexed_at == indexed_at,
        r.track_count == track_count,
{
    let key = concat_chars(&chars_of("seed_playlist:"), &chars_of(id));
    SourceRow {
        key: string_from_chars(key.as_slice()),
        kind: String::from_str("seed_playlist"),
        label,
        indexed_at,
        track_count,
    }
}


pub open spec fn album_date(a: SimplifiedAlbum) -> Option<Seq<char>> {
    match a.release_date {
        Some(d) => Some(d@),
        None => None,
    }
}

/// `perm` lists each release once, newest first, equal dates in the order
/// Spotify gave them.
pub open spec fn is_newest_order(albums: Seq<SimplifiedAlbum>, perm: Seq<usize>) -> bool {
    &&& perm.len() == albums.len()
    &&& forall|k: int| 0 <= k < perm.len() ==> #[trigger] perm[k] < albums.len()
    &&& forall|v: usize| v < albums.len() ==> #[trigger] perm.contains(v)
    &&& forall|p: int, q: int|
        0 <= p < q < perm.len() ==> {
            let (a, b) = (albums[#[trigger] perm[p] as int], albums[#[trigger] perm[q] as int]);
            date_lt(album_date(b), album_date(a)) || (!date_lt(album_date(a), album_date(b)) && perm[p] < perm[q])
        }
}

/// Which of an artist's releases to index: the positions of the newest
/// `limit`, newest first.
pub fn newest_releases(albums: &Vec<SimplifiedAlbum>, limit: usize) -> (r: Vec<usize>)
    ensures
        exists|perm: Seq<usize>|
            is_newest_order(albums@, perm) && r@ == perm.take(
                if limit < albums@.len() {
                    limit as int
                } else {
                    albums@.len() as int
                },
            ),
{
    let mut keys: Vec<NewestFirst> = Vec::new();
    let mut k: usize = 0;
    while k < albums.len()
        invariant
            k <= albums@.len(),
            keys@.len() == k,
            forall|t: int| 0 <= t < k ==> date_view((#[trigger] keys@[t]).date) == album_date(albums@[t]),
        decreases albums@.len() - k,
    {
        let d = match &albums[k].release_date {
            Some(s) => Some(chars_of(s.as_str())),
            None => None,
        };
        keys.push(NewestFirst { date: d });
        k += 1;
    }
    let perm = stable_order(&keys);
    proof {
        assert forall|p: int, q: int| 0 <= p < q < perm@.len() implies {
            let (a, b) = (albums@[#[trigger] perm@[p] as int], albums@[#[trigger] perm@[q] as int]);
            date_lt(album_date(b), album_date(a)) || (!date_lt(album_date(a), album_date(b)) && perm@[p] < perm@[q])
        } by {
            assert(ranks_before(keys@, perm@[p] as int, perm@[q] as int));
        }
        assert(is_newest_order(albums@, perm@));
    }
    let n = if limit < perm.len() {
        limit
    } else {
        perm.len()
    };
    let mut r: Vec<usize> = Vec::new();
    let mut p: usize = 0;
    while p < n
        invariant
            n <= perm@.len(),
            p <= n,
            r@ == perm@.take(p as int),
        decreases n - p,
    {
        r.push(perm[p]);
        p += 1;
        assert(r@ =~= perm@.take(p as int));
    }
    r
}


pub open spec fn context_of(p: PlaybackState) -> Option<Seq<char>> {
    match p.context {
        Some(c) => Some(c.uri@),
        None => None,
    }
}

/// The playlist both polls were playing from, when they were in the same
/// playlist context.
pub open spec fn shared_playlist_spec(previous: PlaybackState, current: PlaybackState) -> Option<Seq<char>> {
    match (context_of(previous), context_of(current)) {
        (Some(a), Some(b)) => if a == b && starts_with(b, "spotify:playlist:"@) {
            Some(b.subrange(17, b.len() as int))
        } else {
            None
        },
        _ => None,
    }
}

pub fn shared_playlist(previous: &PlaybackState, current: &PlaybackState) -> (r: Option<String>)
    ensures
        match r {
            Some(id) => shared_playlist_spec(*previous, *current) == Some(id@),
            None => shared_playlist_spec(*previous, *current) is None,
        },
{
    proof {
        reveal_strlit("spotify:playlist:");
    }
    match (previous.context_uri(), current.context_uri()) {
        (Some(a), Some(b)) => {
            let bc = chars_of(b);
            if str_eq(a, b) && starts_with_chars(&bc, &chars_of("spotify:playlist:")) {
                Some(string_from_chars(subrange_chars(&bc, 17, bc.len()).as_slice()))
            } else {
                None
            }
        },
        _ => None,
    }
}

/// How many unseen tracks to draw before thinning to one per artist:
/// four times the want, at least twenty.
pub fn oversample(n: usize) -> (r: usize)
    requires
        n <= usize::MAX / 4,
    ensures
        r == if 4 * n < 20 {
            20
        } else {
            4 * n
        },
{
    if 4 * n < 20 {
        20
    } else {
        4 * n
    }
}

} // verus!
