//! Spotify Web API response types (February 2026 revision), as plain values.
//!
//! Fields Spotify may omit are `Option`; the JSON mapping lives beside the
//! application, this module holds the data and what is derived from it.
use vstd::prelude::*;

use crate::text::{
    chars_of, concat_chars, occurs_at, starts_with, starts_with_chars, string_from_chars,
};

verus! {

#[derive(Debug, Clone)]
pub struct Paging<T> {
    pub items: Vec<T>,
    pub next: Option<String>,
    pub total: Option<u64>,
}

#[derive(Debug, Clone)]
pub struct Image {
    pub url: String,
    pub width: Option<u32>,
    pub height: Option<u32>,
}

#[derive(Debug, Clone)]
pub struct Owner {
    pub id: Option<String>,
    pub display_name: Option<String>,
}

#[derive(Debug, Clone)]
pub struct CountRef {
    pub total: u64,
}

#[derive(Debug, Clone)]
pub struct SimplifiedPlaylist {
    pub id: String,
    pub name: String,
    pub uri: Option<String>,
    pub snapshot_id: Option<String>,
    pub owner: Option<Owner>,
    pub images: Option<Vec<Image>>,
    pub public: Option<bool>,
    pub collaborative: Option<bool>,
    pub description: Option<String>,
    /// The item-count object (`tracks`, or `items` after the rename).
    pub tracks: Option<CountRef>,
}

/// Sort key of an image for "smallest first": its width, unknown widths last.
pub open spec fn image_width_key(i: Image) -> u32 {
    match i.width {
        Some(w) => w,
        None => u32::MAX,
    }
}

/// `k` is the first index holding the smallest width key (what
/// `min_by_key` picks).
pub open spec fn is_first_smallest(imgs: Seq<Image>, k: int) -> bool {
    &&& 0 <= k < imgs.len()
    &&& forall|t: int| 0 <= t < imgs.len() ==> image_width_key(imgs[k]) <= image_width_key(#[trigger] imgs[t])
    &&& forall|t: int| 0 <= t < k ==> image_width_key(imgs[k]) < image_width_key(#[trigger] imgs[t])
}

/// The URL of the smallest image of a list, if there is one.
pub fn smallest_image_url(imgs: &Vec<Image>) -> (r: Option<String>)
    ensures
        imgs@.len() == 0 <==> r is None,
        r matches Some(u) ==> exists|k: int| is_first_smallest(imgs@, k) && u@ == imgs@[k].url@,
{
    if imgs.len() == 0 {
        return None;
    }
    let mut best: usize = 0;
    let mut k: usize = 1;
    while k < imgs.len()
        invariant
            1 <= k <= imgs.len(),
            best < k,
            forall|t: int| 0 <= t < k ==> image_width_key(imgs@[best as int]) <= image_width_key(#[trigger] imgs@[t]),
            forall|t: int| 0 <= t < best ==> image_width_key(imgs@[best as int]) < image_width_key(#[trigger] imgs@[t]),
        decreases imgs.len() - k,
    {
        let wb = match imgs[best].width {
            Some(w) => w,
            None => u32::MAX,
        };
        let wk = match imgs[k].width {
            Some(w) => w,
            None => u32::MAX,
        };
        if wk < wb {
            best = k;
        }
        k += 1;
    }
    let u = imgs[best].url.clone();
    assert(is_first_smallest(imgs@, best as int));
    Some(u)
}

impl SimplifiedPlaylist {
    pub fn track_count(&self) -> (r: u64)
        ensures
            r == match self.tracks {
                Some(t) => t.total,
                None => 0,
            },
    {
        match &self.tracks {
            Some(t) => t.total,
            None => 0,
        }
    }

    pub fn owner_id(&self) -> (r: Option<&str>)
        ensures
            r is Some <==> (self.owner is Some && self.owner->Some_0.id is Some),
            r matches Some(x) ==> x@ == self.owner->Some_0.id->Some_0@,
    {
        match &self.owner {
            Some(o) => match &o.id {
                Some(id) => Some(id.as_str()),
                None => None,
            },
            None => None,
        }
    }

    /// Smallest image, good enough for thumbnails.
    pub fn thumbnail(&self) -> (r: Option<String>)
        ensures
            r is None <==> (self.images is None || self.images->Some_0@.len() == 0),
            r matches Some(u) ==> exists|k: int|
                is_first_smallest(self.images->Some_0@, k) && u@ == self.images->Some_0@[k].url@,
    {
        match &self.images {
            Some(imgs) => smallest_image_url(imgs),
            None => None,
        }
    }
}

#[derive(Debug, Clone)]
pub struct Artist {
    pub id: Option<String>,
    pub name: String,
}

#[derive(Debug, Clone)]
pub struct Album {
    pub id: Option<String>,
    pub name: String,
    pub images: Vec<Image>,
}

#[derive(Debug, Clone)]
pub struct Track {
    pub id: Option<String>,
    pub uri: Option<String>,
    pub name: String,
    pub kind: Option<String>,
    pub is_local: bool,
    pub artists: Vec<Artist>,
    pub album: Option<Album>,
    pub duration_ms: Option<u64>,
    /// Present when Spotify relinked the track to a market-specific copy; the
    /// playlist still holds the original URI.
    pub linked_from: Option<LinkedFrom>,
}

#[derive(Debug, Clone)]
pub struct LinkedFrom {
    pub uri: Option<String>,
}

/// Strings joined with a separator (`[..].join(sep)`).
pub open spec fn join_spec(parts: Seq<Seq<char>>, sep: Seq<char>) -> Seq<char>
    decreases parts.len(),
{
    if parts.len() == 0 {
        Seq::empty()
    } else if parts.len() == 1 {
        parts[0]
    } else {
        join_spec(parts.drop_last(), sep) + sep + parts.last()
    }
}

pub open spec fn artist_name_views(artists: Seq<Artist>) -> Seq<Seq<char>> {
    artists.map_values(|a: Artist| a.name@)
}

/// The display string of a track's artists: names joined by ", ".
pub open spec fn artist_names_spec(t: Track) -> Seq<char> {
    join_spec(artist_name_views(t.artists@), ", "@)
}

pub open spec fn is_playable_catalog_track_spec(t: Track) -> bool {
    !t.is_local && !is_episode_spec(t) && t.uri is Some && starts_with(t.uri->Some_0@, "spotify:track:"@)
}

pub open spec fn is_episode_spec(t: Track) -> bool {
    (t.kind is Some && t.kind->Some_0@ == "episode"@) || (t.uri is Some && starts_with(
        t.uri->Some_0@,
        "spotify:episode:"@,
    ))
}

pub fn str_eq(a: &str, b: &str) -> (r: bool)
    ensures
        r == (a@ == b@),
{
    let x = chars_of(a);
    let y = chars_of(b);
    if x.len() != y.len() {
        return false;
    }
    let mut k: usize = 0;
    while k < x.len()
        invariant
            x@ == a@,
            y@ == b@,
            x.len() == y.len(),
            k <= x.len(),
            forall|t: int| 0 <= t < k ==> x@[t] == y@[t],
        decreases x.len() - k,
    {
        if x[k] != y[k] {
            return false;
        }
        k += 1;
    }
    assert(x@ =~= y@);
    true
}

pub fn str_starts_with(s: &str, p: &str) -> (r: bool)
    ensures
        r == starts_with(s@, p@),
{
    starts_with_chars(&chars_of(s), &chars_of(p))
}

pub fn join_strings(parts: &Vec<String>, sep: &str) -> (r: String)
    ensures
        r@ == join_spec(parts@.map_values(|s: String| s@), sep@),
{
    let ghost views = parts@.map_values(|s: String| s@);
    let sepc = chars_of(sep);
    let mut out: Vec<char> = Vec::new();
    let mut k: usize = 0;
    while k < parts.len()
        invariant
            k <= parts.len(),
            sepc@ == sep@,
            views == parts@.map_values(|s: String| s@),
            out@ == join_spec(views.subrange(0, k as int), sep@),
        decreases parts.len() - k,
    {
        let ghost prev = views.subrange(0, k as int);
        assert(views.subrange(0, k + 1).drop_last() =~= prev);
        let piece = chars_of(parts[k].as_str());
        if k == 0 {
            out = piece;
        } else {
            let with_sep = concat_chars(&out, &sepc);
            out = concat_chars(&with_sep, &piece);
        }
        k += 1;
    }
    assert(views.subrange(0, parts.len() as int) =~= views);
    string_from_chars(out.as_slice())
}

impl Track {
    /// A Spotify-catalog track we can add to playlists (not local, not an episode).
    pub fn is_playable_catalog_track(&self) -> (r: bool)
        ensures
            r == is_playable_catalog_track_spec(*self),
    {
        if self.is_local || self.is_episode() {
            return false;
        }
        match &self.uri {
            Some(u) => str_starts_with(u.as_str(), "spotify:track:"),
            None => false,
        }
    }

    pub fn is_episode(&self) -> (r: bool)
        ensures
            r == is_episode_spec(*self),
    {
        let by_kind = match &self.kind {
            Some(k) => str_eq(k.as_str(), "episode"),
            None => false,
        };
        if by_kind {
            return true;
        }
        match &self.uri {
            Some(u) => str_starts_with(u.as_str(), "spotify:episode:"),
            None => false,
        }
    }

    pub fn artist_names(&self) -> (r: String)
        ensures
            r@ == artist_names_spec(*self),
    {
        let mut names: Vec<String> = Vec::new();
        let mut k: usize = 0;
        while k < self.artists.len()
            invariant
                k <= self.artists.len(),
                names@.len() == k,
                forall|t: int| 0 <= t < k ==> (#[trigger] names@[t])@ == self.artists@[t].name@,
            decreases self.artists.len() - k,
        {
            let nm = self.artists[k].name.clone();
            names.push(nm);
            k += 1;
        }
        assert(names@.map_values(|s: String| s@) =~= artist_name_views(self.artists@));
        join_strings(&names, ", ")
    }
}

/// One entry of `GET /playlists/{id}/items`.
#[derive(Debug, Clone)]
pub struct PlaylistEntry {
    pub added_at: Option<String>,
    pub track: Option<Track>,
}

#[derive(Debug, Clone)]
pub struct Device {
    pub id: Option<String>,
    pub name: String,
    pub is_active: bool,
    pub is_restricted: bool,
    pub kind: Option<String>,
}

#[derive(Debug, Clone)]
pub struct DevicesResponse {
    pub devices: Vec<Device>,
}

#[derive(Debug, Clone)]
pub struct Context {
    pub uri: String,
    pub kind: Option<String>,
}

#[derive(Debug, Clone)]
pub struct PlaybackState {
    pub device: Option<Device>,
    pub is_playing: bool,
    pub progress_ms: Option<u64>,
    pub shuffle_state: bool,
    pub repeat_state: Option<String>,
    pub context: Option<Context>,
    pub item: Option<Track>,
    pub currently_playing_type: Option<String>,
    pub timestamp: u64,
}

impl PlaybackState {
    pub fn context_uri(&self) -> (r: Option<&str>)
        ensures
            r is Some <==> self.context is Some,
            r matches Some(x) ==> x@ == self.context->Some_0.uri@,
    {
        match &self.context {
            Some(c) => Some(c.uri.as_str()),
            None => None,
        }
    }

    pub fn track_uri(&self) -> (r: Option<&str>)
        ensures
            r is Some <==> (self.item is Some && self.item->Some_0.uri is Some),
            r matches Some(x) ==> x@ == self.item->Some_0.uri->Some_0@,
    {
        match &self.item {
            Some(t) => match &t.uri {
                Some(u) => Some(u.as_str()),
                None => None,
            },
            None => None,
        }
    }

    /// The URI as it appears in the playlist: the relink origin if any.
    pub fn original_track_uri(&self) -> (r: Option<&str>)
        ensures
            r is Some <==> (self.item is Some && self.item->Some_0.linked_from is Some
                && self.item->Some_0.linked_from->Some_0.uri is Some),
            r matches Some(x) ==> x@ == self.item->Some_0.linked_from->Some_0.uri->Some_0@,
    {
        match &self.item {
            Some(t) => match &t.linked_from {
                Some(l) => match &l.uri {
                    Some(u) => Some(u.as_str()),
                    None => None,
                },
                None => None,
            },
            None => None,
        }
    }
}

#[derive(Debug, Clone)]
pub struct UserProfile {
    pub id: String,
    pub display_name: Option<String>,
    pub product: Option<String>,
    pub email: Option<String>,
}

/// A source entry that did not make it into a generated playlist, and why.
#[derive(Debug, Clone)]
pub struct MissingTrack {
    pub uri: Option<String>,
    pub name: String,
    pub artists: String,
    pub reason: String,
}

/// Standard Spotify error envelope.
#[derive(Debug, Clone)]
pub struct ErrorEnvelope {
    pub error: ErrorBody,
}

#[derive(Debug, Clone)]
pub struct ErrorBody {
    pub status: Option<u16>,
    pub message: Option<String>,
    pub reason: Option<String>,
}

#[derive(Debug, Clone)]
pub struct Followers {
    pub total: Option<u64>,
}

/// An artist as `GET /artists/{id}` and search return it.
#[derive(Debug, Clone)]
pub struct ArtistObject {
    pub id: String,
    pub name: String,
    pub images: Vec<Image>,
    pub genres: Vec<String>,
    pub followers: Option<Followers>,
}

/// A release as an artist's album listing returns it.
#[derive(Debug, Clone)]
pub struct SimplifiedAlbum {
    pub id: String,
    pub name: String,
    pub album_type: Option<String>,
    pub album_group: Option<String>,
    pub release_date: Option<String>,
    pub total_tracks: Option<u32>,
    pub images: Vec<Image>,
    pub artists: Vec<Artist>,
}

} // verus!
