//! Rich, UI-ready track rows shared by the playlist tools.
use vstd::prelude::*;

use crate::matching::{name_key, name_key_spec};
use crate::models::{artist_names_spec, is_playable_catalog_track_spec, PlaylistEntry, Track};

verus! {

#[derive(Debug, Clone)]
pub struct ArtistRef {
    pub id: Option<String>,
    pub name: String,
}

#[derive(Debug, Clone)]
pub struct TrackInfo {
    pub uri: String,
    pub id: Option<String>,
    pub name: String,
    pub artists: String,
    pub artist_ids: Vec<String>,
    pub artist_refs: Vec<ArtistRef>,
    pub album: Option<String>,
    pub duration_ms: Option<u64>,
    pub added_at: Option<String>,
    /// Index among *all* playlist items (local files and episodes included),
    /// which is how the API counts positions.
    pub position: i64,
    pub is_local: bool,
    /// A catalog track the API can add/remove (not local, not an episode).
    pub playable: bool,
}

pub open spec fn opt_view(o: Option<String>) -> Option<Seq<char>> {
    match o {
        Some(s) => Some(s@),
        None => None,
    }
}

/// The ids of the credited artists that have one, in credit order.
pub open spec fn artist_ids_spec(t: Track) -> Seq<Seq<char>> {
    t.artists@.filter(|a: crate::models::Artist| a.id is Some).map_values(
        |a: crate::models::Artist| a.id->Some_0@,
    )
}

fn clone_opt(o: &Option<String>) -> (r: Option<String>)
    ensures
        opt_view(r) == opt_view(*o),
{
    match o {
        Some(s) => Some(s.clone()),
        None => None,
    }
}

impl TrackInfo {
    /// The row for the entry at `position`, or `None` when the entry has no
    /// track data or no URI.
    pub fn from_entry(entry: &PlaylistEntry, position: usize) -> (r: Option<TrackInfo>)
        requires
            position <= i64::MAX,
        ensures
            r is Some <==> (entry.track is Some && entry.track->Some_0.uri is Some),
            r matches Some(info) ==> {
                let t = entry.track->Some_0;
                &&& info.uri@ == t.uri->Some_0@
                &&& opt_view(info.id) == opt_view(t.id)
                &&& info.name@ == t.name@
                &&& info.artists@ == artist_names_spec(t)
                &&& info.artist_ids@.map_values(|s: String| s@) == artist_ids_spec(t)
                &&& info.artist_refs@.len() == t.artists@.len()
                &&& (forall|k: int|
                    0 <= k < t.artists@.len() ==> opt_view(#[trigger] info.artist_refs@[k].id)
                        == opt_view(t.artists@[k].id) && info.artist_refs@[k].name@
                        == t.artists@[k].name@)
                &&& opt_view(info.album) == match t.album {
                    Some(a) => Some(a.name@),
                    None => None::<Seq<char>>,
                }
                &&& info.duration_ms == t.duration_ms
                &&& opt_view(info.added_at) == opt_view(entry.added_at)
                &&& info.position == position as i64
                &&& info.is_local == t.is_local
                &&& info.playable == is_playable_catalog_track_spec(t)
            },
    {
        let t = match &entry.track {
            Some(t) => t,
            None => {
                return None;
            },
        };
        let uri = match &t.uri {
            Some(u) => u.clone(),
            None => {
                return None;
            },
        };
        let mut ids: Vec<String> = Vec::new();
        let mut refs: Vec<ArtistRef> = Vec::new();
        let mut k: usize = 0;
        while k < t.artists.len()
            invariant
                k <= t.artists@.len(),
                ids@.map_values(|s: String| s@) == t.artists@.subrange(0, k as int).filter(
                    |a: crate::models::Artist| a.id is Some,
                ).map_values(|a: crate::models::Artist| a.id->Some_0@),
                refs@.len() == k,
                forall|q: int|
                    0 <= q < k ==> opt_view(#[trigger] refs@[q].id) == opt_view(t.artists@[q].id)
                        && refs@[q].name@ == t.artists@[q].name@,
            decreases t.artists@.len() - k,
        {
            let a = &t.artists[k];
            let ghost before = ids@;
            let ghost pre = t.artists@.subrange(0, k as int);
            assert(t.artists@.subrange(0, k + 1).drop_last() =~= pre);
            match &a.id {
                Some(id) => {
                    let c = id.clone();
                    ids.push(c);
                    proof {
                        reveal_with_fuel(Seq::filter, 1);
                        assert(pre.push(*a) =~= t.artists@.subrange(0, k + 1));
                        assert(ids@.map_values(|s: String| s@) =~= before.map_values(
                            |s: String| s@,
                        ).push(c@));
                    }
                },
                None => {
                    proof {
                        reveal_with_fuel(Seq::filter, 1);
                        assert(pre.push(*a) =~= t.artists@.subrange(0, k + 1));
                    }
                },
            }
            refs.push(ArtistRef { id: clone_opt(&a.id), name: a.name.clone() });
            k += 1;
        }
        assert(t.artists@.subrange(0, t.artists@.len() as int) =~= t.artists@);
        let album = match &t.album {
            Some(a) => Some(a.name.clone()),
            None => None,
        };
        Some(TrackInfo {
            uri,
            id: clone_opt(&t.id),
            name: t.name.clone(),
            artists: t.artist_names(),
            artist_ids: ids,
            artist_refs: refs,
            album,
            duration_ms: t.duration_ms,
            added_at: clone_opt(&entry.added_at),
            position: position as i64,
            is_local: t.is_local,
            playable: t.is_playable_catalog_track(),
        })
    }
}

/// An entry that makes a row: it has track data with a URI.
pub open spec fn has_row(e: PlaylistEntry) -> bool {
    e.track is Some && e.track->Some_0.uri is Some
}

/// The row an entry at `position` makes, as plain values.
pub open spec fn entry_row_view(e: PlaylistEntry, position: int) -> TrackView {
    let t = e.track->Some_0;
    (
        t.uri->Some_0@,
        opt_view(t.id),
        t.name@,
        artist_names_spec(t),
        artist_ids_spec(t),
        t.artists@.map_values(|a: crate::models::Artist| (opt_view(a.id), a.name@)),
        match t.album {
            Some(a) => Some(a.name@),
            None => None::<Seq<char>>,
        },
        t.duration_ms,
        opt_view(e.added_at),
        position as i64,
        t.is_local,
        is_playable_catalog_track_spec(t),
    )
}

/// The rows of a list of entries: one per entry that makes a row, in order,
/// each at the entry's own index.
pub open spec fn entry_rows(es: Seq<PlaylistEntry>) -> Seq<TrackView>
    decreases es.len(),
{
    if es.len() == 0 {
        Seq::empty()
    } else {
        let pre = entry_rows(es.drop_last());
        if has_row(es.last()) {
            pre.push(entry_row_view(es.last(), es.len() - 1))
        } else {
            pre
        }
    }
}

/// The rows of a playlist's entries with their API positions; entries with
/// no track data are skipped but keep their positions counted.
pub fn rows_of_entries(entries: &Vec<PlaylistEntry>) -> (rows: Vec<TrackInfo>)
    requires
        entries@.len() <= i64::MAX,
    ensures
        track_views(rows@) == entry_rows(entries@),
        rows@.len() <= entries@.len(),
        forall|k: int|
            0 <= k < rows@.len() ==> 0 <= #[trigger] rows@[k].position < entries@.len(),
        forall|a: int, b: int| 0 <= a < b < rows@.len() ==> rows@[a].position < rows@[b].position,
{
    let mut rows: Vec<TrackInfo> = Vec::new();
    let mut i: usize = 0;
    while i < entries.len()
        invariant
            i <= entries@.len(),
            entries@.len() <= i64::MAX,
            rows@.len() <= i,
            forall|k: int| 0 <= k < rows@.len() ==> 0 <= #[trigger] rows@[k].position < i,
            forall|a: int, b: int| 0 <= a < b < rows@.len() ==> rows@[a].position < rows@[b].position,
            track_views(rows@) == entry_rows(entries@.subrange(0, i as int)),
        decreases entries@.len() - i,
    {
        let ghost before = rows@;
        assert(entries@.subrange(0, i + 1).drop_last() =~= entries@.subrange(0, i as int));
        assert(entries@.subrange(0, i + 1).last() == entries@[i as int]);
        match TrackInfo::from_entry(&entries[i], i) {
            Some(r) => {
                proof {
                    let t = entries@[i as int].track->Some_0;
                    assert(r.artist_refs@.map_values(|a: ArtistRef| (opt_view(a.id), a.name@)) =~= t.artists@.map_values(
                        |a: crate::models::Artist| (opt_view(a.id), a.name@),
                    ));
                    assert(track_view(r) == entry_row_view(entries@[i as int], i as int));
                }
                rows.push(r);
                assert(track_views(rows@) =~= track_views(before).push(track_view(r)));
            },
            None => {},
        }
        i += 1;
    }
    assert(entries@.subrange(0, entries@.len() as int) =~= entries@);
    rows
}

/// What a row holds, as plain values.
pub type TrackView = (
    Seq<char>,
    Option<Seq<char>>,
    Seq<char>,
    Seq<char>,
    Seq<Seq<char>>,
    Seq<(Option<Seq<char>>, Seq<char>)>,
    Option<Seq<char>>,
    Option<u64>,
    Option<Seq<char>>,
    i64,
    bool,
    bool,
);

pub open spec fn track_view(t: TrackInfo) -> TrackView {
    (
        t.uri@,
        opt_view(t.id),
        t.name@,
        t.artists@,
        t.artist_ids@.map_values(|s: String| s@),
        t.artist_refs@.map_values(|a: ArtistRef| (opt_view(a.id), a.name@)),
        opt_view(t.album),
        t.duration_ms,
        opt_view(t.added_at),
        t.position,
        t.is_local,
        t.playable,
    )
}

pub open spec fn track_views(ts: Seq<TrackInfo>) -> Seq<TrackView> {
    ts.map_values(|t: TrackInfo| track_view(t))
}

/// A copy of a row.
pub fn copy_track(t: &TrackInfo) -> (r: TrackInfo)
    ensures
        track_view(r) == track_view(*t),
{
    let mut ids: Vec<String> = Vec::new();
    let mut k: usize = 0;
    while k < t.artist_ids.len()
        invariant
            k <= t.artist_ids@.len(),
            ids@.len() == k,
            forall|q: int| 0 <= q < k ==> (#[trigger] ids@[q])@ == t.artist_ids@[q]@,
        decreases t.artist_ids@.len() - k,
    {
        ids.push(t.artist_ids[k].clone());
        k += 1;
    }
    let mut refs: Vec<ArtistRef> = Vec::new();
    let mut j: usize = 0;
    while j < t.artist_refs.len()
        invariant
            j <= t.artist_refs@.len(),
            refs@.len() == j,
            forall|q: int|
                0 <= q < j ==> opt_view((#[trigger] refs@[q]).id) == opt_view(t.artist_refs@[q].id)
                    && refs@[q].name@ == t.artist_refs@[q].name@,
        decreases t.artist_refs@.len() - j,
    {
        let a = &t.artist_refs[j];
        refs.push(ArtistRef { id: clone_opt(&a.id), name: a.name.clone() });
        j += 1;
    }
    let r = TrackInfo {
        uri: t.uri.clone(),
        id: clone_opt(&t.id),
        name: t.name.clone(),
        artists: t.artists.clone(),
        artist_ids: ids,
        artist_refs: refs,
        album: clone_opt(&t.album),
        duration_ms: t.duration_ms,
        added_at: clone_opt(&t.added_at),
        position: t.position,
        is_local: t.is_local,
        playable: t.playable,
    };
    assert(r.artist_ids@.map_values(|s: String| s@) =~= t.artist_ids@.map_values(|s: String| s@));
    assert(r.artist_refs@.map_values(|a: ArtistRef| (opt_view(a.id), a.name@)) =~= t.artist_refs@.map_values(
        |a: ArtistRef| (opt_view(a.id), a.name@),
    ));
    r
}

/// How two rows are matched: the same URI, or (by name) the same title and
/// primary artist.
pub open spec fn key_spec(t: TrackInfo, by_name: bool) -> Seq<char> {
    if by_name {
        name_key_spec(t.name@, t.artists@)
    } else {
        t.uri@
    }
}

pub fn key_of(t: &TrackInfo, by_name: bool) -> (r: String)
    ensures
        r@ == key_spec(*t, by_name),
{
    if by_name {
        name_key(t.name.as_str(), t.artists.as_str())
    } else {
        t.uri.clone()
    }
}

/// The rows the API can add and remove, in order.
pub open spec fn playable_of(ts: Seq<TrackInfo>) -> Seq<TrackInfo> {
    ts.filter(|t: TrackInfo| t.playable)
}

pub fn playable_tracks(ts: &Vec<TrackInfo>) -> (r: Vec<TrackInfo>)
    ensures
        track_views(r@) == track_views(playable_of(ts@)),
        forall|i: int| 0 <= i < r@.len() ==> (#[trigger] r@[i]).playable,
{
    let mut r: Vec<TrackInfo> = Vec::new();
    let mut k: usize = 0;
    while k < ts.len()
        invariant
            k <= ts@.len(),
            track_views(r@) == track_views(playable_of(ts@.subrange(0, k as int))),
            forall|i: int| 0 <= i < r@.len() ==> (#[trigger] r@[i]).playable,
        decreases ts@.len() - k,
    {
        let ghost pre = ts@.subrange(0, k as int);
        let ghost before = r@;
        assert(ts@.subrange(0, k + 1).drop_last() =~= pre);
        if ts[k].playable {
            let c = copy_track(&ts[k]);
            r.push(c);
            proof {
                reveal_with_fuel(Seq::filter, 1);
                assert(track_views(r@) =~= track_views(before).push(track_view(c)));
                assert(track_views(playable_of(ts@.subrange(0, k + 1))) =~= track_views(
                    playable_of(pre),
                ).push(track_view(ts@[k as int])));
            }
        } else {
            proof {
                reveal_with_fuel(Seq::filter, 1);
            }
        }
        k += 1;
    }
    assert(ts@.subrange(0, ts@.len() as int) =~= ts@);
    r
}

} // verus!
