//! Playlist calls: which entries of a playlist can be copied (and why the
//! others cannot), and where each batch of an insertion lands.
use vstd::prelude::*;
use vstd::string::StringExecFns;

use crate::error::AppError;
use crate::models::{artist_names_spec, is_episode_spec, is_playable_catalog_track_spec, MissingTrack, PlaylistEntry, Track};

verus! {

/// Items per add/remove/replace request.
pub const BATCH_SIZE: usize = 100;

/// A playlist split into the tracks that can be copied and the entries that
/// cannot, with the reason.
#[derive(Debug, Clone)]
pub struct PlaylistItems {
    pub tracks: Vec<Track>,
    pub skipped: Vec<MissingTrack>,
}

/// Why an entry with track data cannot be copied.
pub open spec fn skip_reason(t: Track) -> Seq<char> {
    if t.is_local {
        "Local file; the Spotify API cannot add it to playlists"@
    } else if is_episode_spec(t) {
        "Podcast episode; only tracks are copied"@
    } else {
        "No Spotify track URI"@
    }
}

pub open spec fn opt_seq(o: Option<String>) -> Option<Seq<char>> {
    match o {
        Some(s) => Some(s@),
        None => None,
    }
}

pub type MissingView = (Option<Seq<char>>, Seq<char>, Seq<char>, Seq<char>);

pub open spec fn missing_view(m: MissingTrack) -> MissingView {
    (opt_seq(m.uri), m.name@, m.artists@, m.reason@)
}

/// What an entry that cannot be copied is reported as.
pub open spec fn skipped_entry(e: PlaylistEntry) -> MissingView {
    match e.track {
        None => (
            None,
            "Unknown track"@,
            Seq::empty(),
            "Spotify returned no track data; it was probably removed from the catalog"@,
        ),
        Some(t) => (opt_seq(t.uri), t.name@, artist_names_spec(t), skip_reason(t)),
    }
}

pub open spec fn copyable(e: PlaylistEntry) -> bool {
    e.track matches Some(t) && is_playable_catalog_track_spec(t)
}

/// The copyable tracks, in order, and the reports of the rest, in order.
pub open spec fn split_spec(es: Seq<PlaylistEntry>) -> (Seq<Track>, Seq<MissingView>) {
    (
        es.filter(|e: PlaylistEntry| copyable(e)).map_values(|e: PlaylistEntry| e.track->Some_0),
        es.filter(|e: PlaylistEntry| !copyable(e)).map_values(|e: PlaylistEntry| skipped_entry(e)),
    )
}

fn clone_opt(o: &Option<String>) -> (r: Option<String>)
    ensures
        r == *o,
{
    match o {
        Some(s) => Some(s.clone()),
        None => None,
    }
}

pub fn split_entries(entries: Vec<PlaylistEntry>) -> (r: PlaylistItems)
    ensures
        r.tracks@ == split_spec(entries@).0,
        r.skipped@.map_values(|m: MissingTrack| missing_view(m)) == split_spec(entries@).1,
{
    let ghost all = entries@;
    let mut tracks: Vec<Track> = Vec::new();
    let mut skipped: Vec<MissingTrack> = Vec::new();
    for entry in it: entries.into_iter()
        invariant
            it.seq() == all,
            tracks@ == all.subrange(0, it.index() as int).filter(|e: PlaylistEntry| copyable(e)).map_values(
                |e: PlaylistEntry| e.track->Some_0,
            ),
            skipped@.map_values(|m: MissingTrack| missing_view(m)) == all.subrange(0, it.index() as int).filter(
                |e: PlaylistEntry| !copyable(e),
            ).map_values(|e: PlaylistEntry| skipped_entry(e)),
    {
        let ghost k = it.index();
        let ghost pre = all.subrange(0, k as int);
        let ghost before_t = tracks@;
        let ghost before_s = skipped@;
        assert(all.subrange(0, k + 1).drop_last() =~= pre);
        assert(all.subrange(0, k + 1).last() == entry);
        proof {
            reveal_with_fuel(Seq::filter, 1);
        }
        let ghost e = entry;
        match entry.track {
            None => {
                let m = MissingTrack {
                    uri: None,
                    name: String::from_str("Unknown track"),
                    artists: String::new(),
                    reason: String::from_str(
                        "Spotify returned no track data; it was probably removed from the catalog",
                    ),
                };
                skipped.push(m);
                assert(skipped@.map_values(|m: MissingTrack| missing_view(m)) =~= before_s.map_values(
                    |m: MissingTrack| missing_view(m),
                ).push(skipped_entry(e)));
            },
            Some(t) => {
                if t.is_playable_catalog_track() {
                    tracks.push(t);
                    assert(tracks@ =~= before_t.push(e.track->Some_0));
                } else {
                    let reason = if t.is_local {
                        "Local file; the Spotify API cannot add it to playlists"
                    } else if t.is_episode() {
                        "Podcast episode; only tracks are copied"
                    } else {
                        "No Spotify track URI"
                    };
                    let m = MissingTrack {
                        uri: clone_opt(&t.uri),
                        name: t.name.clone(),
                        artists: t.artist_names(),
                        reason: String::from_str(reason),
                    };
                    skipped.push(m);
                    assert(skipped@.map_values(|m: MissingTrack| missing_view(m)) =~= before_s.map_values(
                        |m: MissingTrack| missing_view(m),
                    ).push(skipped_entry(e)));
                }
            },
        }
    }
    assert(all.subrange(0, all.len() as int) =~= all);
    PlaylistItems { tracks, skipped }
}

/// Where each batch of an insertion of `n` items goes: batches of
/// `BATCH_SIZE`, the first at `position`, each later one right after the
/// previous; appended when no position is given.
pub open spec fn batch_positions_spec(position: Option<usize>, n: nat) -> Seq<Option<int>> {
    Seq::new(
        (if n == 0 {
            0
        } else {
            (n - 1) / 100 + 1
        }) as nat,
        |b: int|
            match position {
                Some(p) => Some(p + b * BATCH_SIZE),
                None => None,
            },
    )
}

pub fn batch_positions(position: Option<usize>, n: usize) -> (r: Vec<Option<usize>>)
    requires
        position matches Some(p) ==> p + n <= usize::MAX,
    ensures
        r@.map_values(|o: Option<usize>| match o {
            Some(p) => Some(p as int),
            None => None::<int>,
        }) == batch_positions_spec(position, n as nat),
{
    let mut r: Vec<Option<usize>> = Vec::new();
    let mut done: usize = 0;
    let mut b: usize = 0;
    let ghost count: nat = if n == 0 {
        0
    } else {
        ((n - 1) / 100 + 1) as nat
    };
    while done < n
        invariant
            done <= n,
            done == b * BATCH_SIZE || done == n,
            done < n ==> done == b * BATCH_SIZE,
            b <= count,
            done < n ==> b < count,
            done == n ==> b == count,
            count == (if n == 0 {
                0
            } else {
                ((n - 1) / 100 + 1) as nat
            }),
            position matches Some(p) ==> p + n <= usize::MAX,
            r@.len() == b,
            forall|i: int|
                0 <= i < b ==> (#[trigger] r@[i]) == match position {
                    Some(p) => Some((p + i * BATCH_SIZE) as usize),
                    None => None::<usize>,
                },
        decreases n - done,
    {
        match position {
            Some(p) => {
                r.push(Some(p + done));
            },
            None => {
                r.push(None);
            },
        }
        let left = n - done;
        let step = if left < BATCH_SIZE {
            left
        } else {
            BATCH_SIZE
        };
        proof {
            assert((b + 1) * BATCH_SIZE == b * BATCH_SIZE + BATCH_SIZE) by (nonlinear_arith);
            if step == left {
                assert(n - 1 < (b + 1) * BATCH_SIZE);
                assert((n - 1) / 100 == b) by (nonlinear_arith)
                    requires
                        b * 100 <= n - 1 < (b + 1) * 100,
                        BATCH_SIZE == 100,
                ;
            } else {
                assert(n - 1 >= (b + 1) * BATCH_SIZE);
                assert((n - 1) / 100 >= b + 1) by (nonlinear_arith)
                    requires
                        (b + 1) * 100 <= n - 1,
                        BATCH_SIZE == 100,
                ;
            }
        }
        done = done + step;
        b = b + 1;
    }
    assert(r@.map_values(|o: Option<usize>| match o {
        Some(p) => Some(p as int),
        None => None::<int>,
    }) =~= batch_positions_spec(position, n as nat));
    r
}


pub open spec fn string_views(s: Seq<String>) -> Seq<Seq<char>> {
    s.map_values(|u: String| u@)
}

pub open spec fn batch_views(bs: Seq<Vec<String>>) -> Seq<Seq<Seq<char>>> {
    bs.map_values(|b: Vec<String>| string_views(b@))
}

/// The batches one after another.
pub open spec fn flatten(bs: Seq<Seq<Seq<char>>>) -> Seq<Seq<char>>
    decreases bs.len(),
{
    if bs.len() == 0 {
        Seq::empty()
    } else {
        flatten(bs.drop_last()) + bs.last()
    }
}

/// The requests a list of URIs is written in: batches of `BATCH_SIZE`, the
/// last one possibly shorter, that together are the list in order.
pub fn batches(uris: &Vec<String>) -> (r: Vec<Vec<String>>)
    ensures
        flatten(batch_views(r@)) == string_views(uris@),
        forall|k: int| 0 <= k < r@.len() ==> 0 < (#[trigger] r@[k])@.len() <= BATCH_SIZE,
        forall|k: int| 0 <= k < r@.len() - 1 ==> (#[trigger] r@[k])@.len() == BATCH_SIZE,
{
    let ghost all = string_views(uris@);
    let n = uris.len();
    let mut r: Vec<Vec<String>> = Vec::new();
    let mut start: usize = 0;
    while start < n
        invariant
            n == uris@.len(),
            all == string_views(uris@),
            start <= n,
            flatten(batch_views(r@)) == all.subrange(0, start as int),
            forall|k: int| 0 <= k < r@.len() ==> 0 < (#[trigger] r@[k])@.len() <= BATCH_SIZE,
            forall|k: int| 0 <= k < r@.len() ==> (#[trigger] r@[k])@.len() == BATCH_SIZE,
        decreases n - start,
    {
        let end = if n - start < BATCH_SIZE {
            n
        } else {
            start + BATCH_SIZE
        };
        let mut chunk: Vec<String> = Vec::new();
        let mut k: usize = start;
        while k < end
            invariant
                start <= k <= end <= n,
                n == uris@.len(),
                all == string_views(uris@),
                string_views(chunk@) == all.subrange(start as int, k as int),
            decreases end - k,
        {
            let ghost before = chunk@;
            chunk.push(uris[k].clone());
            assert(string_views(chunk@) =~= string_views(before).push(uris@[k as int]@));
            k += 1;
            assert(all.subrange(start as int, k as int) =~= all.subrange(start as int, k - 1).push(all[k - 1]));
        }
        let ghost prev = r@;
        let ghost cv = string_views(chunk@);
        r.push(chunk);
        assert(batch_views(r@) =~= batch_views(prev).push(cv));
        assert(batch_views(r@).drop_last() =~= batch_views(prev));
        assert(all.subrange(0, end as int) =~= all.subrange(0, start as int) + all.subrange(start as int, end as int));
        if end < n {
            assert forall|q: int| 0 <= q < r@.len() implies (#[trigger] r@[q])@.len() == BATCH_SIZE by {
                if q < prev.len() {
                    assert(r@[q] == prev[q]);
                }
            }
        } else {
            assert forall|q: int| 0 <= q < r@.len() - 1 implies (#[trigger] r@[q])@.len() == BATCH_SIZE by {
                assert(r@[q] == prev[q]);
            }
            assert forall|q: int| 0 <= q < r@.len() implies 0 < (#[trigger] r@[q])@.len() <= BATCH_SIZE by {
                if q < prev.len() {
                    assert(r@[q] == prev[q]);
                }
            }
            start = end;
            assert(all.subrange(0, n as int) =~= all);
            return r;
        }
        start = end;
    }
    assert(all.subrange(0, n as int) =~= all);
    r
}


/// The body key a removal request names its items under, by what earlier
/// removals learned (1: `tracks`, the older shape; 2: `items`; otherwise
/// unknown): the learned one alone, else `items` first, then `tracks`.
pub fn remove_keys(learned: u8) -> (r: Vec<(&'static str, u8)>)
    ensures
        learned == 1 ==> r@.len() == 1 && r@[0].0@ == "tracks"@ && r@[0].1 == 1,
        learned == 2 ==> r@.len() == 1 && r@[0].0@ == "items"@ && r@[0].1 == 2,
        learned != 1 && learned != 2 ==> r@.len() == 2 && r@[0].0@ == "items"@ && r@[0].1 == 2 && r@[1].0@
            == "tracks"@ && r@[1].1 == 1,
{
    let mut r: Vec<(&'static str, u8)> = Vec::new();
    if learned == 1 {
        r.push(("tracks", 1));
    } else if learned == 2 {
        r.push(("items", 2));
    } else {
        r.push(("items", 2));
        r.push(("tracks", 1));
    }
    r
}

/// A removal refused with a 400 is retried with the other key, when there
/// is another to try; any other failure ends the removal.
pub fn try_other_key(error: &AppError, keys: usize) -> (r: bool)
    ensures
        r == (error matches AppError::Spotify { status, .. } && status == 400 && keys > 1),
{
    match error {
        AppError::Spotify { status, .. } => *status == 400 && keys > 1,
        _ => false,
    }
}

} // verus!
