//! Genre Filtering: artist-level genre tags applied to a playlist's tracks.
//! A track carries the union of its credited artists' genres; the playlist's
//! breakdown counts, per genre, the tracks that carry it.
use vstd::prelude::*;
use vstd::string::StringExecFns;

use crate::models::{str_eq, ArtistObject};
use crate::randomizer::{is_listed, views, without};
use crate::text::{lowercase_of, to_lowercase};
use crate::order::{is_stable_text_order, lemma_text_order, stable_text_order, text_key_views, text_less, text_lt};
use crate::text::chars_of;
use crate::tracks::{opt_view, ArtistRef, TrackInfo};

verus! {

/// Cached genre tags are trusted for 30 days.
pub const GENRE_CACHE_SECS: i64 = 2592000;

/// Artists probed through search when single lookups carry no tags.
pub const PROBE_COUNT: usize = 3;

#[derive(Debug, Clone)]
pub struct GenreCount {
    pub genre: String,
    pub count: usize,
}

#[derive(Debug, Clone)]
pub struct GenreTrack {
    pub track: TrackInfo,
    pub genres: Vec<String>,
}

#[derive(Debug, Clone)]
pub struct GenreBreakdown {
    pub playlist_id: String,
    pub playlist_name: String,
    pub genres: Vec<GenreCount>,
    pub tracks: Vec<GenreTrack>,
    pub untagged: usize,
    pub artists_total: usize,
    pub artists_fetched: usize,
    /// `single` or `search`.
    pub lookup_strategy: String,
    /// True when Spotify returned no tags for any artist fetched this run.
    pub no_tags_from_spotify: bool,
}

#[derive(Debug, Clone)]
pub struct GenreProgress {
    pub done: usize,
    pub total: usize,
}

/// An artist's cached tags.
#[derive(Debug, Clone)]
pub struct ArtistGenres {
    pub artist_id: String,
    pub name: Option<String>,
    pub genres: Vec<String>,
}

/// The oldest cache time still trusted: everything when forced to refetch
/// is too old.
pub fn cache_cutoff(force: bool, now: i64) -> (r: i64)
    requires
        now >= i64::MIN + GENRE_CACHE_SECS,
    ensures
        r == (if force { i64::MAX } else { (now - GENRE_CACHE_SECS) as i64 }),
{
    if force {
        i64::MAX
    } else {
        now - GENRE_CACHE_SECS
    }
}

/// Single lookups answered but not one artist carried a tag: time to see
/// whether search does.
pub fn should_probe_search(using_search: bool, tags: &Vec<Vec<String>>) -> (r: bool)
    ensures
        r == (!using_search && tags@.len() > 0 && forall|i: int| 0 <= i < tags@.len() ==> (#[trigger] tags@[i])@.len() == 0),
{
    if using_search || tags.len() == 0 {
        return false;
    }
    let mut k: usize = 0;
    while k < tags.len()
        invariant
            k <= tags@.len(),
            forall|i: int| 0 <= i < k ==> (#[trigger] tags@[i])@.len() == 0,
        decreases tags@.len() - k,
    {
        if tags[k].len() > 0 {
            return false;
        }
        k += 1;
    }
    true
}

/// The ids of `ids` that `present` does not list, in order: the artists
/// still to look up after the cache, or those Spotify did not return (cached
/// as untagged so they are not asked for every time).
pub fn ids_not_in(ids: &Vec<String>, present: &Vec<String>) -> (r: Vec<String>)
    ensures
        views(r@) == without(views(ids@), present@),
{
    let ghost all = views(ids@);
    let mut out: Vec<String> = Vec::new();
    let mut k: usize = 0;
    while k < ids.len()
        invariant
            all == views(ids@),
            k <= ids@.len(),
            views(out@) == without(all.subrange(0, k as int), present@),
        decreases ids@.len() - k,
    {
        let ghost before = out@;
        assert(all.subrange(0, k + 1).drop_last() =~= all.subrange(0, k as int));
        if !is_listed(present, &ids[k]) {
            let id = ids[k].clone();
            out.push(id);
            assert(views(out@) =~= views(before).push(id@));
        }
        proof {
            reveal_with_fuel(Seq::filter, 1);
        }
        k += 1;
    }
    assert(all.subrange(0, ids@.len() as int) =~= all);
    out
}

/// A search hit carries the wanted name when both read the same in lower
/// case (`str::to_lowercase`).
pub open spec fn name_matches(hit: ArtistObject, name: Seq<char>) -> bool {
    lowercase_of(hit.name@) == lowercase_of(name)
}

/// Which search hit stands for the artist `id` called `name`: the hit with
/// that id, else the first whose name matches ignoring case, else none.
pub fn search_hit(hits: &Vec<ArtistObject>, id: &str, name: &str) -> (r: Option<usize>)
    ensures
        match r {
            Some(k) => k < hits@.len() && ((hits@[k as int].id@ == id@ && forall|t: int|
                0 <= t < k ==> #[trigger] hits@[t].id@ != id@) || ((forall|t: int|
                0 <= t < hits@.len() ==> #[trigger] hits@[t].id@ != id@) && name_matches(
                hits@[k as int],
                name@,
            ) && forall|t: int| 0 <= t < k ==> !name_matches(#[trigger] hits@[t], name@))),
            None => forall|t: int|
                0 <= t < hits@.len() ==> #[trigger] hits@[t].id@ != id@ && !name_matches(hits@[t], name@),
        },
{
    let mut k: usize = 0;
    while k < hits.len()
        invariant
            k <= hits@.len(),
            forall|t: int| 0 <= t < k ==> #[trigger] hits@[t].id@ != id@,
        decreases hits@.len() - k,
    {
        if str_eq(hits[k].id.as_str(), id) {
            return Some(k);
        }
        k += 1;
    }
    let wanted = to_lowercase(name);
    let mut k: usize = 0;
    while k < hits.len()
        invariant
            k <= hits@.len(),
            wanted@ == lowercase_of(name@),
            forall|t: int| 0 <= t < hits@.len() ==> #[trigger] hits@[t].id@ != id@,
            forall|t: int| 0 <= t < k ==> !name_matches(#[trigger] hits@[t], name@),
        decreases hits@.len() - k,
    {
        let lower = to_lowercase(hits[k].name.as_str());
        if str_eq(lower.as_str(), wanted.as_str()) {
            return Some(k);
        }
        k += 1;
    }
    None
}

/// Lookups answered and not one artist carried a tag.
pub open spec fn all_untagged(tags: Seq<Vec<String>>) -> bool {
    tags.len() > 0 && forall|i: int| 0 <= i < tags.len() ==> (#[trigger] tags[i])@.len() == 0
}

/// The lookup strategy and the "Spotify gives no tags" flag once the lookups
/// are done. `probed` says whether search was probed after single lookups
/// came back untagged, `probe_hits` how many probes found tags, and `tags`
/// are the tag lists of the final round of lookups (done again by search
/// when a probe found tags). Search is used from then on when it was already
/// in use or a probe found tags; no tags is reported when the probe found
/// none, or when search answered and carried no tag at all.
pub fn after_probe(using_search: bool, probed: bool, probe_hits: usize, tags: &Vec<Vec<String>>) -> (r: (bool, bool))
    ensures
        r.0 == (using_search || (probed && probe_hits > 0)),
        r.1 == ((probed && probe_hits == 0) || ((using_search || (probed && probe_hits > 0)) && all_untagged(tags@))),
{
    let search = using_search || (probed && probe_hits > 0);
    let mut untagged = tags.len() > 0;
    let mut k: usize = 0;
    while k < tags.len()
        invariant
            k <= tags@.len(),
            untagged == (tags@.len() > 0 && forall|i: int| 0 <= i < k ==> (#[trigger] tags@[i])@.len() == 0),
        decreases tags@.len() - k,
    {
        if tags[k].len() > 0 {
            untagged = false;
        }
        k += 1;
    }
    (search, (probed && probe_hits == 0) || (search && untagged))
}

// ---- tags per track ----------------------------------------------------------------------

pub type TagMap = Seq<(Seq<char>, Seq<Seq<char>>)>;

pub open spec fn tag_map(m: Seq<(String, Vec<String>)>) -> TagMap {
    m.map_values(|e: (String, Vec<String>)| (e.0@, e.1@.map_values(|g: String| g@)))
}

/// The tags recorded for an artist (the first entry for it), if any.
pub open spec fn tags_of(m: TagMap, id: Seq<char>) -> Option<Seq<Seq<char>>>
    decreases m.len(),
{
    if m.len() == 0 {
        None
    } else if m[0].0 == id {
        Some(m[0].1)
    } else {
        tags_of(m.drop_first(), id)
    }
}

/// `acc` followed by the tags of `gs` it does not hold yet, in order.
pub open spec fn add_new(acc: Seq<Seq<char>>, gs: Seq<Seq<char>>) -> Seq<Seq<char>>
    decreases gs.len(),
{
    if gs.len() == 0 {
        acc
    } else {
        let a = if acc.contains(gs[0]) {
            acc
        } else {
            acc.push(gs[0])
        };
        add_new(a, gs.drop_first())
    }
}

/// A track's genres: its artists' tags, each once, in credit order.
pub open spec fn track_genres_from(ids: Seq<Seq<char>>, m: TagMap, acc: Seq<Seq<char>>) -> Seq<Seq<char>>
    decreases ids.len(),
{
    if ids.len() == 0 {
        acc
    } else {
        let a = match tags_of(m, ids[0]) {
            Some(gs) => add_new(acc, gs),
            None => acc,
        };
        track_genres_from(ids.drop_first(), m, a)
    }
}

pub open spec fn track_genres(ids: Seq<Seq<char>>, m: TagMap) -> Seq<Seq<char>> {
    track_genres_from(ids, m, Seq::empty())
}

fn find_tags(m: &Vec<(String, Vec<String>)>, id: &String) -> (r: Option<usize>)
    ensures
        match r {
            Some(k) => k < m@.len() && tags_of(tag_map(m@), id@) == Some(tag_map(m@)[k as int].1),
            None => tags_of(tag_map(m@), id@) is None,
        },
{
    let ghost tm = tag_map(m@);
    assert(tm.subrange(0, tm.len() as int) =~= tm);
    let mut k: usize = 0;
    while k < m.len()
        invariant
            k <= m@.len(),
            tm == tag_map(m@),
            tags_of(tm, id@) == tags_of(tm.subrange(k as int, tm.len() as int), id@),
        decreases m@.len() - k,
    {
        let ghost rest = tm.subrange(k as int, tm.len() as int);
        assert(rest.drop_first() =~= tm.subrange(k + 1, tm.len() as int));
        assert(rest[0] == tm[k as int]);
        if str_eq(m[k].0.as_str(), id.as_str()) {
            return Some(k);
        }
        k += 1;
    }
    None
}

fn contains_text(list: &Vec<String>, s: &String) -> (r: bool)
    ensures
        r == list@.map_values(|x: String| x@).contains(s@),
{
    let ghost v = list@.map_values(|x: String| x@);
    let mut k: usize = 0;
    while k < list.len()
        invariant
            k <= list@.len(),
            v == list@.map_values(|x: String| x@),
            forall|t: int| 0 <= t < k ==> v[t] != s@,
        decreases list@.len() - k,
    {
        if str_eq(list[k].as_str(), s.as_str()) {
            assert(v[k as int] == s@);
            return true;
        }
        k += 1;
    }
    false
}

fn add_new_tags(acc: &mut Vec<String>, gs: &Vec<String>)
    ensures
        final(acc)@.map_values(|x: String| x@) == add_new(
            old(acc)@.map_values(|x: String| x@),
            gs@.map_values(|x: String| x@),
        ),
{
    let ghost gv = gs@.map_values(|x: String| x@);
    let ghost target = add_new(acc@.map_values(|x: String| x@), gv);
    assert(gv.subrange(0, gv.len() as int) =~= gv);
    let mut k: usize = 0;
    while k < gs.len()
        invariant
            k <= gs@.len(),
            gv == gs@.map_values(|x: String| x@),
            target == add_new(acc@.map_values(|x: String| x@), gv.subrange(k as int, gv.len() as int)),
        decreases gs@.len() - k,
    {
        let ghost before = acc@;
        let ghost rest = gv.subrange(k as int, gv.len() as int);
        assert(rest.drop_first() =~= gv.subrange(k + 1, gv.len() as int));
        assert(rest[0] == gs@[k as int]@);
        if !contains_text(acc, &gs[k]) {
            acc.push(gs[k].clone());
            assert(acc@.map_values(|x: String| x@) =~= before.map_values(|x: String| x@).push(gs@[k as int]@));
        }
        k += 1;
    }
    assert(gv.subrange(gs@.len() as int, gv.len() as int) =~= Seq::<Seq<char>>::empty());
}

/// A track's genres from the tag lists of its artists.
pub fn genres_of_track(artist_ids: &Vec<String>, m: &Vec<(String, Vec<String>)>) -> (r: Vec<String>)
    ensures
        r@.map_values(|x: String| x@) == track_genres(artist_ids@.map_values(|x: String| x@), tag_map(m@)),
{
    let ghost ids = artist_ids@.map_values(|x: String| x@);
    let ghost tm = tag_map(m@);
    let mut acc: Vec<String> = Vec::new();
    let mut k: usize = 0;
    assert(ids.subrange(0, ids.len() as int) =~= ids);
    assert(acc@.map_values(|x: String| x@) =~= Seq::<Seq<char>>::empty());
    while k < artist_ids.len()
        invariant
            k <= artist_ids@.len(),
            ids == artist_ids@.map_values(|x: String| x@),
            tm == tag_map(m@),
            track_genres(ids, tm) == track_genres_from(
                ids.subrange(k as int, ids.len() as int),
                tm,
                acc@.map_values(|x: String| x@),
            ),
        decreases artist_ids@.len() - k,
    {
        let ghost rest = ids.subrange(k as int, ids.len() as int);
        assert(rest.drop_first() =~= ids.subrange(k + 1, ids.len() as int));
        assert(rest[0] == artist_ids@[k as int]@);
        match find_tags(m, &artist_ids[k]) {
            Some(j) => {
                assert(tm[j as int].1 == m@[j as int].1@.map_values(|g: String| g@));
                add_new_tags(&mut acc, &m[j].1);
            },
            None => {},
        }
        k += 1;
    }
    acc
}

// ---- the breakdown ---------------------------------------------------------------------

/// How many of the tracks carry genre `g`.
pub open spec fn carried_by(per_track: Seq<Seq<Seq<char>>>, g: Seq<char>) -> nat
    decreases per_track.len(),
{
    if per_track.len() == 0 {
        0
    } else {
        carried_by(per_track.drop_last(), g) + if per_track.last().contains(g) {
            1nat
        } else {
            0nat
        }
    }
}

/// Some track carries `g`.
pub open spec fn carried(per_track: Seq<Seq<Seq<char>>>, g: Seq<char>) -> bool {
    exists|t: int| 0 <= t < per_track.len() && #[trigger] per_track[t].contains(g)
}

/// `counts` holds each carried genre once with the number of tracks that
/// carry it, most carried first, ties alphabetically.
pub open spec fn is_breakdown(per_track: Seq<Seq<Seq<char>>>, counts: Seq<(Seq<char>, nat)>) -> bool {
    &&& forall|i: int| 0 <= i < counts.len() ==> #[trigger] counts[i].1 == carried_by(per_track, counts[i].0)
    &&& forall|i: int| 0 <= i < counts.len() ==> carried(per_track, #[trigger] counts[i].0)
    &&& forall|g: Seq<char>| carried(per_track, g) ==> exists|i: int| 0 <= i < counts.len() && #[trigger] counts[i].0 == g
    &&& forall|p: int, q: int|
        0 <= p < q < counts.len() ==> (#[trigger] counts[p]).1 > (#[trigger] counts[q]).1 || (counts[p].1
            == counts[q].1 && text_lt(counts[p].0, counts[q].0))
}

pub open spec fn count_views(cs: Seq<GenreCount>) -> Seq<(Seq<char>, nat)> {
    cs.map_values(|c: GenreCount| (c.genre@, c.count as nat))
}

pub open spec fn genre_views(gs: Seq<Vec<String>>) -> Seq<Seq<Seq<char>>> {
    gs.map_values(|g: Vec<String>| g@.map_values(|x: String| x@))
}

proof fn lemma_carried_by_step(per_track: Seq<Seq<Seq<char>>>, g: Seq<char>)
    requires
        per_track.len() > 0,
    ensures
        carried_by(per_track, g) == carried_by(per_track.drop_last(), g) + if per_track.last().contains(g) {
            1nat
        } else {
            0nat
        },
{
}

proof fn lemma_carried_by_positive(per_track: Seq<Seq<Seq<char>>>, g: Seq<char>)
    ensures
        carried(per_track, g) <==> carried_by(per_track, g) > 0,
        carried_by(per_track, g) <= per_track.len(),
    decreases per_track.len(),
{
    if per_track.len() > 0 {
        let d = per_track.drop_last();
        lemma_carried_by_positive(d, g);
        if carried(d, g) {
            let t = choose|t: int| 0 <= t < d.len() && #[trigger] d[t].contains(g);
            assert(per_track[t] == d[t]);
        }
        if carried(per_track, g) {
            let t = choose|t: int| 0 <= t < per_track.len() && #[trigger] per_track[t].contains(g);
            if t < d.len() {
                assert(d[t] == per_track[t]);
            }
        }
        if per_track.last().contains(g) {
            assert(per_track[per_track.len() - 1].contains(g));
        }
    }
}

/// Count the genres over the tracks' genre lists: each carried genre once,
/// in order of first appearance, with how many tracks carry it.
fn count_genres(per_track: &Vec<Vec<String>>) -> (r: Vec<(String, usize)>)
    requires
        forall|t: int| 0 <= t < per_track@.len() ==> no_repeats(#[trigger] genre_views(per_track@)[t]),
    ensures
        forall|i: int| 0 <= i < r@.len() ==> #[trigger] r@[i].1 == carried_by(genre_views(per_track@), r@[i].0@),
        forall|i: int| 0 <= i < r@.len() ==> carried(genre_views(per_track@), #[trigger] r@[i].0@),
        forall|g: Seq<char>| carried(genre_views(per_track@), g) ==> exists|i: int| 0 <= i < r@.len() && #[trigger] r@[i].0@ == g,
        forall|a: int, b: int| 0 <= a < b < r@.len() ==> r@[a].0@ != r@[b].0@,
{
    let ghost pv = genre_views(per_track@);
    let total = per_track.len();
    assert(per_track@.len() <= usize::MAX);
    let mut out: Vec<(String, usize)> = Vec::new();
    let mut t: usize = 0;
    while t < per_track.len()
        invariant
            t <= per_track@.len(),
            pv == genre_views(per_track@),
            per_track@.len() <= usize::MAX,
            forall|q: int| 0 <= q < per_track@.len() ==> no_repeats(#[trigger] pv[q]),
            forall|i: int| 0 <= i < out@.len() ==> #[trigger] out@[i].1 == carried_by(pv.subrange(0, t as int), out@[i].0@),
            forall|i: int| 0 <= i < out@.len() ==> carried(pv.subrange(0, t as int), #[trigger] out@[i].0@),
            forall|g: Seq<char>| carried(pv.subrange(0, t as int), g) ==> exists|i: int| 0 <= i < out@.len() && #[trigger] out@[i].0@ == g,
            forall|a: int, b: int| 0 <= a < b < out@.len() ==> out@[a].0@ != out@[b].0@,
            forall|i: int| 0 <= i < out@.len() ==> #[trigger] out@[i].1 <= t,
        decreases per_track@.len() - t,
    {
        let ghost pre = pv.subrange(0, t as int);
        let ghost cur = pv.subrange(0, t + 1);
        let ghost row = pv[t as int];
        assert(cur.drop_last() =~= pre);
        assert(cur.last() == row);
        let gs = &per_track[t];
        assert(gs@.map_values(|x: String| x@) == row);
        let ghost out0 = out@;
        // Genres of this track seen so far in this pass.
        let mut j: usize = 0;
        while j < gs.len()
            invariant
                j <= gs@.len(),
                pv == genre_views(per_track@),
                pre == pv.subrange(0, t as int),
                row == pv[t as int],
                row == gs@.map_values(|x: String| x@),
                no_repeats(row),
                t < per_track@.len(),
                per_track@.len() <= usize::MAX,
                out@.len() >= out0.len(),
                forall|i: int| 0 <= i < out0.len() ==> #[trigger] out@[i].0 == out0[i].0,
                forall|a: int, b: int| 0 <= a < b < out@.len() ==> out@[a].0@ != out@[b].0@,
                // Entries are counted over the earlier tracks plus this one's first `j` genres.
                forall|i: int| 0 <= i < out@.len() ==> #[trigger] out@[i].1 == carried_by(pre, out@[i].0@) + if row.subrange(0, j as int).contains(out@[i].0@) {
                    1nat
                } else {
                    0nat
                },
                forall|i: int| 0 <= i < out@.len() ==> carried(pre, #[trigger] out@[i].0@) || row.subrange(0, j as int).contains(out@[i].0@),
                forall|g: Seq<char>| carried(pre, g) ==> exists|i: int| 0 <= i < out@.len() && #[trigger] out@[i].0@ == g,
                forall|q: int| 0 <= q < j ==> has_genre(out@, #[trigger] row[q]),
                forall|i: int| 0 <= i < out@.len() ==> #[trigger] out@[i].1 <= t + 1,
            decreases gs@.len() - j,
        {
            let g = &gs[j];
            assert(g@ == row[j as int]);
            let ghost before = out@;
            proof {
                assert forall|i: int| 0 <= i < before.len() implies !(row.subrange(0, j as int).contains(before[i].0@) && before[i].0@ == g@) by {
                    if row.subrange(0, j as int).contains(before[i].0@) && before[i].0@ == g@ {
                        let q = choose|q: int| 0 <= q < j && row.subrange(0, j as int)[q] == before[i].0@;
                        assert(row[q] == row.subrange(0, j as int)[q]);
                        assert(row[q] == row[j as int]);
                    }
                }
                assert(row.subrange(0, j + 1) =~= row.subrange(0, j as int).push(row[j as int]));
                assert(!row.subrange(0, j as int).contains(g@)) by {
                    if row.subrange(0, j as int).contains(g@) {
                        let q = choose|q: int| 0 <= q < j && row.subrange(0, j as int)[q] == g@;
                        assert(row[q] == row.subrange(0, j as int)[q]);
                    }
                }
                lemma_carried_by_positive(pre, g@);
                assert forall|i: int| 0 <= i < before.len() && before[i].0@ == g@ implies #[trigger] before[i].1 <= t by {
                    assert(before[i] == out@[i]);
                    assert(out@[i].1 == carried_by(pre, out@[i].0@) + if row.subrange(0, j as int).contains(out@[i].0@) {
                        1nat
                    } else {
                        0nat
                    });
                    assert(pre.len() == t);
                }
            }
            let mut k: usize = 0;
            let mut found = false;
            while k < out.len()
                invariant
                    k <= out@.len(),
                    out@.len() == before.len(),
                    !found ==> out@ == before,
                    !found ==> forall|i: int| 0 <= i < k ==> out@[i].0@ != g@,
                    found ==> exists|i: int| 0 <= i < out@.len() && #[trigger] out@[i].0@ == g@,
                    found ==> forall|i: int| 0 <= i < out@.len() ==> #[trigger] out@[i].0 == before[i].0,
                    found ==> forall|i: int| 0 <= i < out@.len() && out@[i].0@ != g@ ==> #[trigger] out@[i].1 == before[i].1,
                    found ==> forall|i: int| 0 <= i < out@.len() && out@[i].0@ == g@ ==> #[trigger] out@[i].1 == before[i].1 + 1,
                    forall|i: int| 0 <= i < before.len() ==> #[trigger] before[i].1 <= t + 1,
                    forall|i: int| 0 <= i < before.len() && before[i].0@ == g@ ==> #[trigger] before[i].1 <= t,
                    forall|a: int, b: int| 0 <= a < b < before.len() ==> before[a].0@ != before[b].0@,
                    t < per_track@.len(),
                    per_track@.len() <= usize::MAX,
                decreases out@.len() - k,
            {
                if !found && str_eq(out[k].0.as_str(), g.as_str()) {
                    let c = out[k].1;
                    let name = out[k].0.clone();
                    out.set(k, (name, c + 1));
                    found = true;
                    assert(out@[k as int].0@ == g@);
                }
                k += 1;
            }
            if !found {
                out.push((g.clone(), 1));
            }
            proof {
                let rj = row.subrange(0, j as int);
                let rj1 = row.subrange(0, j + 1);
                assert forall|i: int| 0 <= i < out@.len() implies #[trigger] out@[i].1 == carried_by(pre, out@[i].0@) + if rj1.contains(out@[i].0@) {
                    1nat
                } else {
                    0nat
                } by {
                    if i < before.len() {
                        if out@[i].0@ == g@ {
                            assert(rj1.contains(g@)) by {
                                assert(rj1[j as int] == g@);
                            }
                        } else {
                            if rj1.contains(out@[i].0@) {
                                let q = choose|q: int| 0 <= q < rj1.len() && rj1[q] == out@[i].0@;
                                assert(q != j);
                                assert(rj[q] == rj1[q]);
                            }
                            if rj.contains(out@[i].0@) {
                                let q = choose|q: int| 0 <= q < rj.len() && rj[q] == out@[i].0@;
                                assert(rj1[q] == rj[q]);
                            }
                        }
                    } else {
                        assert(out@[i].0@ == g@);
                        assert(rj1[j as int] == g@);
                        if carried(pre, g@) {
                            let i2 = choose|i2: int| 0 <= i2 < before.len() && #[trigger] before[i2].0@ == g@;
                            assert(out@[i2].0@ == g@);
                        }
                        lemma_carried_by_positive(pre, g@);
                    }
                }
                assert forall|i: int| 0 <= i < out@.len() implies carried(pre, #[trigger] out@[i].0@) || rj1.contains(out@[i].0@) by {
                    if i < before.len() {
                        if rj.contains(out@[i].0@) {
                            let q = choose|q: int| 0 <= q < rj.len() && rj[q] == out@[i].0@;
                            assert(rj1[q] == rj[q]);
                        }
                    } else {
                        assert(rj1[j as int] == g@);
                    }
                }
                assert forall|q: int| 0 <= q < j + 1 implies has_genre(out@, #[trigger] row[q]) by {
                    if q < j {
                        let i = choose|i: int| 0 <= i < before.len() && #[trigger] before[i].0@ == row[q];
                        assert(out@[i].0 == before[i].0);
                    } else if !found {
                        assert(out@[before.len() as int].0@ == g@);
                    }
                }
                assert forall|gg: Seq<char>| carried(pre, gg) implies exists|i: int| 0 <= i < out@.len() && #[trigger] out@[i].0@ == gg by {
                    let i = choose|i: int| 0 <= i < before.len() && #[trigger] before[i].0@ == gg;
                    assert(out@[i].0 == before[i].0);
                }
                assert forall|i: int| 0 <= i < out@.len() implies #[trigger] out@[i].1 <= t + 1 by {
                    if i < before.len() && out@[i].0@ == g@ {
                        lemma_carried_by_positive(pre, g@);
                        assert(before[i].1 == carried_by(pre, g@) + if rj.contains(g@) { 1nat } else { 0nat });
                    }
                }
                assert forall|a: int, b: int| 0 <= a < b < out@.len() implies out@[a].0@ != out@[b].0@ by {
                    if b == before.len() && !found {
                        assert(out@[a].0 == before[a].0);
                    }
                }
            }
            j += 1;
        }
        proof {
            assert(row.subrange(0, row.len() as int) =~= row);
            assert forall|i: int| 0 <= i < out@.len() implies #[trigger] out@[i].1 == carried_by(cur, out@[i].0@) by {
                lemma_carried_by_step(cur, out@[i].0@);
            }
            assert forall|i: int| 0 <= i < out@.len() implies carried(cur, #[trigger] out@[i].0@) by {
                if carried(pre, out@[i].0@) {
                    let q = choose|q: int| 0 <= q < pre.len() && #[trigger] pre[q].contains(out@[i].0@);
                    assert(cur[q] == pre[q]);
                } else {
                    assert(cur[t as int] == row);
                }
            }
            assert forall|gg: Seq<char>| carried(cur, gg) implies exists|i: int| 0 <= i < out@.len() && #[trigger] out@[i].0@ == gg by {
                let q = choose|q: int| 0 <= q < cur.len() && #[trigger] cur[q].contains(gg);
                if q < t {
                    assert(pre[q] == cur[q]);
                    assert(pre[q].contains(gg));
                    assert(carried(pre, gg));
                } else {
                    assert(cur[q] == row);
                    assert(row.contains(gg));
                    let w = choose|w: int| 0 <= w < row.len() && row[w] == gg;
                    assert(j == gs@.len());
                    assert(has_genre(out@, row[w]));
                    let i = choose|i: int| 0 <= i < out@.len() && #[trigger] out@[i].0@ == row[w];
                    assert(out@[i].0@ == gg);
                }
            }
        }
        t += 1;
    }
    assert(pv.subrange(0, pv.len() as int) =~= pv);
    out
}

pub open spec fn has_genre(out: Seq<(String, usize)>, g: Seq<char>) -> bool {
    exists|i: int| 0 <= i < out.len() && #[trigger] out[i].0@ == g
}

/// Each genre list holds a genre at most once.
pub open spec fn no_repeats(s: Seq<Seq<char>>) -> bool {
    forall|a: int, b: int| 0 <= a < b < s.len() ==> s[a] != s[b]
}

/// `a` is listed before `b`: carried by more tracks, or as many and
/// alphabetically first.
pub open spec fn listed_before(a: (Seq<char>, nat), b: (Seq<char>, nat)) -> bool {
    a.1 > b.1 || (a.1 == b.1 && text_lt(a.0, b.0))
}

pub open spec fn pair_views(v: Seq<(String, usize)>) -> Seq<(Seq<char>, nat)> {
    v.map_values(|p: (String, usize)| (p.0@, p.1 as nat))
}

fn before_exec(a: &(String, usize), b: &GenreCount) -> (r: bool)
    ensures
        r == listed_before((a.0@, a.1 as nat), (b.genre@, b.count as nat)),
{
    if a.1 != b.count {
        return a.1 > b.count;
    }
    text_less(&chars_of(a.0.as_str()), &chars_of(b.genre.as_str()))
}

/// Order genre counts (genres distinct): most carried first, ties
/// alphabetically.
fn sort_counts(counts: &Vec<(String, usize)>) -> (out: Vec<GenreCount>)
    requires
        forall|a: int, b: int| 0 <= a < b < counts@.len() ==> counts@[a].0@ != counts@[b].0@,
    ensures
        out@.len() == counts@.len(),
        forall|i: int| 0 <= i < out@.len() ==> pair_views(counts@).contains(#[trigger] count_views(out@)[i]),
        forall|j: int| 0 <= j < counts@.len() ==> count_views(out@).contains(#[trigger] pair_views(counts@)[j]),
        forall|p: int, q: int| 0 <= p < q < out@.len() ==> listed_before(#[trigger] count_views(out@)[p], #[trigger] count_views(out@)[q]),
{
    let ghost cv = pair_views(counts@);
    let mut out: Vec<GenreCount> = Vec::new();
    let mut i: usize = 0;
    while i < counts.len()
        invariant
            i <= counts@.len(),
            cv == pair_views(counts@),
            forall|a: int, b: int| 0 <= a < b < counts@.len() ==> counts@[a].0@ != counts@[b].0@,
            out@.len() == i,
            forall|k: int| 0 <= k < out@.len() ==> cv.subrange(0, i as int).contains(#[trigger] count_views(out@)[k]),
            forall|j: int| 0 <= j < i ==> count_views(out@).contains(#[trigger] cv[j]),
            forall|p: int, q: int| 0 <= p < q < out@.len() ==> listed_before(#[trigger] count_views(out@)[p], #[trigger] count_views(out@)[q]),
        decreases counts@.len() - i,
    {
        let x = &counts[i];
        let ghost xv = cv[i as int];
        let ghost before = count_views(out@);
        assert(xv == (x.0@, x.1 as nat));
        let mut pos: usize = 0;
        while pos < out.len() && !before_exec(x, &out[pos])
            invariant
                pos <= out@.len(),
                before == count_views(out@),
                xv == (x.0@, x.1 as nat),
                forall|k: int| 0 <= k < pos ==> !listed_before(xv, #[trigger] before[k]),
            decreases out@.len() - pos,
        {
            pos += 1;
        }
        proof {
            // Genres already placed differ from this one.
            assert forall|k: int| 0 <= k < before.len() implies (#[trigger] before[k]).0 != xv.0 by {
                assert(cv.subrange(0, i as int).contains(before[k]));
                let j = choose|j: int| 0 <= j < i && cv.subrange(0, i as int)[j] == before[k];
                assert(cv[j] == cv.subrange(0, i as int)[j]);
                assert(counts@[j].0@ != counts@[i as int].0@);
            }
            assert forall|k: int| 0 <= k < pos implies listed_before(#[trigger] before[k], xv) by {
                lemma_text_order(before[k].0, xv.0, xv.0);
            }
            if pos < before.len() {
                assert(listed_before(xv, before[pos as int]));
            }
            assert forall|k: int| pos <= k < before.len() implies listed_before(xv, #[trigger] before[k]) by {
                if k > pos {
                    assert(listed_before(before[pos as int], before[k]));
                    lemma_text_order(xv.0, before[pos as int].0, before[k].0);
                }
            }
        }
        let g = GenreCount { genre: x.0.clone(), count: x.1 };
        out.insert(pos, g);
        proof {
            let now = count_views(out@);
            assert(now =~= before.insert(pos as int, xv));
            assert forall|k: int| 0 <= k < now.len() implies cv.subrange(0, i + 1).contains(#[trigger] now[k]) by {
                if k == pos {
                    assert(cv.subrange(0, i + 1)[i as int] == xv);
                } else {
                    let e = if k < pos { before[k] } else { before[k - 1] };
                    assert(now[k] == e);
                    assert(cv.subrange(0, i as int).contains(e));
                    let j = choose|j: int| 0 <= j < i && cv.subrange(0, i as int)[j] == e;
                    assert(cv.subrange(0, i + 1)[j] == e);
                }
            }
            assert forall|j: int| 0 <= j < i + 1 implies now.contains(#[trigger] cv[j]) by {
                if j == i {
                    assert(now[pos as int] == xv);
                } else {
                    assert(before.contains(cv[j]));
                    let k = choose|k: int| 0 <= k < before.len() && before[k] == cv[j];
                    if k < pos {
                        assert(now[k] == cv[j]);
                    } else {
                        assert(now[k + 1] == cv[j]);
                    }
                }
            }
            assert forall|p: int, q: int| 0 <= p < q < now.len() implies listed_before(#[trigger] now[p], #[trigger] now[q]) by {
                if q < pos {
                    assert(now[p] == before[p] && now[q] == before[q]);
                } else if q == pos {
                    assert(now[p] == before[p]);
                } else if p < pos {
                    assert(now[p] == before[p] && now[q] == before[q - 1]);
                    assert(listed_before(before[p], before[q - 1]));
                } else if p == pos {
                    assert(now[q] == before[q - 1]);
                } else {
                    assert(now[p] == before[p - 1] && now[q] == before[q - 1]);
                }
            }
        }
        i += 1;
    }
    assert(cv.subrange(0, cv.len() as int) =~= cv);
    out
}

proof fn lemma_add_new_no_repeats(acc: Seq<Seq<char>>, gs: Seq<Seq<char>>)
    requires
        no_repeats(acc),
    ensures
        no_repeats(add_new(acc, gs)),
    decreases gs.len(),
{
    if gs.len() > 0 {
        let a = if acc.contains(gs[0]) {
            acc
        } else {
            acc.push(gs[0])
        };
        if !acc.contains(gs[0]) {
            assert forall|x: int, y: int| 0 <= x < y < a.len() implies a[x] != a[y] by {
                if y == a.len() - 1 {
                    assert(a[x] == acc[x]);
                    assert(acc[x] != gs[0]);
                } else {
                    assert(a[x] == acc[x] && a[y] == acc[y]);
                }
            }
        }
        lemma_add_new_no_repeats(a, gs.drop_first());
    }
}

proof fn lemma_track_genres_no_repeats(ids: Seq<Seq<char>>, m: TagMap, acc: Seq<Seq<char>>)
    requires
        no_repeats(acc),
    ensures
        no_repeats(track_genres_from(ids, m, acc)),
    decreases ids.len(),
{
    if ids.len() > 0 {
        let a = match tags_of(m, ids[0]) {
            Some(gs) => add_new(acc, gs),
            None => acc,
        };
        if let Some(gs) = tags_of(m, ids[0]) {
            lemma_add_new_no_repeats(acc, gs);
        }
        lemma_track_genres_no_repeats(ids.drop_first(), m, a);
    }
}

pub open spec fn ids_of(t: TrackInfo) -> Seq<Seq<char>> {
    t.artist_ids@.map_values(|x: String| x@)
}

/// Each track's genres.
pub open spec fn per_track_genres(tracks: Seq<TrackInfo>, m: TagMap) -> Seq<Seq<Seq<char>>> {
    tracks.map_values(|t: TrackInfo| track_genres(ids_of(t), m))
}

/// How many tracks carry no genre.
pub open spec fn untagged_count(per: Seq<Seq<Seq<char>>>) -> nat
    decreases per.len(),
{
    if per.len() == 0 {
        0
    } else {
        untagged_count(per.drop_last()) + if per.last().len() == 0 {
            1nat
        } else {
            0nat
        }
    }
}

/// The playlist's genre breakdown from its tracks and the tags of their
/// artists: each track with its genres, the count per genre in listing
/// order, and how many tracks carry none.
pub fn tally_genres(tracks: Vec<TrackInfo>, tags: &Vec<(String, Vec<String>)>) -> (r: (Vec<GenreTrack>, Vec<GenreCount>, usize))
    ensures
        r.0@.len() == tracks@.len(),
        forall|i: int| 0 <= i < tracks@.len() ==> (#[trigger] r.0@[i]).track == tracks@[i],
        forall|i: int| 0 <= i < tracks@.len() ==> (#[trigger] r.0@[i]).genres@.map_values(|x: String| x@)
            == per_track_genres(tracks@, tag_map(tags@))[i],
        is_breakdown(per_track_genres(tracks@, tag_map(tags@)), count_views(r.1@)),
        r.2 == untagged_count(per_track_genres(tracks@, tag_map(tags@))),
{
    let ghost all = tracks@;
    let ghost tm = tag_map(tags@);
    let ghost per = per_track_genres(all, tm);
    let mut out: Vec<GenreTrack> = Vec::new();
    let mut lists: Vec<Vec<String>> = Vec::new();
    let mut untagged: usize = 0;
    let total = tracks.len();
    assert(all.len() <= usize::MAX);
    for t in it: tracks.into_iter()
        invariant
            it.seq() == all,
            all.len() <= usize::MAX,
            tm == tag_map(tags@),
            per == per_track_genres(all, tm),
            out@.len() == it.index(),
            lists@.len() == it.index(),
            untagged <= it.index(),
            forall|i: int| 0 <= i < it.index() ==> (#[trigger] out@[i]).track == all[i],
            forall|i: int| 0 <= i < it.index() ==> (#[trigger] out@[i]).genres@.map_values(|x: String| x@) == per[i],
            genre_views(lists@) == per.subrange(0, it.index() as int),
            untagged == untagged_count(per.subrange(0, it.index() as int)),
    {
        let ghost k = it.index();
        let g = genres_of_track(&t.artist_ids, tags);
        let copy = copy_strings(&g);
        let ghost before = lists@;
        proof {
            assert(per[k as int] == track_genres(ids_of(all[k as int]), tm));
            assert(per.subrange(0, k + 1).drop_last() =~= per.subrange(0, k as int));
            assert(per.subrange(0, k + 1).last() == per[k as int]);
        }
        if g.len() == 0 {
            untagged += 1;
        }
        lists.push(copy);
        assert(genre_views(lists@) =~= genre_views(before).push(per[k as int]));
        out.push(GenreTrack { track: t, genres: g });
    }
    assert(per.subrange(0, per.len() as int) =~= per);
    proof {
        assert forall|t: int| 0 <= t < lists@.len() implies no_repeats(#[trigger] genre_views(lists@)[t]) by {
            lemma_track_genres_no_repeats(ids_of(all[t]), tm, Seq::empty());
            assert(genre_views(lists@)[t] == per[t]);
        }
    }
    let counts = count_genres(&lists);
    let sorted = sort_counts(&counts);
    proof {
        let pv = genre_views(lists@);
        let cv = count_views(sorted@);
        let src = pair_views(counts@);
        assert forall|i: int| 0 <= i < cv.len() implies #[trigger] cv[i].1 == carried_by(pv, cv[i].0) && carried(pv, cv[i].0) by {
            assert(src.contains(cv[i]));
            let j = choose|j: int| 0 <= j < src.len() && src[j] == cv[i];
            assert(src[j] == (counts@[j].0@, counts@[j].1 as nat));
        }
        assert forall|g: Seq<char>| carried(pv, g) implies exists|i: int| 0 <= i < cv.len() && #[trigger] cv[i].0 == g by {
            let j = choose|j: int| 0 <= j < counts@.len() && #[trigger] counts@[j].0@ == g;
            assert(src[j] == (counts@[j].0@, counts@[j].1 as nat));
            assert(cv.contains(src[j]));
            let i = choose|i: int| 0 <= i < cv.len() && cv[i] == src[j];
            assert(cv[i].0 == g);
        }
    }
    (out, sorted, untagged)
}

fn copy_strings(v: &Vec<String>) -> (r: Vec<String>)
    ensures
        r@.map_values(|x: String| x@) == v@.map_values(|x: String| x@),
{
    let mut r: Vec<String> = Vec::new();
    let mut k: usize = 0;
    while k < v.len()
        invariant
            k <= v@.len(),
            r@.map_values(|x: String| x@) == v@.subrange(0, k as int).map_values(|x: String| x@),
        decreases v@.len() - k,
    {
        let ghost before = r@;
        r.push(v[k].clone());
        assert(r@.map_values(|x: String| x@) =~= before.map_values(|x: String| x@).push(v@[k as int]@));
        assert(v@.subrange(0, k + 1).map_values(|x: String| x@) =~= v@.subrange(0, k as int).map_values(
            |x: String| x@,
        ).push(v@[k as int]@));
        k += 1;
    }
    assert(v@.subrange(0, v@.len() as int) =~= v@);
    r
}

// ---- the artists to look up --------------------------------------------------------------

/// The credited artists of a track that have an id, as (id, name).
pub open spec fn refs_of(t: TrackInfo) -> Seq<(Seq<char>, Seq<char>)> {
    t.artist_refs@.filter(|a: ArtistRef| a.id is Some).map_values(|a: ArtistRef| (a.id->Some_0@, a.name@))
}

pub open spec fn all_refs(tracks: Seq<TrackInfo>) -> Seq<(Seq<char>, Seq<char>)>
    decreases tracks.len(),
{
    if tracks.len() == 0 {
        Seq::empty()
    } else {
        all_refs(tracks.drop_last()) + refs_of(tracks.last())
    }
}

pub open spec fn has_id(v: Seq<(Seq<char>, Seq<char>)>, id: Seq<char>) -> bool {
    exists|i: int| 0 <= i < v.len() && #[trigger] v[i].0 == id
}

/// Each id once, with the name it was first credited under.
pub open spec fn first_names(v: Seq<(Seq<char>, Seq<char>)>) -> Seq<(Seq<char>, Seq<char>)>
    decreases v.len(),
{
    if v.len() == 0 {
        Seq::empty()
    } else {
        let prev = first_names(v.drop_last());
        if has_id(prev, v.last().0) {
            prev
        } else {
            prev.push(v.last())
        }
    }
}

pub open spec fn name_pairs(v: Seq<(String, String)>) -> Seq<(Seq<char>, Seq<char>)> {
    v.map_values(|p: (String, String)| (p.0@, p.1@))
}

fn find_id(v: &Vec<(String, String)>, id: &String) -> (r: bool)
    ensures
        r == has_id(name_pairs(v@), id@),
{
    let ghost nv = name_pairs(v@);
    let mut k: usize = 0;
    while k < v.len()
        invariant
            k <= v@.len(),
            nv == name_pairs(v@),
            forall|t: int| 0 <= t < k ==> nv[t].0 != id@,
        decreases v@.len() - k,
    {
        if str_eq(v[k].0.as_str(), id.as_str()) {
            assert(nv[k as int].0 == id@);
            return true;
        }
        k += 1;
    }
    false
}

/// The artists credited on the tracks: each id once with its first name.
pub fn artist_names_of(tracks: &Vec<TrackInfo>) -> (r: Vec<(String, String)>)
    ensures
        name_pairs(r@) == first_names(all_refs(tracks@)),
{
    let mut out: Vec<(String, String)> = Vec::new();
    let mut i: usize = 0;
    while i < tracks.len()
        invariant
            i <= tracks@.len(),
            name_pairs(out@) == first_names(all_refs(tracks@.subrange(0, i as int))),
        decreases tracks@.len() - i,
    {
        let t = &tracks[i];
        let ghost done = all_refs(tracks@.subrange(0, i as int));
        let ghost rs = refs_of(*t);
        assert(tracks@.subrange(0, i + 1).drop_last() =~= tracks@.subrange(0, i as int));
        assert(tracks@.subrange(0, i + 1).last() == *t);
        let mut j: usize = 0;
        while j < t.artist_refs.len()
            invariant
                j <= t.artist_refs@.len(),
                rs == refs_of(*t),
                name_pairs(out@) == first_names(done + t.artist_refs@.subrange(0, j as int).filter(
                    |a: ArtistRef| a.id is Some,
                ).map_values(|a: ArtistRef| (a.id->Some_0@, a.name@))),
            decreases t.artist_refs@.len() - j,
        {
            let a = &t.artist_refs[j];
            let ghost pre = t.artist_refs@.subrange(0, j as int);
            let ghost fpre = pre.filter(|a: ArtistRef| a.id is Some).map_values(|a: ArtistRef| (a.id->Some_0@, a.name@));
            assert(t.artist_refs@.subrange(0, j + 1).drop_last() =~= pre);
            assert(t.artist_refs@.subrange(0, j + 1).last() == *a);
            proof {
                reveal_with_fuel(Seq::filter, 1);
            }
            match &a.id {
                Some(id) => {
                    let ghost x = (id@, a.name@);
                    assert(t.artist_refs@.subrange(0, j + 1).filter(|a: ArtistRef| a.id is Some).map_values(
                        |a: ArtistRef| (a.id->Some_0@, a.name@),
                    ) =~= fpre.push(x));
                    assert(done + fpre.push(x) =~= (done + fpre).push(x));
                    assert((done + fpre).push(x).drop_last() =~= done + fpre);
                    if !find_id(&out, id) {
                        let ghost before = out@;
                        out.push((id.clone(), a.name.clone()));
                        assert(name_pairs(out@) =~= name_pairs(before).push(x));
                    }
                },
                None => {
                    assert(t.artist_refs@.subrange(0, j + 1).filter(|a: ArtistRef| a.id is Some).map_values(
                        |a: ArtistRef| (a.id->Some_0@, a.name@),
                    ) =~= fpre);
                },
            }
            j += 1;
        }
        assert(t.artist_refs@.subrange(0, t.artist_refs@.len() as int) =~= t.artist_refs@);
        i += 1;
    }
    assert(tracks@.subrange(0, tracks@.len() as int) =~= tracks@);
    out
}

/// Ids sort alphabetically.
pub open spec fn id_keys(names: Seq<(String, String)>) -> Seq<(Seq<char>, i64)> {
    names.map_values(|p: (String, String)| (p.0@, 0i64))
}

/// The ids to look up, alphabetically.
pub fn sorted_ids(names: &Vec<(String, String)>) -> (r: Vec<String>)
    ensures
        exists|perm: Seq<usize>|
            #[trigger] is_stable_text_order(id_keys(names@), perm)
                && r@.len() == perm.len() && forall|k: int| 0 <= k < r@.len() ==> (#[trigger] r@[k])@ == names@[perm[k] as int].0@,
{
    let ghost kv = id_keys(names@);
    let mut keys: Vec<(Vec<char>, i64)> = Vec::new();
    let mut k: usize = 0;
    while k < names.len()
        invariant
            k <= names@.len(),
            kv == id_keys(names@),
            text_key_views(keys@) == kv.subrange(0, k as int),
        decreases names@.len() - k,
    {
        let ghost before = keys@;
        keys.push((chars_of(names[k].0.as_str()), 0));
        assert(text_key_views(keys@) =~= text_key_views(before).push(kv[k as int]));
        assert(kv.subrange(0, k + 1) =~= kv.subrange(0, k as int).push(kv[k as int]));
        k += 1;
    }
    assert(kv.subrange(0, kv.len() as int) =~= kv);
    let perm = stable_text_order(&keys);
    let mut r: Vec<String> = Vec::new();
    let mut p: usize = 0;
    while p < perm.len()
        invariant
            p <= perm@.len(),
            is_stable_text_order(kv, perm@),
            kv.len() == names@.len(),
            r@.len() == p,
            forall|q: int| 0 <= q < p ==> (#[trigger] r@[q])@ == names@[perm@[q] as int].0@,
        decreases perm@.len() - p,
    {
        r.push(names[perm[p]].0.clone());
        p += 1;
    }
    r
}

} // verus!
