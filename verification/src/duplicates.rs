//! Duplicate Scanner: the same track more than once in one playlist, or
//! across several, by URI and optionally by normalized title + artist.
//! Removal is by URI, re-adding the copies the user chose to keep at the
//! positions they would have had.
use vstd::prelude::*;
use vstd::string::StringExecFns;

use crate::error::AppError;
use crate::models::str_eq;
use crate::order::{is_stable_text_order, stable_text_order, text_key_views};
use crate::text::{chars_of, lowercase_of, to_lowercase};
use crate::tracks::{copy_track, key_of, key_spec, track_view, TrackInfo, TrackView};

verus! {

#[derive(Debug, Clone)]
pub struct Occurrence {
    pub playlist_id: String,
    pub playlist_name: String,
    pub track: TrackInfo,
}

#[derive(Debug, Clone)]
pub struct DuplicateGroup {
    pub key: String,
    /// `uri` = identical Spotify track; `name` = same title + primary artist under different URIs.
    pub match_kind: &'static str,
    pub name: String,
    pub artists: String,
    pub occurrences: Vec<Occurrence>,
}

#[derive(Debug, Clone)]
pub struct DuplicateReport {
    pub mode: &'static str,
    pub playlists_scanned: usize,
    pub tracks_scanned: usize,
    pub groups: Vec<DuplicateGroup>,
}

pub type OccurrenceView = (Seq<char>, Seq<char>, TrackView);

pub open spec fn occurrence_view(o: Occurrence) -> OccurrenceView {
    (o.playlist_id@, o.playlist_name@, track_view(o.track))
}

pub open spec fn occurrence_views(os: Seq<Occurrence>) -> Seq<OccurrenceView> {
    os.map_values(|o: Occurrence| occurrence_view(o))
}

fn copy_occurrence(o: &Occurrence) -> (r: Occurrence)
    ensures
        occurrence_view(r) == occurrence_view(*o),
{
    Occurrence {
        playlist_id: o.playlist_id.clone(),
        playlist_name: o.playlist_name.clone(),
        track: copy_track(&o.track),
    }
}

// ---- collecting ------------------------------------------------------------------------

/// A scan needs at least one playlist.
pub fn check_selection(count: usize) -> (r: Result<(), AppError>)
    ensures
        r is Ok <==> count > 0,
        r matches Err(e) ==> (e matches AppError::Other(m) && m@ == "Pick at least one playlist."@),
{
    if count == 0 {
        return Err(AppError::Other(String::from_str("Pick at least one playlist.")));
    }
    Ok(())
}

/// The playable rows of one playlist, tagged with the playlist.
pub open spec fn tagged(id: Seq<char>, name: Seq<char>, tracks: Seq<TrackInfo>) -> Seq<OccurrenceView> {
    tracks.filter(|t: TrackInfo| t.playable).map_values(|t: TrackInfo| (id, name, track_view(t)))
}

pub fn occurrences_in(id: &str, name: &str, tracks: &Vec<TrackInfo>) -> (r: Vec<Occurrence>)
    ensures
        occurrence_views(r@) == tagged(id@, name@, tracks@),
{
    let mut r: Vec<Occurrence> = Vec::new();
    let mut k: usize = 0;
    while k < tracks.len()
        invariant
            k <= tracks@.len(),
            occurrence_views(r@) == tagged(id@, name@, tracks@.subrange(0, k as int)),
        decreases tracks@.len() - k,
    {
        let ghost pre = tracks@.subrange(0, k as int);
        let ghost before = r@;
        assert(tracks@.subrange(0, k + 1).drop_last() =~= pre);
        proof {
            reveal_with_fuel(Seq::filter, 1);
        }
        if tracks[k].playable {
            let o = Occurrence {
                playlist_id: String::from_str(id),
                playlist_name: String::from_str(name),
                track: copy_track(&tracks[k]),
            };
            r.push(o);
            proof {
                assert(occurrence_views(r@) =~= occurrence_views(before).push(occurrence_view(o)));
                assert(tracks@.subrange(0, k + 1).filter(|t: TrackInfo| t.playable) =~= pre.filter(
                    |t: TrackInfo| t.playable,
                ).push(tracks@[k as int]));
                assert(tagged(id@, name@, tracks@.subrange(0, k + 1)) =~= tagged(id@, name@, pre).push(
                    (id@, name@, track_view(tracks@[k as int])),
                ));
            }
        } else {
            assert(tracks@.subrange(0, k + 1).filter(|t: TrackInfo| t.playable) =~= pre.filter(
                |t: TrackInfo| t.playable,
            ));
        }
        k += 1;
    }
    assert(tracks@.subrange(0, tracks@.len() as int) =~= tracks@);
    r
}

// ---- grouping --------------------------------------------------------------------------

pub open spec fn occ_key(o: Occurrence, by_name: bool) -> Seq<char> {
    key_spec(o.track, by_name)
}

/// Keys in order of first appearance.
pub open spec fn distinct_keys(occ: Seq<Occurrence>, by_name: bool) -> Seq<Seq<char>>
    decreases occ.len(),
{
    if occ.len() == 0 {
        Seq::empty()
    } else {
        let prev = distinct_keys(occ.drop_last(), by_name);
        let k = occ_key(occ.last(), by_name);
        if prev.contains(k) {
            prev
        } else {
            prev.push(k)
        }
    }
}

/// Indices of the occurrences with key `k`, ascending.
pub open spec fn members(occ: Seq<Occurrence>, k: Seq<char>, by_name: bool) -> Seq<int>
    decreases occ.len(),
{
    if occ.len() == 0 {
        Seq::empty()
    } else {
        let prev = members(occ.drop_last(), k, by_name);
        if occ_key(occ.last(), by_name) == k {
            prev.push(occ.len() - 1)
        } else {
            prev
        }
    }
}

/// The members come from at least two playlists.
pub open spec fn spans_playlists(occ: Seq<Occurrence>, ms: Seq<int>) -> bool {
    exists|p: int, q: int|
        0 <= p < ms.len() && 0 <= q < ms.len() && occ[ms[p]].playlist_id@ != occ[ms[q]].playlist_id@
}

/// The members hold at least two different URIs.
pub open spec fn spans_uris(occ: Seq<Occurrence>, ms: Seq<int>) -> bool {
    exists|p: int, q: int|
        0 <= p < ms.len() && 0 <= q < ms.len() && occ[ms[p]].track.uri@ != occ[ms[q]].track.uri@
}

/// Across playlists a group must span two of them; within one, it needs two copies.
pub open spec fn qualifies(occ: Seq<Occurrence>, ms: Seq<int>, cross: bool) -> bool {
    if cross {
        spans_playlists(occ, ms)
    } else {
        ms.len() >= 2
    }
}

/// A group before ordering: key, kind (0 = name, 1 = uri, so that the kinds
/// sort as their names do) and member indices.
pub type Candidate = (Seq<char>, i64, Seq<int>);

pub open spec fn uri_candidates(occ: Seq<Occurrence>, cross: bool) -> Seq<Candidate> {
    distinct_keys(occ, false).filter(|k: Seq<char>| qualifies(occ, members(occ, k, false), cross)).map_values(
        |k: Seq<char>| (k, 1i64, members(occ, k, false)),
    )
}

pub open spec fn name_candidates(occ: Seq<Occurrence>, cross: bool) -> Seq<Candidate> {
    distinct_keys(occ, true).filter(
        |k: Seq<char>| spans_uris(occ, members(occ, k, true)) && qualifies(occ, members(occ, k, true), cross),
    ).map_values(|k: Seq<char>| (k, 0i64, members(occ, k, true)))
}

/// URI groups in order of first appearance, then (when matching by name)
/// name groups that are not just one URI.
pub open spec fn candidates(occ: Seq<Occurrence>, cross: bool, by_name: bool) -> Seq<Candidate> {
    uri_candidates(occ, cross) + if by_name {
        name_candidates(occ, cross)
    } else {
        Seq::empty()
    }
}

fn occ_keys(occ: &Vec<Occurrence>, by_name: bool) -> (r: Vec<String>)
    ensures
        r@.len() == occ@.len(),
        forall|i: int| 0 <= i < occ@.len() ==> (#[trigger] r@[i])@ == occ_key(occ@[i], by_name),
{
    let mut r: Vec<String> = Vec::new();
    let mut k: usize = 0;
    while k < occ.len()
        invariant
            k <= occ@.len(),
            r@.len() == k,
            forall|i: int| 0 <= i < k ==> (#[trigger] r@[i])@ == occ_key(occ@[i], by_name),
        decreases occ@.len() - k,
    {
        r.push(key_of(&occ[k].track, by_name));
        k += 1;
    }
    r
}

fn members_of(keys: &Vec<String>, k: &String, Ghost(occ): Ghost<Seq<Occurrence>>, Ghost(by_name): Ghost<bool>) -> (r: Vec<usize>)
    requires
        keys@.len() == occ.len(),
        forall|i: int| 0 <= i < occ.len() ==> (#[trigger] keys@[i])@ == occ_key(occ[i], by_name),
    ensures
        r@.map_values(|i: usize| i as int) == members(occ, k@, by_name),
        forall|j: int| 0 <= j < r@.len() ==> #[trigger] r@[j] < occ.len(),
{
    let mut r: Vec<usize> = Vec::new();
    let mut i: usize = 0;
    while i < keys.len()
        invariant
            i <= keys@.len(),
            keys@.len() == occ.len(),
            forall|t: int| 0 <= t < occ.len() ==> (#[trigger] keys@[t])@ == occ_key(occ[t], by_name),
            r@.map_values(|i: usize| i as int) == members(occ.subrange(0, i as int), k@, by_name),
            forall|j: int| 0 <= j < r@.len() ==> #[trigger] r@[j] < i,
        decreases keys@.len() - i,
    {
        let ghost pre = occ.subrange(0, i as int);
        let ghost before = r@;
        assert(occ.subrange(0, i + 1).drop_last() =~= pre);
        assert(occ.subrange(0, i + 1).last() == occ[i as int]);
        assert(keys@[i as int]@ == occ_key(occ[i as int], by_name));
        if str_eq(keys[i].as_str(), k.as_str()) {
            r.push(i);
            assert(r@.map_values(|i: usize| i as int) =~= before.map_values(|i: usize| i as int).push(i as int));
        }
        i += 1;
    }
    assert(occ.subrange(0, occ.len() as int) =~= occ);
    r
}

fn distinct_keys_of(keys: &Vec<String>, Ghost(occ): Ghost<Seq<Occurrence>>, Ghost(by_name): Ghost<bool>) -> (r: Vec<String>)
    requires
        keys@.len() == occ.len(),
        forall|i: int| 0 <= i < occ.len() ==> (#[trigger] keys@[i])@ == occ_key(occ[i], by_name),
    ensures
        r@.map_values(|s: String| s@) == distinct_keys(occ, by_name),
{
    let mut r: Vec<String> = Vec::new();
    let mut i: usize = 0;
    while i < keys.len()
        invariant
            i <= keys@.len(),
            keys@.len() == occ.len(),
            forall|t: int| 0 <= t < occ.len() ==> (#[trigger] keys@[t])@ == occ_key(occ[t], by_name),
            r@.map_values(|s: String| s@) == distinct_keys(occ.subrange(0, i as int), by_name),
        decreases keys@.len() - i,
    {
        let ghost pre = occ.subrange(0, i as int);
        let ghost before = r@;
        assert(occ.subrange(0, i + 1).drop_last() =~= pre);
        assert(occ.subrange(0, i + 1).last() == occ[i as int]);
        assert(keys@[i as int]@ == occ_key(occ[i as int], by_name));
        let mut found = false;
        let mut j: usize = 0;
        while j < r.len()
            invariant
                j <= r@.len(),
                i < keys@.len(),
                !found ==> forall|t: int| 0 <= t < j ==> (#[trigger] r@[t])@ != keys@[i as int]@,
                found ==> r@.map_values(|s: String| s@).contains(keys@[i as int]@),
            decreases r@.len() - j,
        {
            if str_eq(r[j].as_str(), keys[i].as_str()) {
                found = true;
                assert(r@.map_values(|s: String| s@)[j as int] == keys@[i as int]@);
            }
            j += 1;
        }
        if !found {
            let ghost rv = r@.map_values(|s: String| s@);
            assert(!rv.contains(keys@[i as int]@)) by {
                if rv.contains(keys@[i as int]@) {
                    let t = choose|t: int| 0 <= t < rv.len() && #[trigger] rv[t] == keys@[i as int]@;
                    assert(r@[t]@ != keys@[i as int]@);
                }
            }
            r.push(keys[i].clone());
            assert(r@.map_values(|s: String| s@) =~= before.map_values(|s: String| s@).push(keys@[i as int]@));
        }
        i += 1;
    }
    assert(occ.subrange(0, occ.len() as int) =~= occ);
    r
}

fn spans(occ: &Vec<Occurrence>, ms: &Vec<usize>, by_playlist: bool) -> (r: bool)
    requires
        forall|j: int| 0 <= j < ms@.len() ==> #[trigger] ms@[j] < occ@.len(),
    ensures
        by_playlist ==> r == spans_playlists(occ@, ms@.map_values(|i: usize| i as int)),
        !by_playlist ==> r == spans_uris(occ@, ms@.map_values(|i: usize| i as int)),
{
    let ghost mi = ms@.map_values(|i: usize| i as int);
    if ms.len() == 0 {
        return false;
    }
    let first = &occ[ms[0]];
    let mut j: usize = 1;
    while j < ms.len()
        invariant
            1 <= j <= ms@.len(),
            mi == ms@.map_values(|i: usize| i as int),
            forall|t: int| 0 <= t < ms@.len() ==> #[trigger] ms@[t] < occ@.len(),
            *first == occ@[ms@[0] as int],
            by_playlist ==> forall|t: int| 0 <= t < j ==> occ@[#[trigger] mi[t]].playlist_id@ == first.playlist_id@,
            !by_playlist ==> forall|t: int| 0 <= t < j ==> occ@[#[trigger] mi[t]].track.uri@ == first.track.uri@,
        decreases ms@.len() - j,
    {
        let o = &occ[ms[j]];
        let same = if by_playlist {
            str_eq(o.playlist_id.as_str(), first.playlist_id.as_str())
        } else {
            str_eq(o.track.uri.as_str(), first.track.uri.as_str())
        };
        if !same {
            assert(mi[j as int] == ms@[j as int] as int);
            assert(mi[0] == ms@[0] as int);
            return true;
        }
        j += 1;
    }
    proof {
        if by_playlist {
            assert forall|p: int, q: int| 0 <= p < mi.len() && 0 <= q < mi.len() implies occ@[mi[p]].playlist_id@
                == occ@[mi[q]].playlist_id@ by {
                assert(occ@[mi[p]].playlist_id@ == first.playlist_id@);
                assert(occ@[mi[q]].playlist_id@ == first.playlist_id@);
            }
        } else {
            assert forall|p: int, q: int| 0 <= p < mi.len() && 0 <= q < mi.len() implies occ@[mi[p]].track.uri@
                == occ@[mi[q]].track.uri@ by {
                assert(occ@[mi[p]].track.uri@ == first.track.uri@);
                assert(occ@[mi[q]].track.uri@ == first.track.uri@);
            }
        }
    }
    false
}

/// Every member index of every candidate is below `n`.
pub open spec fn indices_below(cs: Seq<(String, i64, Vec<usize>)>, n: int) -> bool {
    forall|j: int, t: int| 0 <= j < cs.len() && 0 <= t < cs[j].2@.len() ==> #[trigger] cs[j].2@[t] < n
}

/// A candidate group as values: key, kind and member indices.
pub open spec fn candidate_view(c: (String, i64, Vec<usize>)) -> Candidate {
    (c.0@, c.1, c.2@.map_values(|i: usize| i as int))
}

fn push_candidates(
    occ: &Vec<Occurrence>,
    cross: bool,
    by_name: bool,
    out: &mut Vec<(String, i64, Vec<usize>)>,
)
    requires
        indices_below(old(out)@, occ@.len() as int),
    ensures
        final(out)@.map_values(|c: (String, i64, Vec<usize>)| candidate_view(c)) == old(out)@.map_values(
            |c: (String, i64, Vec<usize>)| candidate_view(c),
        ) + if by_name {
            name_candidates(occ@, cross)
        } else {
            uri_candidates(occ@, cross)
        },
        indices_below(final(out)@, occ@.len() as int),
{
    let keys = occ_keys(occ, by_name);
    let distinct = distinct_keys_of(&keys, Ghost(occ@), Ghost(by_name));
    let ghost dk = distinct_keys(occ@, by_name);
    let ghost pred = if by_name {
        |k: Seq<char>| spans_uris(occ@, members(occ@, k, true)) && qualifies(occ@, members(occ@, k, true), cross)
    } else {
        |k: Seq<char>| qualifies(occ@, members(occ@, k, false), cross)
    };
    let ghost kind: i64 = if by_name {
        0
    } else {
        1
    };
    let ghost start = old(out)@.map_values(|c: (String, i64, Vec<usize>)| candidate_view(c));
    let mut d: usize = 0;
    while d < distinct.len()
        invariant
            d <= distinct@.len(),
            distinct@.map_values(|s: String| s@) == dk,
            dk == distinct_keys(occ@, by_name),
            keys@.len() == occ@.len(),
            forall|i: int| 0 <= i < occ@.len() ==> (#[trigger] keys@[i])@ == occ_key(occ@[i], by_name),
            pred == (if by_name {
                |k: Seq<char>| spans_uris(occ@, members(occ@, k, true)) && qualifies(occ@, members(occ@, k, true), cross)
            } else {
                |k: Seq<char>| qualifies(occ@, members(occ@, k, false), cross)
            }),
            kind == (if by_name { 0i64 } else { 1i64 }),
            out@.map_values(|c: (String, i64, Vec<usize>)| candidate_view(c)) == start + dk.subrange(0, d as int).filter(pred).map_values(
                |k: Seq<char>| (k, kind, members(occ@, k, by_name)),
            ),
            indices_below(out@, occ@.len() as int),
        decreases distinct@.len() - d,
    {
        let ghost pre = dk.subrange(0, d as int);
        let ghost before = out@;
        let ghost k = dk[d as int];
        assert(dk.subrange(0, d + 1).drop_last() =~= pre);
        assert(dk.subrange(0, d + 1).last() == k);
        assert(distinct@[d as int]@ == k);
        let ms = members_of(&keys, &distinct[d], Ghost(occ@), Ghost(by_name));
        let ghost mi = ms@.map_values(|i: usize| i as int);
        let ok = if by_name {
            spans(occ, &ms, false) && if cross {
                spans(occ, &ms, true)
            } else {
                ms.len() >= 2
            }
        } else if cross {
            spans(occ, &ms, true)
        } else {
            ms.len() >= 2
        };
        assert(ok == pred(k));
        proof {
            reveal_with_fuel(Seq::filter, 1);
        }
        if ok {
            let kind_now: i64 = if by_name {
                0
            } else {
                1
            };
            out.push((distinct[d].clone(), kind_now, ms));
            proof {
                assert(dk.subrange(0, d + 1).filter(pred) =~= pre.filter(pred).push(k));
                assert(out@.map_values(|c: (String, i64, Vec<usize>)| candidate_view(c)) =~= before.map_values(
                    |c: (String, i64, Vec<usize>)| candidate_view(c),
                ).push((k, kind, members(occ@, k, by_name))));
            }
        } else {
            assert(dk.subrange(0, d + 1).filter(pred) =~= pre.filter(pred));
        }
        d += 1;
    }
    assert(dk.subrange(0, dk.len() as int) =~= dk);
}

/// The candidate groups of a scan, in order.
pub fn candidate_groups(occ: &Vec<Occurrence>, cross: bool, by_name: bool) -> (r: Vec<(String, i64, Vec<usize>)>)
    ensures
        r@.map_values(|c: (String, i64, Vec<usize>)| candidate_view(c)) == candidates(occ@, cross, by_name),
        indices_below(r@, occ@.len() as int),
{
    let mut out: Vec<(String, i64, Vec<usize>)> = Vec::new();
    push_candidates(occ, cross, false, &mut out);
    assert(out@.map_values(|c: (String, i64, Vec<usize>)| candidate_view(c)) =~= uri_candidates(occ@, cross));
    if by_name {
        push_candidates(occ, cross, true, &mut out);
    } else {
        assert(uri_candidates(occ@, cross) + Seq::<Candidate>::empty() =~= uri_candidates(occ@, cross));
    }
    out
}

// ---- groups ----------------------------------------------------------------------------

/// How a group's occurrences are ordered: by playlist name, then position.
pub open spec fn member_keys(all: Seq<Occurrence>, ms: Seq<int>) -> Seq<(Seq<char>, i64)> {
    ms.map_values(|i: int| (all[i].playlist_name@, all[i].track.position))
}

pub open spec fn kind_name(kind: i64) -> Seq<char> {
    if kind == 0 {
        "name"@
    } else {
        "uri"@
    }
}

/// `g` is the group of the occurrences `ms` of `all` under `key`: those
/// occurrences in stable (playlist name, position) order, named after the
/// first of them.
pub open spec fn is_group(g: DuplicateGroup, all: Seq<Occurrence>, c: Candidate) -> bool {
    &&& g.key@ == c.0
    &&& g.match_kind@ == kind_name(c.1)
    &&& sorted_members(g.occurrences@, all, c.2)
    &&& c.2.len() > 0 ==> g.name@ == g.occurrences@[0].track.name@ && g.artists@ == g.occurrences@[0].track.artists@
}

/// `os` is the occurrences `ms` of `all` in stable (playlist name, position) order.
pub open spec fn sorted_members(os: Seq<Occurrence>, all: Seq<Occurrence>, ms: Seq<int>) -> bool {
    exists|perm: Seq<usize>|
        #[trigger] is_stable_text_order(member_keys(all, ms), perm) && os.len() == ms.len() && forall|j: int|
            0 <= j < ms.len() ==> occurrence_view(#[trigger] os[j]) == occurrence_view(all[ms[perm[j] as int]])
}

pub type GroupView = (Seq<char>, Seq<char>, Seq<char>, Seq<char>, Seq<OccurrenceView>);

pub open spec fn group_view(g: DuplicateGroup) -> GroupView {
    (g.key@, g.match_kind@, g.name@, g.artists@, occurrence_views(g.occurrences@))
}

fn kind_str(kind: i64) -> (r: &'static str)
    ensures
        r@ == kind_name(kind),
{
    if kind == 0 {
        "name"
    } else {
        "uri"
    }
}

/// The group of the occurrences at `idxs`.
pub fn make_group(key: String, kind: i64, idxs: &Vec<usize>, all: &Vec<Occurrence>) -> (g: DuplicateGroup)
    requires
        idxs@.len() > 0,
        forall|j: int| 0 <= j < idxs@.len() ==> #[trigger] idxs@[j] < all@.len(),
    ensures
        is_group(g, all@, (key@, kind, idxs@.map_values(|i: usize| i as int))),
{
    let ghost ms = idxs@.map_values(|i: usize| i as int);
    let mut keys: Vec<(Vec<char>, i64)> = Vec::new();
    let mut k: usize = 0;
    while k < idxs.len()
        invariant
            k <= idxs@.len(),
            ms == idxs@.map_values(|i: usize| i as int),
            forall|j: int| 0 <= j < idxs@.len() ==> #[trigger] idxs@[j] < all@.len(),
            text_key_views(keys@) == member_keys(all@, ms).subrange(0, k as int),
        decreases idxs@.len() - k,
    {
        let o = &all[idxs[k]];
        let ghost before = keys@;
        let name_chars = chars_of(o.playlist_name.as_str());
        assert(name_chars@ == all@[ms[k as int]].playlist_name@);
        keys.push((name_chars, o.track.position));
        assert(text_key_views(keys@) =~= text_key_views(before).push((all@[ms[k as int]].playlist_name@, all@[ms[k as int]].track.position)));
        k += 1;
        assert(text_key_views(keys@) =~= member_keys(all@, ms).subrange(0, k as int));
    }
    assert(text_key_views(keys@) =~= member_keys(all@, ms));
    let perm = stable_text_order(&keys);
    let mut occ: Vec<Occurrence> = Vec::new();
    let mut p: usize = 0;
    while p < perm.len()
        invariant
            p <= perm@.len(),
            ms == idxs@.map_values(|i: usize| i as int),
            forall|j: int| 0 <= j < idxs@.len() ==> #[trigger] idxs@[j] < all@.len(),
            is_stable_text_order(member_keys(all@, ms), perm@),
            occ@.len() == p,
            forall|j: int| 0 <= j < p ==> occurrence_view(#[trigger] occ@[j]) == occurrence_view(all@[ms[perm@[j] as int]]),
        decreases perm@.len() - p,
    {
        assert(perm@[p as int] < ms.len());
        let o = copy_occurrence(&all[idxs[perm[p]]]);
        occ.push(o);
        p += 1;
    }
    let name = occ[0].track.name.clone();
    let artists = occ[0].track.artists.clone();
    let g = DuplicateGroup { key, match_kind: kind_str(kind), name, artists, occurrences: occ };
    assert(is_stable_text_order(member_keys(all@, ms), perm@) && g.occurrences@.len() == ms.len() && forall|j: int|
        0 <= j < ms.len() ==> occurrence_view(#[trigger] g.occurrences@[j]) == occurrence_view(all@[ms[perm@[j] as int]]));
    assert(g.key@ == key@);
    assert(g.match_kind@ == kind_name(kind));
    assert(g.name@ == g.occurrences@[0].track.name@);
    assert(g.artists@ == g.occurrences@[0].track.artists@);
    assert(sorted_members(g.occurrences@, all@, ms));
    g
}

fn copy_group(g: &DuplicateGroup) -> (r: DuplicateGroup)
    ensures
        group_view(r) == group_view(*g),
        r.occurrences@.len() == g.occurrences@.len(),
{
    let mut occ: Vec<Occurrence> = Vec::new();
    let mut k: usize = 0;
    while k < g.occurrences.len()
        invariant
            k <= g.occurrences@.len(),
            occ@.len() == k,
            forall|j: int| 0 <= j < k ==> occurrence_view(#[trigger] occ@[j]) == occurrence_view(g.occurrences@[j]),
        decreases g.occurrences@.len() - k,
    {
        occ.push(copy_occurrence(&g.occurrences[k]));
        k += 1;
    }
    assert(occurrence_views(occ@) =~= occurrence_views(g.occurrences@));
    DuplicateGroup {
        key: g.key.clone(),
        match_kind: g.match_kind,
        name: g.name.clone(),
        artists: g.artists.clone(),
        occurrences: occ,
    }
}

/// How groups are listed: by lower-cased name, then kind ("name" before "uri").
pub open spec fn group_keys(gs: Seq<DuplicateGroup>, cs: Seq<Candidate>) -> Seq<(Seq<char>, i64)> {
    Seq::new(gs.len(), |i: int| (lowercase_of(gs[i].name@), cs[i].1))
}

/// The duplicate groups among `occ`: every candidate group, built and then
/// listed by lower-cased name and kind (ties in candidate order).
pub open spec fn groups_spec(occ: Seq<Occurrence>, cross: bool, by_name: bool, out: Seq<DuplicateGroup>) -> bool {
    let cs = candidates(occ, cross, by_name);
    exists|gs: Seq<DuplicateGroup>, perm: Seq<usize>|
        #![trigger group_keys(gs, cs), is_stable_text_order(group_keys(gs, cs), perm)]
        {
            &&& gs.len() == cs.len()
            &&& forall|i: int| 0 <= i < cs.len() ==> is_group(#[trigger] gs[i], occ, cs[i])
            &&& is_stable_text_order(group_keys(gs, cs), perm)
            &&& out.len() == gs.len()
            &&& forall|j: int| 0 <= j < out.len() ==> group_view(#[trigger] out[j]) == group_view(gs[perm[j] as int])
        }
}

proof fn lemma_members_nonempty(occ: Seq<Occurrence>, k: Seq<char>, by_name: bool)
    requires
        distinct_keys(occ, by_name).contains(k),
    ensures
        members(occ, k, by_name).len() > 0,
    decreases occ.len(),
{
    if occ.len() > 0 {
        let prev = distinct_keys(occ.drop_last(), by_name);
        if prev.contains(k) {
            lemma_members_nonempty(occ.drop_last(), k, by_name);
        }
    }
}

proof fn lemma_candidates_nonempty(occ: Seq<Occurrence>, cross: bool, by_name: bool)
    ensures
        forall|i: int| 0 <= i < candidates(occ, cross, by_name).len() ==> (#[trigger] candidates(occ, cross, by_name)[i]).2.len() > 0,
{
    let cs = candidates(occ, cross, by_name);
    let uk = distinct_keys(occ, false).filter(|k: Seq<char>| qualifies(occ, members(occ, k, false), cross));
    let nk = distinct_keys(occ, true).filter(
        |k: Seq<char>| spans_uris(occ, members(occ, k, true)) && qualifies(occ, members(occ, k, true), cross),
    );
    assert forall|i: int| 0 <= i < cs.len() implies (#[trigger] cs[i]).2.len() > 0 by {
        let u = uri_candidates(occ, cross);
        if i < u.len() {
            let k = uk[i];
            assert(uk.contains(k));
            distinct_keys(occ, false).lemma_filter_contains_rev(|k: Seq<char>| qualifies(occ, members(occ, k, false), cross), k);
            lemma_members_nonempty(occ, k, false);
        } else {
            let k = nk[i - u.len()];
            assert(nk.contains(k));
            distinct_keys(occ, true).lemma_filter_contains_rev(
                |k: Seq<char>| spans_uris(occ, members(occ, k, true)) && qualifies(occ, members(occ, k, true), cross),
                k,
            );
            lemma_members_nonempty(occ, k, true);
        }
    }
}

/// Every duplicate group among the occurrences, in listing order.
pub fn find_groups(occ: &Vec<Occurrence>, cross: bool, by_name: bool) -> (out: Vec<DuplicateGroup>)
    ensures
        groups_spec(occ@, cross, by_name, out@),
{
    let cands = candidate_groups(occ, cross, by_name);
    let ghost cs = candidates(occ@, cross, by_name);
    proof {
        lemma_candidates_nonempty(occ@, cross, by_name);
    }
    let mut gs: Vec<DuplicateGroup> = Vec::new();
    let mut keys: Vec<(Vec<char>, i64)> = Vec::new();
    let mut i: usize = 0;
    while i < cands.len()
        invariant
            i <= cands@.len(),
            cands@.map_values(|c: (String, i64, Vec<usize>)| candidate_view(c)) == cs,
            cs == candidates(occ@, cross, by_name),
            indices_below(cands@, occ@.len() as int),
            forall|t: int| 0 <= t < cs.len() ==> (#[trigger] cs[t]).2.len() > 0,
            gs@.len() == i,
            keys@.len() == i,
            forall|t: int| 0 <= t < i ==> is_group(#[trigger] gs@[t], occ@, cs[t]),
            text_key_views(keys@) == group_keys(gs@, cs),
        decreases cands@.len() - i,
    {
        let c = &cands[i];
        assert(candidate_view(cands@[i as int]) == cs[i as int]);
        assert forall|j: int| 0 <= j < c.2@.len() implies #[trigger] c.2@[j] < occ@.len() by {
            assert(cands@[i as int].2@[j] < occ@.len());
        }
        let g = make_group(c.0.clone(), c.1, &c.2, occ);
        let lower = to_lowercase(g.name.as_str());
        let ghost keys_before = keys@;
        let ghost gs_before = gs@;
        keys.push((chars_of(lower.as_str()), c.1));
        gs.push(g);
        proof {
            assert(text_key_views(keys@) =~= text_key_views(keys_before).push((lowercase_of(g.name@), cs[i as int].1)));
            assert forall|t: int| 0 <= t < i implies #[trigger] group_keys(gs@, cs)[t] == group_keys(gs_before, cs)[t] by {
                assert(gs@[t] == gs_before[t]);
            }
            assert(group_keys(gs@, cs) =~= group_keys(gs_before, cs).push((lowercase_of(g.name@), cs[i as int].1)));
        }
        i += 1;
    }
    let perm = stable_text_order(&keys);
    let mut out: Vec<DuplicateGroup> = Vec::new();
    let mut p: usize = 0;
    while p < perm.len()
        invariant
            p <= perm@.len(),
            is_stable_text_order(group_keys(gs@, cs), perm@),
            gs@.len() == cs.len(),
            out@.len() == p,
            forall|j: int| 0 <= j < p ==> group_view(#[trigger] out@[j]) == group_view(gs@[perm@[j] as int]),
        decreases perm@.len() - p,
    {
        out.push(copy_group(&gs[perm[p]]));
        p += 1;
    }
    assert(cs.len() == cands@.len());
    out
}

/// The scan's report: several playlists are compared with each other, one
/// playlist with itself.
pub fn scan_report(selected: usize, occ: &Vec<Occurrence>, match_by_name: bool) -> (r: DuplicateReport)
    ensures
        r.mode@ == (if selected > 1 { "cross"@ } else { "single"@ }),
        r.playlists_scanned == selected,
        r.tracks_scanned == occ@.len(),
        groups_spec(occ@, selected > 1, match_by_name, r.groups@),
{
    let cross = selected > 1;
    let groups = find_groups(occ, cross, match_by_name);
    DuplicateReport {
        mode: if cross {
            "cross"
        } else {
            "single"
        },
        playlists_scanned: selected,
        tracks_scanned: occ.len(),
        groups,
    }
}

// ---- removal -----------------------------------------------------------------------------

/// One playlist × one URI: which API positions to remove.
#[derive(Debug, Clone)]
pub struct RemovalRequest {
    pub playlist_id: String,
    pub uri: String,
    pub positions: Vec<i64>,
}

#[derive(Debug, Clone)]
pub struct RemovalSummary {
    pub removed: usize,
    pub re_added: usize,
    pub playlists: usize,
}

/// Texts in order of first appearance, each once.
pub open spec fn dedup_spec(s: Seq<Seq<char>>) -> Seq<Seq<char>>
    decreases s.len(),
{
    if s.len() == 0 {
        Seq::empty()
    } else {
        let prev = dedup_spec(s.drop_last());
        if prev.contains(s.last()) {
            prev
        } else {
            prev.push(s.last())
        }
    }
}

pub open spec fn string_views(v: Seq<String>) -> Seq<Seq<char>> {
    v.map_values(|s: String| s@)
}

fn contains_text(list: &Vec<String>, s: &String) -> (r: bool)
    ensures
        r == string_views(list@).contains(s@),
{
    let ghost v = string_views(list@);
    let mut k: usize = 0;
    while k < list.len()
        invariant
            k <= list@.len(),
            v == string_views(list@),
            forall|t: int| 0 <= t < k ==> v[t] != s@,
        decreases list@.len() - k,
    {
        if str_eq(list[k].as_str(), s.as_str()) {
            assert(v[k as int] == s@);
            return true;
        }
        k += 1;
    }
    false
}

fn dedup_strings(v: &Vec<String>) -> (r: Vec<String>)
    ensures
        string_views(r@) == dedup_spec(string_views(v@)),
{
    let ghost sv = string_views(v@);
    let mut r: Vec<String> = Vec::new();
    let mut i: usize = 0;
    while i < v.len()
        invariant
            i <= v@.len(),
            sv == string_views(v@),
            string_views(r@) == dedup_spec(sv.subrange(0, i as int)),
        decreases v@.len() - i,
    {
        let ghost pre = sv.subrange(0, i as int);
        let ghost before = r@;
        assert(sv.subrange(0, i + 1).drop_last() =~= pre);
        assert(sv.subrange(0, i + 1).last() == v@[i as int]@);
        if !contains_text(&r, &v[i]) {
            r.push(v[i].clone());
            assert(string_views(r@) =~= string_views(before).push(v@[i as int]@));
        }
        i += 1;
    }
    assert(sv.subrange(0, v@.len() as int) =~= sv);
    r
}

/// The playlists a batch of requests touches, in order of first appearance.
pub open spec fn request_playlists(reqs: Seq<RemovalRequest>) -> Seq<Seq<char>> {
    dedup_spec(reqs.map_values(|r: RemovalRequest| r.playlist_id@))
}

pub fn removal_playlists(reqs: &Vec<RemovalRequest>) -> (r: Vec<String>)
    ensures
        string_views(r@) == request_playlists(reqs@),
{
    let mut ids: Vec<String> = Vec::new();
    let mut k: usize = 0;
    while k < reqs.len()
        invariant
            k <= reqs@.len(),
            string_views(ids@) == reqs@.subrange(0, k as int).map_values(|r: RemovalRequest| r.playlist_id@),
        decreases reqs@.len() - k,
    {
        let ghost before = ids@;
        ids.push(reqs[k].playlist_id.clone());
        assert(string_views(ids@) =~= string_views(before).push(reqs@[k as int].playlist_id@));
        assert(reqs@.subrange(0, k + 1) =~= reqs@.subrange(0, k as int).push(reqs@[k as int]));
        k += 1;
        assert(string_views(ids@) =~= reqs@.subrange(0, k as int).map_values(|r: RemovalRequest| r.playlist_id@));
    }
    assert(reqs@.subrange(0, reqs@.len() as int) =~= reqs@);
    dedup_strings(&ids)
}

/// The URIs requested for one playlist, in order of first appearance.
pub open spec fn request_uris(reqs: Seq<RemovalRequest>, pid: Seq<char>) -> Seq<Seq<char>> {
    dedup_spec(reqs.filter(|r: RemovalRequest| r.playlist_id@ == pid).map_values(|r: RemovalRequest| r.uri@))
}

pub fn removal_uris(reqs: &Vec<RemovalRequest>, pid: &str) -> (r: Vec<String>)
    ensures
        string_views(r@) == request_uris(reqs@, pid@),
{
    let mut uris: Vec<String> = Vec::new();
    let mut k: usize = 0;
    while k < reqs.len()
        invariant
            k <= reqs@.len(),
            string_views(uris@) == reqs@.subrange(0, k as int).filter(|r: RemovalRequest| r.playlist_id@ == pid@).map_values(
                |r: RemovalRequest| r.uri@,
            ),
        decreases reqs@.len() - k,
    {
        let ghost pre = reqs@.subrange(0, k as int);
        let ghost before = uris@;
        assert(reqs@.subrange(0, k + 1).drop_last() =~= pre);
        proof {
            reveal_with_fuel(Seq::filter, 1);
        }
        if str_eq(reqs[k].playlist_id.as_str(), pid) {
            uris.push(reqs[k].uri.clone());
            assert(reqs@.subrange(0, k + 1).filter(|r: RemovalRequest| r.playlist_id@ == pid@) =~= pre.filter(
                |r: RemovalRequest| r.playlist_id@ == pid@,
            ).push(reqs@[k as int]));
            assert(string_views(uris@) =~= string_views(before).push(reqs@[k as int].uri@));
        } else {
            assert(reqs@.subrange(0, k + 1).filter(|r: RemovalRequest| r.playlist_id@ == pid@) =~= pre.filter(
                |r: RemovalRequest| r.playlist_id@ == pid@,
            ));
        }
        k += 1;
    }
    assert(reqs@.subrange(0, reqs@.len() as int) =~= reqs@);
    dedup_strings(&uris)
}

/// Some request for playlist `pid` names `uri`.
pub open spec fn wanted(reqs: Seq<RemovalRequest>, pid: Seq<char>, uri: Seq<char>) -> bool {
    exists|i: int| 0 <= i < reqs.len() && #[trigger] reqs[i].playlist_id@ == pid && reqs[i].uri@ == uri
}

/// Some request for playlist `pid` asks to remove `uri` at `pos`.
pub open spec fn marked(reqs: Seq<RemovalRequest>, pid: Seq<char>, uri: Seq<char>, pos: i64) -> bool {
    exists|i: int|
        0 <= i < reqs.len() && #[trigger] reqs[i].playlist_id@ == pid && reqs[i].uri@ == uri
            && reqs[i].positions@.contains(pos)
}

/// Walking a playlist's rows: marked copies are removed; the other copies
/// of a requested URI go when the URI is removed and are added back at the
/// index they had among the rows that stay; every other row stays.
/// Result: copies removed, rows staying, and the (index, URI) re-additions.
pub open spec fn removal_plan(entries: Seq<TrackInfo>, reqs: Seq<RemovalRequest>, pid: Seq<char>) -> (nat, nat, Seq<(int, Seq<char>)>)
    decreases entries.len(),
{
    if entries.len() == 0 {
        (0, 0, Seq::empty())
    } else {
        let (removed, stay, adds) = removal_plan(entries.drop_last(), reqs, pid);
        let e = entries.last();
        if wanted(reqs, pid, e.uri@) {
            if marked(reqs, pid, e.uri@, e.position) {
                (removed + 1, stay, adds)
            } else {
                (removed, stay + 1, adds.push((stay as int, e.uri@)))
            }
        } else {
            (removed, stay + 1, adds)
        }
    }
}

fn is_wanted(reqs: &Vec<RemovalRequest>, pid: &str, uri: &str) -> (r: bool)
    ensures
        r == wanted(reqs@, pid@, uri@),
{
    let mut k: usize = 0;
    while k < reqs.len()
        invariant
            k <= reqs@.len(),
            forall|t: int| 0 <= t < k ==> !(#[trigger] reqs@[t].playlist_id@ == pid@ && reqs@[t].uri@ == uri@),
        decreases reqs@.len() - k,
    {
        if str_eq(reqs[k].playlist_id.as_str(), pid) && str_eq(reqs[k].uri.as_str(), uri) {
            return true;
        }
        k += 1;
    }
    false
}

fn has_position(ps: &Vec<i64>, pos: i64) -> (r: bool)
    ensures
        r == ps@.contains(pos),
{
    let mut j: usize = 0;
    while j < ps.len()
        invariant
            j <= ps@.len(),
            forall|t: int| 0 <= t < j ==> ps@[t] != pos,
        decreases ps@.len() - j,
    {
        if ps[j] == pos {
            assert(ps@[j as int] == pos);
            return true;
        }
        j += 1;
    }
    false
}

fn is_marked(reqs: &Vec<RemovalRequest>, pid: &str, uri: &str, pos: i64) -> (r: bool)
    ensures
        r == marked(reqs@, pid@, uri@, pos),
{
    let mut k: usize = 0;
    while k < reqs.len()
        invariant
            k <= reqs@.len(),
            forall|t: int|
                0 <= t < k ==> !(#[trigger] reqs@[t].playlist_id@ == pid@ && reqs@[t].uri@ == uri@
                    && reqs@[t].positions@.contains(pos)),
        decreases reqs@.len() - k,
    {
        let r = &reqs[k];
        if str_eq(r.playlist_id.as_str(), pid) && str_eq(r.uri.as_str(), uri) && has_position(&r.positions, pos) {
            return true;
        }
        k += 1;
    }
    false
}

/// The removal plan of one playlist, from its rows as fetched (in position
/// order): how many copies go, and where the kept copies of requested URIs
/// are added back, in order.
pub fn plan_removal(entries: &Vec<TrackInfo>, reqs: &Vec<RemovalRequest>, pid: &str) -> (r: (usize, Vec<(usize, String)>))
    ensures
        r.0 == removal_plan(entries@, reqs@, pid@).0,
        r.1@.map_values(|a: (usize, String)| (a.0 as int, a.1@)) == removal_plan(entries@, reqs@, pid@).2,
{
    let mut removed: usize = 0;
    let mut stay: usize = 0;
    let mut adds: Vec<(usize, String)> = Vec::new();
    let mut i: usize = 0;
    while i < entries.len()
        invariant
            i <= entries@.len(),
            removed + stay == i,
            ({
                let p = removal_plan(entries@.subrange(0, i as int), reqs@, pid@);
                &&& removed == p.0
                &&& stay == p.1
                &&& adds@.map_values(|a: (usize, String)| (a.0 as int, a.1@)) == p.2
            }),
        decreases entries@.len() - i,
    {
        let ghost pre = entries@.subrange(0, i as int);
        let ghost before = adds@;
        assert(entries@.subrange(0, i + 1).drop_last() =~= pre);
        assert(entries@.subrange(0, i + 1).last() == entries@[i as int]);
        let e = &entries[i];
        if is_wanted(reqs, pid, e.uri.as_str()) {
            if is_marked(reqs, pid, e.uri.as_str(), e.position) {
                removed += 1;
            } else {
                adds.push((stay, e.uri.clone()));
                assert(adds@.map_values(|a: (usize, String)| (a.0 as int, a.1@)) =~= before.map_values(
                    |a: (usize, String)| (a.0 as int, a.1@),
                ).push((stay as int, e.uri@)));
                stay += 1;
            }
        } else {
            stay += 1;
        }
        i += 1;
    }
    assert(entries@.subrange(0, entries@.len() as int) =~= entries@);
    (removed, adds)
}


/// The rows a playlist keeps: every row but the marked copies.
pub open spec fn kept_rows(entries: Seq<TrackInfo>, reqs: Seq<RemovalRequest>, pid: Seq<char>) -> Seq<Seq<char>>
    decreases entries.len(),
{
    if entries.len() == 0 {
        Seq::empty()
    } else {
        let prev = kept_rows(entries.drop_last(), reqs, pid);
        let e = entries.last();
        if wanted(reqs, pid, e.uri@) && marked(reqs, pid, e.uri@, e.position) {
            prev
        } else {
            prev.push(e.uri@)
        }
    }
}

/// The rows left after removing every copy of each requested URI.
pub open spec fn untouched_rows(entries: Seq<TrackInfo>, reqs: Seq<RemovalRequest>, pid: Seq<char>) -> Seq<Seq<char>>
    decreases entries.len(),
{
    if entries.len() == 0 {
        Seq::empty()
    } else {
        let prev = untouched_rows(entries.drop_last(), reqs, pid);
        let e = entries.last();
        if wanted(reqs, pid, e.uri@) {
            prev
        } else {
            prev.push(e.uri@)
        }
    }
}

/// The playlist after each (index, URI) addition in turn.
pub open spec fn apply_adds(rows: Seq<Seq<char>>, adds: Seq<(int, Seq<char>)>) -> Seq<Seq<char>>
    decreases adds.len(),
{
    if adds.len() == 0 {
        rows
    } else {
        apply_adds(rows, adds.drop_last()).insert(adds.last().0, adds.last().1)
    }
}

proof fn lemma_stay_counts_kept(entries: Seq<TrackInfo>, reqs: Seq<RemovalRequest>, pid: Seq<char>)
    ensures
        removal_plan(entries, reqs, pid).1 == kept_rows(entries, reqs, pid).len(),
    decreases entries.len(),
{
    if entries.len() > 0 {
        lemma_stay_counts_kept(entries.drop_last(), reqs, pid);
    }
}

proof fn lemma_adds_rebuild(entries: Seq<TrackInfo>, reqs: Seq<RemovalRequest>, pid: Seq<char>, tail: Seq<Seq<char>>)
    ensures
        apply_adds(untouched_rows(entries, reqs, pid) + tail, removal_plan(entries, reqs, pid).2) == kept_rows(
            entries,
            reqs,
            pid,
        ) + tail,
    decreases entries.len(),
{
    if entries.len() == 0 {
        assert(Seq::<Seq<char>>::empty() + tail =~= tail);
    } else {
        let q = entries.drop_last();
        let e = entries.last();
        let u = untouched_rows(q, reqs, pid);
        let k = kept_rows(q, reqs, pid);
        if !wanted(reqs, pid, e.uri@) {
            lemma_adds_rebuild(q, reqs, pid, seq![e.uri@] + tail);
            assert(u.push(e.uri@) + tail =~= u + (seq![e.uri@] + tail));
            assert(k.push(e.uri@) + tail =~= k + (seq![e.uri@] + tail));
        } else if marked(reqs, pid, e.uri@, e.position) {
            lemma_adds_rebuild(q, reqs, pid, tail);
        } else {
            lemma_adds_rebuild(q, reqs, pid, tail);
            lemma_stay_counts_kept(q, reqs, pid);
            let adds = removal_plan(entries, reqs, pid).2;
            assert(adds.drop_last() == removal_plan(q, reqs, pid).2);
            assert((k + tail).insert(k.len() as int, e.uri@) =~= k.push(e.uri@) + tail);
        }
    }
}

/// Removing every copy of the requested URIs and then making the planned
/// additions in order leaves exactly the playlist without the marked
/// copies: each kept copy lands back where it was among the rows that stay.
pub proof fn readding_restores_the_kept_copies(entries: Seq<TrackInfo>, reqs: Seq<RemovalRequest>, pid: Seq<char>)
    ensures
        apply_adds(untouched_rows(entries, reqs, pid), removal_plan(entries, reqs, pid).2) == kept_rows(
            entries,
            reqs,
            pid,
        ),
{
    lemma_adds_rebuild(entries, reqs, pid, Seq::empty());
    assert(untouched_rows(entries, reqs, pid) + Seq::<Seq<char>>::empty() =~= untouched_rows(entries, reqs, pid));
    assert(kept_rows(entries, reqs, pid) + Seq::<Seq<char>>::empty() =~= kept_rows(entries, reqs, pid));
}

} // verus!
