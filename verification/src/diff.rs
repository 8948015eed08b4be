//! Playlist Diff: three-way breakdown of two playlists.
use vstd::prelude::*;
use vstd::string::StringExecFns;

use crate::error::AppError;
use crate::models::str_eq;
use crate::tracks::{copy_track, key_of, key_spec, track_view, track_views, TrackInfo, TrackView};

verus! {

#[derive(Debug, Clone)]
pub struct PlaylistRef {
    pub id: String,
    pub name: String,
}

#[derive(Debug, Clone)]
pub struct DiffPair {
    pub a: TrackInfo,
    pub b: TrackInfo,
    /// Same song under different URIs (only possible with name matching).
    pub different_uri: bool,
}

#[derive(Debug, Clone)]
pub struct DiffResult {
    pub a: PlaylistRef,
    pub b: PlaylistRef,
    pub match_by_name: bool,
    pub only_a: Vec<TrackInfo>,
    pub only_b: Vec<TrackInfo>,
    pub both: Vec<DiffPair>,
}

/// Some playable row of `ts` has key `k`.
pub open spec fn has_key(ts: Seq<TrackInfo>, k: Seq<char>, by_name: bool) -> bool {
    exists|j: int| 0 <= j < ts.len() && ts[j].playable && #[trigger] key_spec(ts[j], by_name) == k
}

/// `j` is the first playable row of `ts` with key `k`.
pub open spec fn first_key_at(ts: Seq<TrackInfo>, k: Seq<char>, by_name: bool, j: int) -> bool {
    &&& 0 <= j < ts.len()
    &&& ts[j].playable
    &&& key_spec(ts[j], by_name) == k
    &&& forall|t: int| 0 <= t < j ==> !(ts[t].playable && #[trigger] key_spec(ts[t], by_name) == k)
}

pub open spec fn first_key(ts: Seq<TrackInfo>, k: Seq<char>, by_name: bool) -> int {
    choose|j: int| first_key_at(ts, k, by_name, j)
}

proof fn lemma_first_key_unique(ts: Seq<TrackInfo>, k: Seq<char>, by_name: bool, j: int)
    requires
        first_key_at(ts, k, by_name, j),
    ensures
        first_key(ts, k, by_name) == j,
{
    let c = first_key(ts, k, by_name);
    assert(first_key_at(ts, k, by_name, c));
    if c < j {
        assert(key_spec(ts[c], by_name) == k);
    } else if j < c {
        assert(key_spec(ts[j], by_name) == k);
    }
}

/// Playable rows of `a` with no counterpart in `b`, in `a`'s order.
pub open spec fn only_in(a: Seq<TrackInfo>, b: Seq<TrackInfo>, by_name: bool) -> Seq<TrackInfo> {
    a.filter(|t: TrackInfo| t.playable && !has_key(b, key_spec(t, by_name), by_name))
}

/// Playable rows of `a` that have a counterpart in `b`, in `a`'s order.
pub open spec fn matched_in(a: Seq<TrackInfo>, b: Seq<TrackInfo>, by_name: bool) -> Seq<TrackInfo> {
    a.filter(|t: TrackInfo| t.playable && has_key(b, key_spec(t, by_name), by_name))
}

pub type PairView = (TrackView, TrackView, bool);

/// A row of `a` beside the first playable row of `b` with its key.
pub open spec fn pair_with(t: TrackInfo, b: Seq<TrackInfo>, by_name: bool) -> PairView {
    let other = b[first_key(b, key_spec(t, by_name), by_name)];
    (track_view(t), track_view(other), other.uri@ != t.uri@)
}

pub open spec fn pairs_spec(a: Seq<TrackInfo>, b: Seq<TrackInfo>, by_name: bool) -> Seq<PairView> {
    matched_in(a, b, by_name).map_values(|t: TrackInfo| pair_with(t, b, by_name))
}

pub open spec fn pair_views(ps: Seq<DiffPair>) -> Seq<PairView> {
    ps.map_values(|p: DiffPair| (track_view(p.a), track_view(p.b), p.different_uri))
}

fn keys_of(ts: &Vec<TrackInfo>, by_name: bool) -> (r: Vec<String>)
    ensures
        r@.len() == ts@.len(),
        forall|i: int| 0 <= i < ts@.len() ==> (#[trigger] r@[i])@ == key_spec(ts@[i], by_name),
{
    let mut r: Vec<String> = Vec::new();
    let mut k: usize = 0;
    while k < ts.len()
        invariant
            k <= ts@.len(),
            r@.len() == k,
            forall|i: int| 0 <= i < k ==> (#[trigger] r@[i])@ == key_spec(ts@[i], by_name),
        decreases ts@.len() - k,
    {
        r.push(key_of(&ts[k], by_name));
        k += 1;
    }
    r
}

fn find_key(ts: &Vec<TrackInfo>, keys: &Vec<String>, k: &String, Ghost(by_name): Ghost<bool>) -> (r: Option<usize>)
    requires
        keys@.len() == ts@.len(),
        forall|i: int| 0 <= i < ts@.len() ==> (#[trigger] keys@[i])@ == key_spec(ts@[i], by_name),
    ensures
        match r {
            Some(j) => first_key_at(ts@, k@, by_name, j as int),
            None => !has_key(ts@, k@, by_name),
        },
{
    let mut j: usize = 0;
    while j < ts.len()
        invariant
            j <= ts@.len(),
            keys@.len() == ts@.len(),
            forall|i: int| 0 <= i < ts@.len() ==> (#[trigger] keys@[i])@ == key_spec(ts@[i], by_name),
            forall|t: int| 0 <= t < j ==> !(ts@[t].playable && #[trigger] key_spec(ts@[t], by_name) == k@),
        decreases ts@.len() - j,
    {
        if ts[j].playable && str_eq(keys[j].as_str(), k.as_str()) {
            assert(keys@[j as int]@ == key_spec(ts@[j as int], by_name));
            return Some(j);
        }
        assert(keys@[j as int]@ == key_spec(ts@[j as int], by_name));
        j += 1;
    }
    assert forall|t: int| 0 <= t < ts@.len() && ts@[t].playable implies #[trigger] key_spec(ts@[t], by_name) != k@ by {}
    None
}

/// The three-way breakdown of two track lists: playable rows only in `a`,
/// only in `b`, and rows of `a` paired with the first matching row of `b`.
pub fn diff_tracks(a: &Vec<TrackInfo>, b: &Vec<TrackInfo>, match_by_name: bool) -> (r: (
    Vec<TrackInfo>,
    Vec<TrackInfo>,
    Vec<DiffPair>,
))
    ensures
        track_views(r.0@) == track_views(only_in(a@, b@, match_by_name)),
        track_views(r.1@) == track_views(only_in(b@, a@, match_by_name)),
        pair_views(r.2@) == pairs_spec(a@, b@, match_by_name),
{
    let a_keys = keys_of(a, match_by_name);
    let b_keys = keys_of(b, match_by_name);
    let mut only_a: Vec<TrackInfo> = Vec::new();
    let mut both: Vec<DiffPair> = Vec::new();
    let mut k: usize = 0;
    while k < a.len()
        invariant
            k <= a@.len(),
            a_keys@.len() == a@.len(),
            forall|i: int| 0 <= i < a@.len() ==> (#[trigger] a_keys@[i])@ == key_spec(a@[i], match_by_name),
            b_keys@.len() == b@.len(),
            forall|i: int| 0 <= i < b@.len() ==> (#[trigger] b_keys@[i])@ == key_spec(b@[i], match_by_name),
            track_views(only_a@) == track_views(only_in(a@.subrange(0, k as int), b@, match_by_name)),
            pair_views(both@) == pairs_spec(a@.subrange(0, k as int), b@, match_by_name),
        decreases a@.len() - k,
    {
        let ghost pre = a@.subrange(0, k as int);
        let ghost x = a@[k as int];
        let ghost before_only = only_a@;
        let ghost before_both = both@;
        assert(a@.subrange(0, k + 1).drop_last() =~= pre);
        assert(a@.subrange(0, k + 1).last() == x);
        proof {
            reveal_with_fuel(Seq::filter, 1);
        }
        if a[k].playable {
            assert(a_keys@[k as int]@ == key_spec(x, match_by_name));
            match find_key(b, &b_keys, &a_keys[k], Ghost(match_by_name)) {
                Some(j) => {
                    proof {
                        lemma_first_key_unique(b@, key_spec(x, match_by_name), match_by_name, j as int);
                    }
                    let pa = copy_track(&a[k]);
                    let pb = copy_track(&b[j]);
                    let different = !str_eq(b[j].uri.as_str(), a[k].uri.as_str());
                    both.push(DiffPair { a: pa, b: pb, different_uri: different });
                    proof {
                        assert(pair_views(both@) =~= pair_views(before_both).push(pair_with(x, b@, match_by_name)));
                        assert(matched_in(a@.subrange(0, k + 1), b@, match_by_name) =~= matched_in(pre, b@, match_by_name).push(x));
                        assert(pairs_spec(a@.subrange(0, k + 1), b@, match_by_name) =~= pairs_spec(pre, b@, match_by_name).push(pair_with(x, b@, match_by_name)));
                        assert(only_in(a@.subrange(0, k + 1), b@, match_by_name) =~= only_in(pre, b@, match_by_name));
                    }
                },
                None => {
                    let c = copy_track(&a[k]);
                    only_a.push(c);
                    proof {
                        assert(track_views(only_a@) =~= track_views(before_only).push(track_view(x)));
                        assert(only_in(a@.subrange(0, k + 1), b@, match_by_name) =~= only_in(pre, b@, match_by_name).push(x));
                        assert(track_views(only_in(a@.subrange(0, k + 1), b@, match_by_name)) =~= track_views(only_in(pre, b@, match_by_name)).push(track_view(x)));
                        assert(matched_in(a@.subrange(0, k + 1), b@, match_by_name) =~= matched_in(pre, b@, match_by_name));
                    }
                },
            }
        } else {
            proof {
                assert(only_in(a@.subrange(0, k + 1), b@, match_by_name) =~= only_in(pre, b@, match_by_name));
                assert(matched_in(a@.subrange(0, k + 1), b@, match_by_name) =~= matched_in(pre, b@, match_by_name));
            }
        }
        k += 1;
    }
    assert(a@.subrange(0, a@.len() as int) =~= a@);

    let mut only_b: Vec<TrackInfo> = Vec::new();
    let mut m: usize = 0;
    while m < b.len()
        invariant
            m <= b@.len(),
            a_keys@.len() == a@.len(),
            forall|i: int| 0 <= i < a@.len() ==> (#[trigger] a_keys@[i])@ == key_spec(a@[i], match_by_name),
            b_keys@.len() == b@.len(),
            forall|i: int| 0 <= i < b@.len() ==> (#[trigger] b_keys@[i])@ == key_spec(b@[i], match_by_name),
            track_views(only_b@) == track_views(only_in(b@.subrange(0, m as int), a@, match_by_name)),
        decreases b@.len() - m,
    {
        let ghost pre = b@.subrange(0, m as int);
        let ghost x = b@[m as int];
        let ghost before = only_b@;
        assert(b@.subrange(0, m + 1).drop_last() =~= pre);
        assert(b@.subrange(0, m + 1).last() == x);
        proof {
            reveal_with_fuel(Seq::filter, 1);
        }
        assert(b_keys@[m as int]@ == key_spec(x, match_by_name));
        if b[m].playable && find_key(a, &a_keys, &b_keys[m], Ghost(match_by_name)).is_none() {
            let c = copy_track(&b[m]);
            only_b.push(c);
            proof {
                assert(track_views(only_b@) =~= track_views(before).push(track_view(x)));
                assert(only_in(b@.subrange(0, m + 1), a@, match_by_name) =~= only_in(pre, a@, match_by_name).push(x));
                assert(track_views(only_in(b@.subrange(0, m + 1), a@, match_by_name)) =~= track_views(only_in(pre, a@, match_by_name)).push(track_view(x)));
            }
        } else {
            proof {
                assert(only_in(b@.subrange(0, m + 1), a@, match_by_name) =~= only_in(pre, a@, match_by_name));
            }
        }
        m += 1;
    }
    assert(b@.subrange(0, b@.len() as int) =~= b@);
    (only_a, only_b, both)
}

/// A diff needs two different playlists.
pub fn check_pair(a_id: &str, b_id: &str) -> (r: Result<(), AppError>)
    ensures
        r is Ok <==> a_id@ != b_id@,
        r matches Err(e) ==> (e matches AppError::Other(m) && m@ == "Pick two different playlists."@),
{
    if str_eq(a_id, b_id) {
        return Err(AppError::Other(String::from_str("Pick two different playlists.")));
    }
    Ok(())
}

/// The diff of two fetched playlists.
pub fn diff(a: PlaylistRef, b: PlaylistRef, a_tracks: &Vec<TrackInfo>, b_tracks: &Vec<TrackInfo>, match_by_name: bool) -> (r: Result<DiffResult, AppError>)
    ensures
        r is Ok <==> a.id@ != b.id@,
        r matches Err(e) ==> (e matches AppError::Other(m) && m@ == "Pick two different playlists."@),
        r matches Ok(d) ==> {
            &&& d.a == a
            &&& d.b == b
            &&& d.match_by_name == match_by_name
            &&& track_views(d.only_a@) == track_views(only_in(a_tracks@, b_tracks@, match_by_name))
            &&& track_views(d.only_b@) == track_views(only_in(b_tracks@, a_tracks@, match_by_name))
            &&& pair_views(d.both@) == pairs_spec(a_tracks@, b_tracks@, match_by_name)
        },
{
    match check_pair(a.id.as_str(), b.id.as_str()) {
        Err(e) => Err(e),
        Ok(()) => {
            let (only_a, only_b, both) = diff_tracks(a_tracks, b_tracks, match_by_name);
            Ok(DiffResult { a, b, match_by_name, only_a, only_b, both })
        },
    }
}


/// No key is reported on both one-sided lists: a row only in `a` and a row
/// only in `b` never match each other.
pub proof fn one_sided_rows_share_no_key(a: Seq<TrackInfo>, b: Seq<TrackInfo>, by_name: bool, i: int, j: int)
    requires
        0 <= i < only_in(a, b, by_name).len(),
        0 <= j < only_in(b, a, by_name).len(),
    ensures
        key_spec(only_in(a, b, by_name)[i], by_name) != key_spec(only_in(b, a, by_name)[j], by_name),
{
    let pa = |t: TrackInfo| t.playable && !has_key(b, key_spec(t, by_name), by_name);
    let pb = |t: TrackInfo| t.playable && !has_key(a, key_spec(t, by_name), by_name);
    assert(only_in(a, b, by_name) == a.filter(pa));
    assert(only_in(b, a, by_name) == b.filter(pb));
    a.lemma_filter_pred(pa, i);
    b.lemma_filter_pred(pb, j);
    let y = b.filter(pb)[j];
    assert(b.filter(pb).contains(y));
    b.lemma_filter_contains_rev(pb, y);
    let w = choose|w: int| 0 <= w < b.len() && b[w] == y;
    assert(b[w].playable && key_spec(b[w], by_name) == key_spec(y, by_name));
    assert(has_key(b, key_spec(y, by_name), by_name));
}

} // verus!
