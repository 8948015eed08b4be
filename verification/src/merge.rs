//! Playlist Merge: combine several playlists into a new deduplicated one.
use vstd::prelude::*;
use vstd::string::StringExecFns;

use crate::error::AppError;
use crate::generated::GeneratedPlaylist;
use crate::models::{join_spec, join_strings, str_eq};
use crate::text::{chars_of, concat_chars, string_from_chars, trim, trim_chars};
use crate::tracks::{key_of, key_spec, TrackInfo};

verus! {

#[derive(Debug, Clone)]
pub struct MergeResult {
    pub playlist: GeneratedPlaylist,
    pub sources: usize,
    pub tracks_seen: usize,
    pub duplicates_skipped: usize,
}

/// Where a merge stands after some rows: URIs kept, URIs seen, name keys
/// seen, playable rows seen, rows skipped as duplicates.
pub type MergeState = (Seq<Seq<char>>, Seq<Seq<char>>, Seq<Seq<char>>, nat, nat);

/// Walking the rows in order: unplayable rows are passed over; a URI seen
/// before is a duplicate; with name matching, so is a title and primary
/// artist seen before (its URI still counts as seen); anything else is kept.
pub open spec fn merge_spec(ts: Seq<TrackInfo>, dedupe_by_name: bool) -> MergeState
    decreases ts.len(),
{
    if ts.len() == 0 {
        (Seq::empty(), Seq::empty(), Seq::empty(), 0, 0)
    } else {
        let (kept, uris, names, seen, skipped) = merge_spec(ts.drop_last(), dedupe_by_name);
        let t = ts.last();
        let k = key_spec(t, true);
        if !t.playable {
            (kept, uris, names, seen, skipped)
        } else if uris.contains(t.uri@) {
            (kept, uris, names, seen + 1, skipped + 1)
        } else if dedupe_by_name && names.contains(k) {
            (kept, uris.push(t.uri@), names, seen + 1, skipped + 1)
        } else {
            (
                kept.push(t.uri@),
                uris.push(t.uri@),
                if dedupe_by_name {
                    names.push(k)
                } else {
                    names
                },
                seen + 1,
                skipped,
            )
        }
    }
}

fn listed(list: &Vec<String>, s: &String) -> (r: bool)
    ensures
        r == list@.map_values(|x: String| x@).contains(s@),
{
    let ghost v = list@.map_values(|x: String| x@);
    let mut k: usize = 0;
    while k < list.len()
        invariant
            k <= list@.len(),
            v == list@.map_values(|x: String| x@),
            forall|t: int| 0 <= t < k ==> v[t] != s@,
        decreases list@.len() - k,
    {
        if str_eq(list[k].as_str(), s.as_str()) {
            assert(v[k as int] == s@);
            return true;
        }
        k += 1;
    }
    false
}

/// The URIs a merge writes, in order, with the number of playable rows seen
/// and of duplicates skipped.
pub fn merge_uris(tracks: &Vec<TrackInfo>, dedupe_by_name: bool) -> (r: (Vec<String>, usize, usize))
    ensures
        r.0@.map_values(|s: String| s@) == merge_spec(tracks@, dedupe_by_name).0,
        r.1 == merge_spec(tracks@, dedupe_by_name).3,
        r.2 == merge_spec(tracks@, dedupe_by_name).4,
{
    let mut kept: Vec<String> = Vec::new();
    let mut uris: Vec<String> = Vec::new();
    let mut names: Vec<String> = Vec::new();
    let mut seen: usize = 0;
    let mut skipped: usize = 0;
    let mut i: usize = 0;
    while i < tracks.len()
        invariant
            i <= tracks@.len(),
            seen <= i,
            skipped <= seen,
            ({
                let st = merge_spec(tracks@.subrange(0, i as int), dedupe_by_name);
                &&& kept@.map_values(|s: String| s@) == st.0
                &&& uris@.map_values(|s: String| s@) == st.1
                &&& names@.map_values(|s: String| s@) == st.2
                &&& seen == st.3
                &&& skipped == st.4
            }),
        decreases tracks@.len() - i,
    {
        let ghost pre = tracks@.subrange(0, i as int);
        assert(tracks@.subrange(0, i + 1).drop_last() =~= pre);
        assert(tracks@.subrange(0, i + 1).last() == tracks@[i as int]);
        let t = &tracks[i];
        if t.playable {
            let uri = t.uri.clone();
            if listed(&uris, &uri) {
                seen += 1;
                skipped += 1;
            } else {
                let ghost before_uris = uris@;
                uris.push(uri.clone());
                assert(uris@.map_values(|s: String| s@) =~= before_uris.map_values(|s: String| s@).push(t.uri@));
                let key = key_of(t, true);
                if dedupe_by_name && listed(&names, &key) {
                    seen += 1;
                    skipped += 1;
                } else {
                    let ghost before_kept = kept@;
                    kept.push(uri);
                    assert(kept@.map_values(|s: String| s@) =~= before_kept.map_values(|s: String| s@).push(t.uri@));
                    if dedupe_by_name {
                        let ghost before_names = names@;
                        names.push(key);
                        assert(names@.map_values(|s: String| s@) =~= before_names.map_values(|s: String| s@).push(key_spec(*t, true)));
                    }
                    seen += 1;
                }
            }
        }
        i += 1;
    }
    assert(tracks@.subrange(0, tracks@.len() as int) =~= tracks@);
    (kept, seen, skipped)
}

proof fn lemma_merge_counts(ts: Seq<TrackInfo>, dedupe_by_name: bool)
    ensures
        ({
            let st = merge_spec(ts, dedupe_by_name);
            &&& st.3 == st.0.len() + st.4
            &&& forall|a: int, b: int| 0 <= a < b < st.0.len() ==> st.0[a] != st.0[b]
            &&& forall|a: int| 0 <= a < st.0.len() ==> #[trigger] st.1.contains(st.0[a])
        }),
    decreases ts.len(),
{
    if ts.len() > 0 {
        lemma_merge_counts(ts.drop_last(), dedupe_by_name);
        let st = merge_spec(ts.drop_last(), dedupe_by_name);
        let t = ts.last();
        assert forall|a: int| 0 <= a < st.0.len() implies #[trigger] st.1.push(t.uri@).contains(st.0[a]) by {
            assert(st.1.contains(st.0[a]));
            let w = choose|w: int| 0 <= w < st.1.len() && st.1[w] == st.0[a];
            assert(st.1.push(t.uri@)[w] == st.0[a]);
        }
        assert(st.1.push(t.uri@)[st.1.len() as int] == t.uri@);
    }
}

/// A merge never writes the same URI twice, and every playable row it saw
/// was either written or counted as a duplicate.
pub proof fn merge_writes_each_uri_once(ts: Seq<TrackInfo>, dedupe_by_name: bool)
    ensures
        ({
            let st = merge_spec(ts, dedupe_by_name);
            &&& forall|a: int, b: int| 0 <= a < b < st.0.len() ==> st.0[a] != st.0[b]
            &&& st.3 == st.0.len() + st.4
        }),
{
    lemma_merge_counts(ts, dedupe_by_name);
}

/// A merge takes at least two playlists.
pub fn check_sources(count: usize) -> (r: Result<(), AppError>)
    ensures
        r is Ok <==> count >= 2,
        r matches Err(e) ==> (e matches AppError::Other(m) && m@ == "Pick at least two playlists to merge."@),
{
    if count < 2 {
        return Err(AppError::Other(String::from_str("Pick at least two playlists to merge.")));
    }
    Ok(())
}

/// The description of a merged playlist: the trimmed name given, or
/// "Merge of" and the source names.
pub open spec fn merge_description_spec(name: Seq<char>, sources: Seq<Seq<char>>) -> Seq<char> {
    if trim(name).len() == 0 {
        "Merge of "@ + join_spec(sources, ", "@)
    } else {
        trim(name)
    }
}

pub fn merge_description(name: &str, sources: &Vec<String>) -> (r: String)
    ensures
        r@ == merge_description_spec(name@, sources@.map_values(|s: String| s@)),
{
    let t = trim_chars(&chars_of(name));
    if t.len() == 0 {
        let joined = join_strings(sources, ", ");
        let all = concat_chars(&chars_of("Merge of "), &chars_of(joined.as_str()));
        string_from_chars(all.as_slice())
    } else {
        string_from_chars(t.as_slice())
    }
}

} // verus!
