//! Writing a shadow playlist: which source tracks go into a fresh shuffle,
//! and what to make of a read-back that holds fewer copies of a track than
//! were written.
use vstd::prelude::*;
use vstd::string::StringExecFns;

use crate::error::{message_spec, AppError};
use crate::models::{artist_names_spec, str_eq, MissingTrack, SimplifiedPlaylist, Track};
use crate::order::{lemma_text_order, text_less, text_lt};
use crate::randomizer::{fisher_yates, listed, shadow_name_spec, views, SessionRow};
use crate::text::{chars_of, concat_chars, ends_with, ends_with_chars, string_from_chars};

verus! {

/// Why a benched track is left out of a shuffle.
pub const BENCHED_REASON: &'static str = "Benched; returns on the re-shuffle after the bench expires";

/// Why a track is reported after a read-back came up short.
pub const NOT_ADDED_REASON: &'static str =
    "Spotify accepted the request but did not add it; the track is probably unavailable or removed";

pub open spec fn opt_str_view(o: Option<&str>) -> Option<Seq<char>> {
    match o {
        Some(s) => Some(s@),
        None => None,
    }
}

pub open spec fn missing_view(m: MissingTrack) -> (Option<Seq<char>>, Seq<char>, Seq<char>, Seq<char>) {
    (match m.uri {
        Some(u) => Some(u@),
        None => None,
    }, m.name@, m.artists@, m.reason@)
}

pub open spec fn missing_views(s: Seq<MissingTrack>) -> Seq<(Option<Seq<char>>, Seq<char>, Seq<char>, Seq<char>)> {
    s.map_values(|m: MissingTrack| missing_view(m))
}

/// The entry's URI is the excluded one (the caller places it itself).
pub open spec fn is_excluded(t: Track, exclude: Option<Seq<char>>) -> bool {
    exclude is Some && t.uri is Some && t.uri->Some_0@ == exclude->Some_0
}

/// A source entry that goes into the shuffle: it has a URI, is not
/// excluded and is not benched.
pub open spec fn copied(t: Track, benched: Seq<String>, exclude: Option<Seq<char>>) -> bool {
    t.uri is Some && !is_excluded(t, exclude) && !listed(benched, t.uri->Some_0@)
}

/// A source entry left out because it is benched.
pub open spec fn held_back(t: Track, benched: Seq<String>, exclude: Option<Seq<char>>) -> bool {
    t.uri is Some && !is_excluded(t, exclude) && listed(benched, t.uri->Some_0@)
}

/// The URIs a shuffle is drawn from, in source order.
pub open spec fn source_uris(tracks: Seq<Track>, benched: Seq<String>, exclude: Option<Seq<char>>) -> Seq<Seq<char>>
    decreases tracks.len(),
{
    if tracks.len() == 0 {
        Seq::empty()
    } else {
        let prev = source_uris(tracks.drop_last(), benched, exclude);
        let t = tracks.last();
        if copied(t, benched, exclude) {
            prev.push(t.uri->Some_0@)
        } else {
            prev
        }
    }
}

/// The report for each benched source entry, in source order.
pub open spec fn benched_report(tracks: Seq<Track>, benched: Seq<String>, exclude: Option<Seq<char>>) -> Seq<
    (Option<Seq<char>>, Seq<char>, Seq<char>, Seq<char>),
>
    decreases tracks.len(),
{
    if tracks.len() == 0 {
        Seq::empty()
    } else {
        let prev = benched_report(tracks.drop_last(), benched, exclude);
        let t = tracks.last();
        if held_back(t, benched, exclude) {
            prev.push((Some(t.uri->Some_0@), t.name@, artist_names_spec(t), BENCHED_REASON@))
        } else {
            prev
        }
    }
}

fn is_excluded_exec(t: &Track, exclude: Option<&str>) -> (r: bool)
    ensures
        r == is_excluded(*t, opt_str_view(exclude)),
{
    match (exclude, &t.uri) {
        (Some(x), Some(u)) => str_eq(u.as_str(), x),
        _ => false,
    }
}

fn benched_has(benched: &Vec<String>, u: &String) -> (r: bool)
    ensures
        r == listed(benched@, u@),
{
    let mut k: usize = 0;
    while k < benched.len()
        invariant
            k <= benched@.len(),
            forall|t: int| 0 <= t < k ==> benched@[t]@ != u@,
        decreases benched@.len() - k,
    {
        if str_eq(benched[k].as_str(), u.as_str()) {
            return true;
        }
        k += 1;
    }
    false
}

/// The source's URIs minus benched ones and `exclude`, shuffled, with the
/// report of what was left out: the entries that could not be copied at
/// all (`skipped`), then the benched ones. An empty shuffle is refused
/// unless a track was excluded, since the caller then places that one.
pub fn build_order(tracks: &Vec<Track>, skipped: Vec<MissingTrack>, benched: &Vec<String>, exclude: Option<&str>) -> (r:
    Result<(Vec<String>, Vec<MissingTrack>), AppError>)
    ensures
        r is Err <==> (source_uris(tracks@, benched@, opt_str_view(exclude)).len() == 0 && exclude is None),
        r matches Err(e) ==> e is EmptyPlaylist,
        r matches Ok((uris, missing)) ==> {
            &&& exists|unshuffled: Seq<String>|
                views(unshuffled) == source_uris(tracks@, benched@, opt_str_view(exclude))
                    && uris@.to_multiset() == unshuffled.to_multiset()
            &&& missing_views(missing@) == missing_views(skipped@) + benched_report(
                tracks@,
                benched@,
                opt_str_view(exclude),
            )
        },
{
    let ghost ex = opt_str_view(exclude);
    let mut missing = skipped;
    let ghost head = missing_views(missing@);
    let mut uris: Vec<String> = Vec::new();
    let mut k: usize = 0;
    while k < tracks.len()
        invariant
            k <= tracks@.len(),
            ex == opt_str_view(exclude),
            views(uris@) == source_uris(tracks@.subrange(0, k as int), benched@, ex),
            missing_views(missing@) == head + benched_report(tracks@.subrange(0, k as int), benched@, ex),
        decreases tracks@.len() - k,
    {
        let t = &tracks[k];
        let ghost pre = tracks@.subrange(0, k as int);
        assert(tracks@.subrange(0, k + 1).drop_last() =~= pre);
        assert(tracks@.subrange(0, k + 1).last() == *t);
        match &t.uri {
            Some(u) => {
                if !is_excluded_exec(t, exclude) {
                    if benched_has(benched, u) {
                        let ghost before = missing@;
                        let m = MissingTrack {
                            uri: Some(u.clone()),
                            name: t.name.clone(),
                            artists: t.artist_names(),
                            reason: String::from_str(BENCHED_REASON),
                        };
                        missing.push(m);
                        assert(missing_views(missing@) =~= missing_views(before).push(missing_view(m)));
                    } else {
                        let ghost before = uris@;
                        uris.push(u.clone());
                        assert(views(uris@) =~= views(before).push(u@));
                    }
                }
            },
            None => {},
        }
        k += 1;
    }
    assert(tracks@.subrange(0, tracks@.len() as int) =~= tracks@);
    if uris.len() == 0 && exclude.is_none() {
        return Err(AppError::EmptyPlaylist);
    }
    let ghost unshuffled = uris@;
    fisher_yates(uris.as_mut_slice());
    assert(views(unshuffled) == source_uris(tracks@, benched@, ex) && uris@.to_multiset() == unshuffled.to_multiset());
    Ok((uris, missing))
}

// ---- the read-back ------------------------------------------------------------------

/// How often `u` occurs in `s`.
pub open spec fn count_of(s: Seq<Seq<char>>, u: Seq<char>) -> nat
    decreases s.len(),
{
    if s.len() == 0 {
        0
    } else {
        count_of(s.drop_last(), u) + if s.last() == u {
            1nat
        } else {
            0nat
        }
    }
}

/// The URIs of the tracks that have one.
pub open spec fn uris_of(ts: Seq<Track>) -> Seq<Seq<char>>
    decreases ts.len(),
{
    if ts.len() == 0 {
        Seq::empty()
    } else {
        let prev = uris_of(ts.drop_last());
        match ts.last().uri {
            Some(u) => prev.push(u@),
            None => prev,
        }
    }
}

/// Entry `i` of the written order is really there when the playlist holds
/// more copies of its URI than the order has before it: of each URI the
/// first copies stay and the missing ones come off the end.
pub open spec fn survives(order: Seq<Seq<char>>, actual: Seq<Seq<char>>, i: int) -> bool {
    count_of(order.subrange(0, i), order[i]) < count_of(actual, order[i])
}

pub open spec fn trimmed_upto(order: Seq<Seq<char>>, actual: Seq<Seq<char>>, n: nat) -> Seq<Seq<char>>
    decreases n,
{
    if n == 0 {
        Seq::empty()
    } else {
        let prev = trimmed_upto(order, actual, (n - 1) as nat);
        if survives(order, actual, n - 1) {
            prev.push(order[n - 1])
        } else {
            prev
        }
    }
}

/// The written order without the copies the read-back lacks.
pub open spec fn trimmed(order: Seq<Seq<char>>, actual: Seq<Seq<char>>) -> Seq<Seq<char>> {
    trimmed_upto(order, actual, order.len())
}

/// Each URI the read-back has fewer copies of, once, at its first place in
/// the order, with how many copies are missing.
pub open spec fn deficits_upto(order: Seq<Seq<char>>, actual: Seq<Seq<char>>, n: nat) -> Seq<(Seq<char>, nat)>
    decreases n,
{
    if n == 0 {
        Seq::empty()
    } else {
        let prev = deficits_upto(order, actual, (n - 1) as nat);
        let u = order[n - 1];
        if count_of(order.subrange(0, n - 1), u) == 0 && count_of(actual, u) < count_of(order, u) {
            prev.push((u, (count_of(order, u) - count_of(actual, u)) as nat))
        } else {
            prev
        }
    }
}

pub open spec fn deficits(order: Seq<Seq<char>>, actual: Seq<Seq<char>>) -> Seq<(Seq<char>, nat)> {
    deficits_upto(order, actual, order.len())
}

/// The name and artists a URI is reported under: those of the last source
/// entry with that URI, else the URI itself and no artists.
pub open spec fn name_for(tracks: Seq<Track>, u: Seq<char>) -> (Seq<char>, Seq<char>)
    decreases tracks.len(),
{
    if tracks.len() == 0 {
        (u, Seq::empty())
    } else {
        let t = tracks.last();
        if t.uri is Some && t.uri->Some_0@ == u {
            (t.name@, artist_names_spec(t))
        } else {
            name_for(tracks.drop_last(), u)
        }
    }
}

/// The report of each short URI.
pub open spec fn unwritten_report(order: Seq<Seq<char>>, actual: Seq<Seq<char>>, tracks: Seq<Track>) -> Seq<
    (Option<Seq<char>>, Seq<char>, Seq<char>, Seq<char>),
> {
    deficits(order, actual).map_values(
        |d: (Seq<char>, nat)| (Some(d.0), name_for(tracks, d.0).0, name_for(tracks, d.0).1, NOT_ADDED_REASON@),
    )
}

proof fn lemma_trimmed_counts(order: Seq<Seq<char>>, actual: Seq<Seq<char>>, n: nat, u: Seq<char>)
    requires
        n <= order.len(),
    ensures
        count_of(trimmed_upto(order, actual, n), u) == if count_of(order.subrange(0, n as int), u) < count_of(
            actual,
            u,
        ) {
            count_of(order.subrange(0, n as int), u)
        } else {
            count_of(actual, u)
        },
    decreases n,
{
    if n == 0 {
        assert(order.subrange(0, 0) =~= Seq::<Seq<char>>::empty());
    } else {
        lemma_trimmed_counts(order, actual, (n - 1) as nat, u);
        let prev = trimmed_upto(order, actual, (n - 1) as nat);
        assert(order.subrange(0, n as int).drop_last() =~= order.subrange(0, n - 1));
        if survives(order, actual, n - 1) {
            assert(trimmed_upto(order, actual, n).drop_last() =~= prev);
        }
    }
}

/// After a read-back, the order holds each URI as often as both the
/// written order and the playlist do, never more: no track is awaited that
/// the playlist does not hold.
pub proof fn trimmed_order_matches_the_playlist(order: Seq<Seq<char>>, actual: Seq<Seq<char>>, u: Seq<char>)
    ensures
        count_of(trimmed(order, actual), u) == if count_of(order, u) < count_of(actual, u) {
            count_of(order, u)
        } else {
            count_of(actual, u)
        },
{
    lemma_trimmed_counts(order, actual, order.len(), u);
    assert(order.subrange(0, order.len() as int) =~= order);
}

fn count_prefix(v: &Vec<String>, n: usize, u: &String) -> (r: usize)
    requires
        n <= v@.len(),
    ensures
        r == count_of(views(v@).subrange(0, n as int), u@),
        r <= n,
{
    let ghost s = views(v@);
    let mut c: usize = 0;
    let mut k: usize = 0;
    while k < n
        invariant
            n <= v@.len(),
            s == views(v@),
            k <= n,
            c == count_of(s.subrange(0, k as int), u@),
            c <= k,
        decreases n - k,
    {
        assert(s.subrange(0, k + 1).drop_last() =~= s.subrange(0, k as int));
        assert(s.subrange(0, k + 1).last() == v@[k as int]@);
        if str_eq(v[k].as_str(), u.as_str()) {
            c += 1;
        }
        k += 1;
    }
    c
}

fn uris_in(ts: &Vec<Track>) -> (r: Vec<String>)
    ensures
        views(r@) == uris_of(ts@),
{
    let mut r: Vec<String> = Vec::new();
    let mut k: usize = 0;
    while k < ts.len()
        invariant
            k <= ts@.len(),
            views(r@) == uris_of(ts@.subrange(0, k as int)),
        decreases ts@.len() - k,
    {
        assert(ts@.subrange(0, k + 1).drop_last() =~= ts@.subrange(0, k as int));
        assert(ts@.subrange(0, k + 1).last() == ts@[k as int]);
        match &ts[k].uri {
            Some(u) => {
                let ghost before = r@;
                r.push(u.clone());
                assert(views(r@) =~= views(before).push(u@));
            },
            None => {},
        }
        k += 1;
    }
    assert(ts@.subrange(0, ts@.len() as int) =~= ts@);
    r
}

fn name_of(tracks: &Vec<Track>, u: &String) -> (r: (String, String))
    ensures
        (r.0@, r.1@) == name_for(tracks@, u@),
{
    let mut k: usize = tracks.len();
    assert(tracks@.subrange(0, k as int) =~= tracks@);
    while k > 0
        invariant
            k <= tracks@.len(),
            name_for(tracks@, u@) == name_for(tracks@.subrange(0, k as int), u@),
        decreases k,
    {
        let t = &tracks[k - 1];
        assert(tracks@.subrange(0, k as int).drop_last() =~= tracks@.subrange(0, k - 1));
        assert(tracks@.subrange(0, k as int).last() == *t);
        match &t.uri {
            Some(x) => {
                if str_eq(x.as_str(), u.as_str()) {
                    return (t.name.clone(), t.artist_names());
                }
            },
            None => {},
        }
        k -= 1;
    }
    assert(tracks@.subrange(0, 0) =~= Seq::<Track>::empty());
    (u.clone(), String::new())
}

/// After writing `order`, compare with the playlist read back (`actual`):
/// copies Spotify silently dropped come off the order (so the end of the
/// playlist is never awaited on a track that is not there), and each short
/// URI is reported once, named after its source entry in `tracks`.
pub fn drop_unwritten(order: &mut Vec<String>, actual: &Vec<Track>, tracks: &Vec<Track>) -> (missing: Vec<
    MissingTrack,
>)
    ensures
        views(final(order)@) == trimmed(views(old(order)@), uris_of(actual@)),
        missing_views(missing@) == unwritten_report(views(old(order)@), uris_of(actual@), tracks@),
{
    let have = uris_in(actual);
    let ghost o = views(order@);
    let ghost a = views(have@);
    let n = order.len();
    let mut kept: Vec<String> = Vec::new();
    let mut missing: Vec<MissingTrack> = Vec::new();
    let mut i: usize = 0;
    while i < n
        invariant
            n == order@.len(),
            o == views(order@),
            a == views(have@),
            a == uris_of(actual@),
            i <= n,
            views(kept@) == trimmed_upto(o, a, i as nat),
            missing_views(missing@) == deficits_upto(o, a, i as nat).map_values(
                |d: (Seq<char>, nat)|
                    (Some(d.0), name_for(tracks@, d.0).0, name_for(tracks@, d.0).1, NOT_ADDED_REASON@),
            ),
        decreases n - i,
    {
        let u = &order[i];
        let before = count_prefix(order, i, u);
        let have_n = count_prefix(&have, have.len(), u);
        let want = count_prefix(order, n, u);
        assert(a.subrange(0, a.len() as int) =~= a);
        assert(o.subrange(0, n as int) =~= o);
        assert(o[i as int] == u@);
        if before < have_n {
            let ghost pre = kept@;
            kept.push(u.clone());
            assert(views(kept@) =~= views(pre).push(u@));
        }
        if before == 0 && have_n < want {
            let (name, artists) = name_of(tracks, u);
            let ghost pre = missing@;
            let m = MissingTrack {
                uri: Some(u.clone()),
                name,
                artists,
                reason: String::from_str(NOT_ADDED_REASON),
            };
            missing.push(m);
            assert(missing_views(missing@) =~= missing_views(pre).push(missing_view(m)));
        }
        proof {
            let f = |d: (Seq<char>, nat)|
                (Some(d.0), name_for(tracks@, d.0).0, name_for(tracks@, d.0).1, NOT_ADDED_REASON@);
            let prev = deficits_upto(o, a, i as nat);
            let next = deficits_upto(o, a, (i + 1) as nat);
            if before == 0 && have_n < want {
                assert(next == prev.push((u@, (want - have_n) as nat)));
                assert(next.map_values(f) =~= prev.map_values(f).push(f((u@, (want - have_n) as nat))));
            } else {
                assert(next == prev);
            }
        }
        i += 1;
    }
    *order = kept;
    missing
}

// ---- randomizing a playlist ------------------------------------------------------------

/// The source must be in the library and must not itself be a shadow.
pub open spec fn source_pick_ok(all: Seq<SimplifiedPlaylist>, source_id: Seq<char>, r: Result<usize, AppError>) -> bool {
    match r {
        Ok(i) => {
            &&& 0 <= i < all.len()
            &&& all[i as int].id@ == source_id
            &&& forall|j: int| 0 <= j < i ==> all[j].id@ != source_id
            &&& !ends_with(all[i as int].name@, "-Utilify"@)
        },
        Err(e) => {
            ||| ((forall|j: int| 0 <= j < all.len() ==> all[j].id@ != source_id) && (e matches AppError::Other(m)
                && m@ == "Playlist not found in your library. Refresh and try again."@))
            ||| ((exists|i: int|
                0 <= i < all.len() && all[i].id@ == source_id && (forall|j: int| 0 <= j < i ==> all[j].id@ != source_id)
                    && ends_with(all[i].name@, "-Utilify"@)) && (e matches AppError::Other(m) && m@
                == "That is already a Utilify shadow playlist. Randomize the original playlist instead."@))
        },
    }
}

/// Find the playlist to randomize among the user's playlists.
pub fn pick_source(all: &Vec<SimplifiedPlaylist>, source_id: &str) -> (r: Result<usize, AppError>)
    ensures
        source_pick_ok(all@, source_id@, r),
{
    let mut k: usize = 0;
    while k < all.len()
        invariant
            k <= all@.len(),
            forall|j: int| 0 <= j < k ==> all@[j].id@ != source_id@,
        decreases all@.len() - k,
    {
        if str_eq(all[k].id.as_str(), source_id) {
            if ends_with_chars(&chars_of(all[k].name.as_str()), &chars_of("-Utilify")) {
                return Err(
                    AppError::Other(
                        String::from_str(
                            "That is already a Utilify shadow playlist. Randomize the original playlist instead.",
                        ),
                    ),
                );
            }
            return Ok(k);
        }
        k += 1;
    }
    Err(AppError::Other(String::from_str("Playlist not found in your library. Refresh and try again.")))
}

/// A playlist that can serve as the shadow: the right name and, when the
/// user is known, owned by them.
pub open spec fn shadow_candidate(p: SimplifiedPlaylist, name: Seq<char>, me: Option<Seq<char>>) -> bool {
    p.name@ == name && match me {
        None => true,
        Some(m) => p.owner is Some && p.owner->Some_0.id is Some && p.owner->Some_0.id->Some_0@ == m,
    }
}

/// The first existing playlist to reuse as the shadow, if any.
pub fn find_shadow(all: &Vec<SimplifiedPlaylist>, name: &str, me: Option<&str>) -> (r: Option<usize>)
    ensures
        match r {
            Some(i) => i < all@.len() && shadow_candidate(all@[i as int], name@, opt_str_view(me)) && forall|j: int|
                0 <= j < i ==> !shadow_candidate(#[trigger] all@[j], name@, opt_str_view(me)),
            None => forall|j: int| 0 <= j < all@.len() ==> !shadow_candidate(#[trigger] all@[j], name@, opt_str_view(me)),
        },
{
    let mut k: usize = 0;
    while k < all.len()
        invariant
            k <= all@.len(),
            forall|j: int| 0 <= j < k ==> !shadow_candidate(#[trigger] all@[j], name@, opt_str_view(me)),
        decreases all@.len() - k,
    {
        let p = &all[k];
        if str_eq(p.name.as_str(), name) {
            let owned = match me {
                None => true,
                Some(m) => match p.owner_id() {
                    Some(o) => str_eq(o, m),
                    None => false,
                },
            };
            if owned {
                return Some(k);
            }
        }
        k += 1;
    }
    None
}

/// The description a new shadow playlist is created with.
pub fn shadow_description(source_name: &str) -> (r: String)
    ensures
        r@ == "Randomized copy of \""@ + source_name@ + "\" managed by Utilify."@,
{
    let head = concat_chars(&chars_of("Randomized copy of \""), &chars_of(source_name));
    let all = concat_chars(&head, &chars_of("\" managed by Utilify."));
    string_from_chars(all.as_slice())
}

fn last_of(v: &Vec<String>) -> (r: Option<String>)
    ensures
        v@.len() == 0 ==> r is None,
        v@.len() > 0 ==> (r matches Some(x) && x == v@.last()),
{
    if v.len() == 0 {
        None
    } else {
        Some(v[v.len() - 1].clone())
    }
}

/// The session a fresh randomize records: the written order, its length
/// and last track, the re-shuffle count carried over from an earlier
/// session of the same shadow, active and with nothing pinned.
pub fn new_session(
    shadow_id: String,
    source_id: String,
    source_name: String,
    order: Vec<String>,
    now: i64,
    previous: Option<&SessionRow>,
    missing: Vec<MissingTrack>,
) -> (r: SessionRow)
    requires
        order@.len() <= i64::MAX,
    ensures
        r.shadow_playlist_id == shadow_id,
        r.source_playlist_id == source_id,
        r.source_name == source_name,
        r.shadow_name@ == shadow_name_spec(source_name@),
        r.track_count == order@.len(),
        r.last_track_uri == (if order@.len() == 0 {
            None
        } else {
            Some(order@.last())
        }),
        r.last_shuffled_at == now,
        r.reshuffle_count == match previous {
            Some(p) => p.reshuffle_count,
            None => 0,
        },
        r.active,
        r.track_order == order,
        r.pending_pin is None,
        r.missing_tracks == missing,
{
    let shadow_name = crate::randomizer::shadow_name(source_name.as_str());
    let last = last_of(&order);
    SessionRow {
        shadow_playlist_id: shadow_id,
        source_playlist_id: source_id,
        source_name,
        shadow_name,
        track_count: order.len() as i64,
        last_track_uri: last,
        last_shuffled_at: now,
        reshuffle_count: match previous {
            Some(p) => p.reshuffle_count,
            None => 0,
        },
        active: true,
        track_order: order,
        pending_pin: None,
        missing_tracks: missing,
    }
}

/// What the user is told after the shadow was written: whether playback
/// started and, when it did not, why. Nothing is said when no start was
/// asked for.
pub open spec fn playback_outcome_spec(attempt: Option<Result<(), AppError>>, name: Seq<char>) -> (bool, Option<
    Seq<char>,
>) {
    match attempt {
        None => (false, None),
        Some(Ok(())) => (true, None),
        Some(Err(AppError::NoActiveDevice)) => (false, Some(
            "\""@ + name
                + "\" is ready, but no Spotify device is available. Open Spotify and play it from there with shuffle off."@,
        )),
        Some(Err(AppError::PremiumRequired)) => (false, Some(
            "\""@ + name + "\" is ready. Spotify Premium is required to start playback automatically."@,
        )),
        Some(Err(e)) => (false, Some(
            "\""@ + name + "\" is ready, but playback could not be started: "@ + message_spec(e),
        )),
    }
}

fn quoted_then(name: &str, rest: &str) -> (r: String)
    ensures
        r@ == "\""@ + name@ + rest@,
{
    let head = concat_chars(&chars_of("\""), &chars_of(name));
    let all = concat_chars(&head, &chars_of(rest));
    string_from_chars(all.as_slice())
}

pub fn playback_outcome(attempt: &Option<Result<(), AppError>>, name: &str) -> (r: (bool, Option<String>))
    ensures
        (r.0, match r.1 {
            Some(m) => Some(m@),
            None => None,
        }) == playback_outcome_spec(*attempt, name@),
{
    match attempt {
        None => (false, None),
        Some(Ok(())) => (true, None),
        Some(Err(AppError::NoActiveDevice)) => (false, Some(quoted_then(
            name,
            "\" is ready, but no Spotify device is available. Open Spotify and play it from there with shuffle off.",
        ))),
        Some(Err(AppError::PremiumRequired)) => (false, Some(quoted_then(
            name,
            "\" is ready. Spotify Premium is required to start playback automatically.",
        ))),
        Some(Err(e)) => {
            let msg = e.message();
            let head = quoted_then(name, "\" is ready, but playback could not be started: ");
            let all = concat_chars(&chars_of(head.as_str()), &chars_of(msg.as_str()));
            (false, Some(string_from_chars(all.as_slice())))
        },
    }
}

// ---- re-shuffling ----------------------------------------------------------------------

/// Each entry sorts strictly before the next, so none repeats.
pub open spec fn strictly_sorted(s: Seq<Seq<char>>) -> bool {
    forall|p: int, q: int| 0 <= p < q < s.len() ==> text_lt(#[trigger] s[p], #[trigger] s[q])
}

proof fn lemma_insert_sorted(s: Seq<Seq<char>>, j: int, u: Seq<char>)
    requires
        strictly_sorted(s),
        0 <= j <= s.len(),
        forall|p: int| 0 <= p < j ==> text_lt(#[trigger] s[p], u),
        j < s.len() ==> text_lt(u, s[j]),
    ensures
        strictly_sorted(s.insert(j, u)),
{
    let t = s.insert(j, u);
    assert forall|p: int, q: int| 0 <= p < q < t.len() implies text_lt(#[trigger] t[p], #[trigger] t[q]) by {
        if q < j {
            assert(t[p] == s[p] && t[q] == s[q]);
        } else if q == j {
            assert(t[p] == s[p]);
        } else {
            assert(t[q] == s[q - 1]);
            if q - 1 > j {
                assert(text_lt(s[j], s[q - 1]));
                lemma_text_order(u, s[j], s[q - 1]);
            }
            assert(text_lt(u, s[q - 1]));
            if p < j {
                assert(t[p] == s[p]);
                lemma_text_order(s[p], u, s[q - 1]);
            } else if p > j {
                assert(t[p] == s[p - 1]);
            }
        }
    }
}

proof fn lemma_insert_contains(s: Seq<Seq<char>>, j: int, u: Seq<char>, x: Seq<char>)
    requires
        0 <= j <= s.len(),
    ensures
        s.insert(j, u).contains(x) <==> (s.contains(x) || x == u),
{
    let t = s.insert(j, u);
    if t.contains(x) {
        let k = choose|k: int| 0 <= k < t.len() && t[k] == x;
        if k < j {
            assert(s[k] == x);
        } else if k > j {
            assert(s[k - 1] == x);
        }
    }
    if s.contains(x) {
        let k = choose|k: int| 0 <= k < s.len() && s[k] == x;
        if k < j {
            assert(t[k] == x);
        } else {
            assert(t[k + 1] == x);
        }
    }
    if x == u {
        assert(t[j] == x);
    }
}

proof fn lemma_push_contains(s: Seq<Seq<char>>, a: Seq<char>, x: Seq<char>)
    ensures
        s.push(a).contains(x) <==> (s.contains(x) || x == a),
{
    let t = s.push(a);
    if t.contains(x) {
        let k = choose|k: int| 0 <= k < t.len() && t[k] == x;
        if k < s.len() {
            assert(s[k] == x);
        }
    }
    if s.contains(x) {
        let k = choose|k: int| 0 <= k < s.len() && s[k] == x;
        assert(t[k] == x);
    }
    if x == a {
        assert(t[s.len() as int] == x);
    }
}

/// What an incremental re-shuffle removes first: every URI of the order but
/// the playing one, once each and in text order. A removal by URI takes out
/// every copy, so it must run before the fresh order is appended.
pub fn removals_around(order: &Vec<String>, pivot: &str) -> (r: Vec<String>)
    ensures
        strictly_sorted(views(r@)),
        forall|x: Seq<char>| #[trigger] views(r@).contains(x) <==> (views(order@).contains(x) && x != pivot@),
{
    let ghost o = views(order@);
    let mut out: Vec<String> = Vec::new();
    let mut i: usize = 0;
    while i < order.len()
        invariant
            i <= order@.len(),
            o == views(order@),
            strictly_sorted(views(out@)),
            forall|x: Seq<char>|
                #[trigger] views(out@).contains(x) <==> (o.subrange(0, i as int).contains(x) && x != pivot@),
        decreases order@.len() - i,
    {
        let u = &order[i];
        let ghost uv = u@;
        assert(o.subrange(0, i + 1) =~= o.subrange(0, i as int).push(uv));
        proof {
            assert forall|x: Seq<char>| o.subrange(0, i + 1).contains(x) <==> (o.subrange(0, i as int).contains(x)
                || x == uv) by {
                lemma_push_contains(o.subrange(0, i as int), uv, x);
            }
        }
        if !str_eq(u.as_str(), pivot) {
            let uc = chars_of(u.as_str());
            let ghost s = views(out@);
            let mut j: usize = 0;
            let mut stop = false;
            while !stop && j < out.len()
                invariant
                    s == views(out@),
                    uc@ == uv,
                    j <= out@.len(),
                    forall|p: int| 0 <= p < j ==> text_lt(#[trigger] s[p], uv),
                    stop ==> j < out@.len() && !text_lt(s[j as int], uv),
                decreases (out@.len() - j) * 2 + (if stop {
                    0int
                } else {
                    1int
                }),
            {
                if text_less(&chars_of(out[j].as_str()), &uc) {
                    j += 1;
                } else {
                    stop = true;
                }
            }
            if stop && str_eq(out[j].as_str(), u.as_str()) {
                assert(s[j as int] == uv);
                proof {
                    assert forall|x: Seq<char>| #[trigger] views(out@).contains(x) <==> (o.subrange(
                        0,
                        i + 1,
                    ).contains(x) && x != pivot@) by {
                        if x == uv {
                            assert(views(out@)[j as int] == x);
                        }
                    }
                }
            } else {
                proof {
                    if stop {
                        lemma_text_order(s[j as int], uv, uv);
                    }
                    lemma_insert_sorted(s, j as int, uv);
                }
                out.insert(j, u.clone());
                assert(views(out@) =~= s.insert(j as int, uv));
                proof {
                    assert forall|x: Seq<char>| #[trigger] views(out@).contains(x) <==> (o.subrange(
                        0,
                        i + 1,
                    ).contains(x) && x != pivot@) by {
                        lemma_insert_contains(s, j as int, uv, x);
                    }
                }
            }
        } else {
            proof {
                assert forall|x: Seq<char>| #[trigger] views(out@).contains(x) <==> (o.subrange(0, i + 1).contains(x)
                    && x != pivot@) by {
                    if x == uv {
                        assert(x == pivot@);
                    }
                }
            }
        }
        i += 1;
    }
    assert(o.subrange(0, order@.len() as int) =~= o);
    out
}

/// The order after a re-shuffle, and the pin: around a playing track the
/// order is that track, then the fresh shuffle, and the track stays pinned
/// until the poll sees playback move on; otherwise the fresh shuffle alone.
pub fn reshuffled_order(pivot: Option<&str>, fresh: Vec<String>) -> (r: (Vec<String>, Option<String>))
    ensures
        match pivot {
            Some(p) => views(r.0@) == seq![p@] + views(fresh@) && (r.1 matches Some(q) && q@ == p@),
            None => r.0 == fresh && r.1 is None,
        },
{
    match pivot {
        Some(p) => {
            let mut order: Vec<String> = Vec::new();
            order.push(String::from_str(p));
            let mut k: usize = 0;
            while k < fresh.len()
                invariant
                    k <= fresh@.len(),
                    views(order@) == seq![p@] + views(fresh@.subrange(0, k as int)),
                decreases fresh@.len() - k,
            {
                let ghost before = order@;
                order.push(fresh[k].clone());
                assert(views(fresh@.subrange(0, k + 1)) =~= views(fresh@.subrange(0, k as int)).push(
                    fresh@[k as int]@,
                ));
                assert(views(order@) =~= views(before).push(fresh@[k as int]@));
                k += 1;
            }
            assert(fresh@.subrange(0, fresh@.len() as int) =~= fresh@);
            (order, Some(String::from_str(p)))
        },
        None => (fresh, None),
    }
}

/// The session after a re-shuffle: the new order, its length and last
/// track, the time, the pin; an automatic re-shuffle counts one more.
pub fn after_reshuffle(
    session: &SessionRow,
    order: Vec<String>,
    pinned: Option<String>,
    now: i64,
    automatic: bool,
    missing: Vec<MissingTrack>,
) -> (r: SessionRow)
    requires
        order@.len() <= i64::MAX,
        session.reshuffle_count < i64::MAX,
    ensures
        r.shadow_playlist_id == session.shadow_playlist_id,
        r.source_playlist_id == session.source_playlist_id,
        r.source_name == session.source_name,
        r.shadow_name == session.shadow_name,
        r.active == session.active,
        r.track_count == order@.len(),
        r.last_track_uri == (if order@.len() == 0 {
            None
        } else {
            Some(order@.last())
        }),
        r.last_shuffled_at == now,
        r.reshuffle_count == session.reshuffle_count + (if automatic {
            1int
        } else {
            0int
        }),
        r.track_order == order,
        r.pending_pin == pinned,
        r.missing_tracks == missing,
{
    let last = last_of(&order);
    SessionRow {
        shadow_playlist_id: session.shadow_playlist_id.clone(),
        source_playlist_id: session.source_playlist_id.clone(),
        source_name: session.source_name.clone(),
        shadow_name: session.shadow_name.clone(),
        track_count: order.len() as i64,
        last_track_uri: last,
        last_shuffled_at: now,
        reshuffle_count: session.reshuffle_count + if automatic {
            1
        } else {
            0
        },
        active: session.active,
        track_order: order,
        pending_pin: pinned,
        missing_tracks: missing,
    }
}

} // verus!
