//! Shadow Playlist Randomizer: the shuffle, the shadow's naming, the stored
//! order's bookkeeping, and what the 30-second poll does about a session.
//!
//! A source playlist is copied into `{name}-Utilify` in a Fisher-Yates order
//! and played sequentially with Spotify shuffle off. The shuffled order is
//! kept in the session so the polling loop can tell where playback is.
use vstd::prelude::*;
use vstd::seq_lib::group_to_multiset_ensures;
use vstd::seq_lib::to_multiset_update;

use rand::Rng;

use crate::models::{MissingTrack, PlaybackState};
use crate::text::{chars_of, concat_chars, string_from_chars};

verus! {

pub const SHADOW_SUFFIX: &'static str = "-Utilify";

/// Re-shuffle once playback is within this many tracks of the end.
pub const END_WINDOW: usize = 1;

pub open spec fn shadow_name_spec(source_name: Seq<char>) -> Seq<char> {
    source_name + "-Utilify"@
}

pub fn shadow_name(source_name: &str) -> (r: String)
    ensures
        r@ == shadow_name_spec(source_name@),
{
    let all = concat_chars(&chars_of(source_name), &chars_of("-Utilify"));
    string_from_chars(all.as_slice())
}

pub open spec fn shadow_context_uri_spec(shadow_id: Seq<char>) -> Seq<char> {
    "spotify:playlist:"@ + shadow_id
}

pub fn shadow_context_uri(shadow_id: &str) -> (r: String)
    ensures
        r@ == shadow_context_uri_spec(shadow_id@),
{
    let all = concat_chars(&chars_of("spotify:playlist:"), &chars_of(shadow_id));
    string_from_chars(all.as_slice())
}

// ---- the shuffle ----------------------------------------------------------------

#[verifier::external_type_specification]
#[verifier::external_body]
pub struct ExThreadRng(rand::rngs::ThreadRng);

/// `rand::rng()`: a handle on the thread-local generator.
#[verifier::external_body]
fn thread_rng() -> rand::rngs::ThreadRng {
    rand::rng()
}

/// `Rng::random_range(0..=hi)`: some index in `0..=hi`; which one is chance.
#[verifier::external_body]
fn random_index_up_to(rng: &mut rand::rngs::ThreadRng, hi: usize) -> (r: usize)
    ensures
        r <= hi,
{
    rng.random_range(0..=hi)
}

/// `<[T]>::swap`: the two entries trade places.
#[verifier::external_body]
fn swap_items<T>(items: &mut [T], i: usize, j: usize)
    requires
        i < old(items)@.len(),
        j < old(items)@.len(),
    ensures
        final(items)@ == old(items)@.update(i as int, old(items)@[j as int]).update(
            j as int,
            old(items)@[i as int],
        ),
{
    items.swap(i, j)
}

proof fn lemma_swap_keeps_multiset<T>(s: Seq<T>, i: int, j: int)
    requires
        0 <= i < s.len(),
        0 <= j < s.len(),
    ensures
        s.update(i, s[j]).update(j, s[i]).to_multiset() =~= s.to_multiset(),
{
    broadcast use group_to_multiset_ensures, to_multiset_update;

    let s1 = s.update(i, s[j]);
    assert(s1.to_multiset() == s.to_multiset().insert(s[j]).remove(s[i]));
    assert(s1[j] == s[j]);
    assert(s1.update(j, s[i]).to_multiset() == s1.to_multiset().insert(s[i]).remove(s1[j]));
    assert(s.to_multiset().insert(s[j]).remove(s[i]).insert(s[i]).remove(s[j]) =~= s.to_multiset());
}

/// `s` with the entries at `i` and `j` traded.
pub open spec fn swap_spec<T>(s: Seq<T>, i: int, j: int) -> Seq<T> {
    s.update(i, s[j]).update(j, s[i])
}

/// Draws fit a list of `n` items: one per position from the last down to
/// the second, the `k`-th at most that position (`n - 1 - k`).
pub open spec fn valid_draws(draws: Seq<usize>, n: nat) -> bool {
    &&& (n == 0 && draws.len() == 0) || draws.len() + 1 == n
    &&& forall|k: int| 0 <= k < draws.len() ==> #[trigger] draws[k] <= n - 1 - k
}

/// The Fisher-Yates swaps from the `k`-th draw on: position `n - 1 - k`
/// trades places with position `draws[k]`.
pub open spec fn fy_from<T>(s: Seq<T>, draws: Seq<usize>, k: int) -> Seq<T>
    decreases draws.len() - k,
{
    if k < 0 || k >= draws.len() {
        s
    } else {
        fy_from(swap_spec(s, s.len() - 1 - k, draws[k] as int), draws, k + 1)
    }
}

/// The Fisher-Yates shuffle of `s` driven by `draws`: for `i` from the last
/// position down to 1, position `i` trades places with `draws[n - 1 - i]`.
pub open spec fn fy_spec<T>(s: Seq<T>, draws: Seq<usize>) -> Seq<T> {
    fy_from(s, draws, 0)
}

/// The Fisher-Yates (Durstenfeld) swaps for given draws.
pub fn shuffle_with<T>(items: &mut [T], draws: &[usize])
    requires
        valid_draws(draws@, old(items)@.len()),
    ensures
        final(items)@ == fy_spec(old(items)@, draws@),
        final(items)@.len() == old(items)@.len(),
        final(items)@.to_multiset() == old(items)@.to_multiset(),
{
    let n = items.len();
    let ghost start = items@;
    let mut k: usize = 0;
    while k < draws.len()
        invariant
            items@.len() == n,
            n == start.len(),
            valid_draws(draws@, n as nat),
            k <= draws@.len(),
            fy_from(items@, draws@, k as int) == fy_spec(start, draws@),
            items@.to_multiset() == start.to_multiset(),
        decreases draws@.len() - k,
    {
        let i = n - 1 - k;
        let j = draws[k];
        let ghost before = items@;
        swap_items(items, i, j);
        proof {
            lemma_swap_keeps_multiset(before, i as int, j as int);
            assert(items@ == swap_spec(before, i as int, j as int));
        }
        k += 1;
    }
}

/// In-place Fisher-Yates (Durstenfeld) shuffle: every permutation equally
/// likely. One draw in `0..=i` is asked of the generator for each position
/// `i` from the last down to 1, and the items are then swapped by
/// `shuffle_with`. Whatever the generator returns, the items are rearranged,
/// never lost or duplicated; fewer than two items stay as they are.
pub fn fisher_yates<T>(items: &mut [T])
    ensures
        final(items)@.len() == old(items)@.len(),
        final(items)@.to_multiset() == old(items)@.to_multiset(),
        old(items)@.len() < 2 ==> final(items)@ == old(items)@,
        exists|draws: Seq<usize>|
            #[trigger] valid_draws(draws, old(items)@.len()) && final(items)@ == fy_spec(old(items)@, draws),
{
    let n = items.len();
    let mut draws: Vec<usize> = Vec::new();
    if n >= 2 {
        let mut rng = thread_rng();
        let mut k: usize = 0;
        while k + 1 < n
            invariant
                n >= 2,
                k + 1 <= n,
                draws@.len() == k,
                forall|q: int| 0 <= q < k ==> #[trigger] draws@[q] <= n - 1 - q,
            decreases n - k,
        {
            let d = random_index_up_to(&mut rng, n - 1 - k);
            draws.push(d);
            k += 1;
        }
    }
    let ghost before = items@;
    shuffle_with(items, draws.as_slice());
    proof {
        assert(valid_draws(draws@, before.len()));
        if before.len() < 2 {
            assert(fy_from(before, draws@, 0) == before);
        }
    }
}

// ---- sessions ----------------------------------------------------------------------

#[derive(Debug, Clone)]
pub struct SessionRow {
    pub shadow_playlist_id: String,
    pub source_playlist_id: String,
    pub source_name: String,
    pub shadow_name: String,
    pub track_count: i64,
    pub last_track_uri: Option<String>,
    pub last_shuffled_at: i64,
    pub reshuffle_count: i64,
    pub active: bool,
    /// The shuffled order currently written to the shadow playlist.
    pub track_order: Vec<String>,
    /// Track pinned to position 0 by the last re-shuffle, until the poller has
    /// confirmed that playback moved on into the new order.
    pub pending_pin: Option<String>,
    /// Source entries that did not make it into the shadow playlist.
    pub missing_tracks: Vec<MissingTrack>,
}

pub open spec fn views(s: Seq<String>) -> Seq<Seq<char>> {
    s.map_values(|u: String| u@)
}

pub open spec fn listed(list: Seq<String>, u: Seq<char>) -> bool {
    exists|k: int| 0 <= k < list.len() && list[k]@ == u
}

/// The order with every URI in `remove` taken out.
pub open spec fn without(order: Seq<Seq<char>>, remove: Seq<String>) -> Seq<Seq<char>> {
    order.filter(|u: Seq<char>| !listed(remove, u))
}

pub(crate) fn is_listed(list: &Vec<String>, u: &String) -> (r: bool)
    ensures
        r == listed(list@, u@),
{
    let mut k: usize = 0;
    while k < list.len()
        invariant
            k <= list.len(),
            forall|t: int| 0 <= t < k ==> list@[t]@ != u@,
        decreases list.len() - k,
    {
        if list[k] == *u {
            return true;
        }
        k += 1;
    }
    false
}

/// Keep a tracked shadow's stored order in sync after URIs were removed from
/// the playlist: the order loses them, and when it changed, the count and the
/// last track follow. Returns whether anything was pruned.
pub fn prune_session_order(session: &mut SessionRow, remove: &Vec<String>) -> (changed: bool)
    requires
        old(session).track_order@.len() <= i64::MAX,
    ensures
        views(final(session).track_order@) == without(views(old(session).track_order@), remove@),
        changed == (final(session).track_order@.len() != old(session).track_order@.len()),
        changed ==> final(session).track_count == final(session).track_order@.len() as i64,
        changed ==> (final(session).last_track_uri is None <==> final(session).track_order@.len() == 0),
        changed && final(session).track_order@.len() > 0 ==> final(session).last_track_uri->Some_0@
            == final(session).track_order@.last()@,
        !changed ==> final(session).track_count == old(session).track_count
            && final(session).last_track_uri == old(session).last_track_uri,
        final(session).shadow_playlist_id == old(session).shadow_playlist_id,
        final(session).source_playlist_id == old(session).source_playlist_id,
        final(session).active == old(session).active,
        final(session).pending_pin == old(session).pending_pin,
{
    let ghost old_views = views(session.track_order@);
    let mut kept: Vec<String> = Vec::new();
    let mut k: usize = 0;
    let n = session.track_order.len();
    while k < n
        invariant
            n == session.track_order@.len(),
            old_views == views(session.track_order@),
            k <= n,
            views(kept@) == without(old_views.subrange(0, k as int), remove@),
            kept@.len() <= k,
        decreases n - k,
    {
        let ghost before = kept@;
        assert(old_views.subrange(0, k + 1).drop_last() =~= old_views.subrange(0, k as int));
        if !is_listed(remove, &session.track_order[k]) {
            let u = session.track_order[k].clone();
            kept.push(u);
            assert(views(kept@) =~= views(before).push(u@));
        }
        proof {
            reveal_with_fuel(Seq::filter, 1);
        }
        k += 1;
    }
    assert(old_views.subrange(0, n as int) =~= old_views);
    let changed = kept.len() != n;
    if changed {
        session.track_count = kept.len() as i64;
        session.last_track_uri = if kept.len() > 0 {
            Some(kept[kept.len() - 1].clone())
        } else {
            None
        };
    }
    session.track_order = kept;
    changed
}

// ---- the poll ------------------------------------------------------------------------

/// `u` is what is playing: the playlist URI, or the relink origin.
pub open spec fn is_playing_uri(u: Seq<char>, p: PlaybackState) -> bool {
    (p.item->Some_0.uri is Some && u == p.item->Some_0.uri->Some_0@) || (
    p.item->Some_0.linked_from is Some && p.item->Some_0.linked_from->Some_0.uri is Some && u
        == p.item->Some_0.linked_from->Some_0.uri->Some_0@)
}

pub open spec fn has_track_uri(p: PlaybackState) -> bool {
    p.item is Some && p.item->Some_0.uri is Some
}

/// `k` is the first index of the order holding what `p` is playing.
pub open spec fn is_position(order: Seq<String>, p: PlaybackState, k: int) -> bool {
    &&& has_track_uri(p)
    &&& 0 <= k < order.len()
    &&& is_playing_uri(order[k]@, p)
    &&& forall|t: int| 0 <= t < k ==> !is_playing_uri(#[trigger] order[t]@, p)
}

pub open spec fn position_spec(order: Seq<String>, p: PlaybackState) -> Option<int> {
    if exists|k: int| is_position(order, p, k) {
        Some(choose|k: int| is_position(order, p, k))
    } else {
        None
    }
}

proof fn lemma_position_unique(order: Seq<String>, p: PlaybackState, k: int)
    requires
        is_position(order, p, k),
    ensures
        position_spec(order, p) == Some(k),
{
    let c = choose|c: int| is_position(order, p, c);
    assert(is_position(order, p, c));
    if c < k {
        assert(!is_playing_uri(order[c]@, p));
    }
    if k < c {
        assert(!is_playing_uri(order[k]@, p));
    }
}

fn view_eq(a: &str, b: &String) -> (r: bool)
    ensures
        r == (a@ == b@),
{
    crate::models::str_eq(a, b.as_str())
}

/// Index of the playing track within an ordered list of URIs, matching the
/// playlist URI or, for relinked tracks, the original URI.
pub fn position_in(order: &Vec<String>, state: &PlaybackState) -> (r: Option<usize>)
    ensures
        match r {
            Some(k) => position_spec(order@, *state) == Some(k as int),
            None => position_spec(order@, *state) is None,
        },
{
    let uri = match state.track_uri() {
        Some(u) => u,
        None => {
            return None;
        },
    };
    let original = state.original_track_uri();
    let mut k: usize = 0;
    while k < order.len()
        invariant
            k <= order.len(),
            has_track_uri(*state),
            uri@ == state.item->Some_0.uri->Some_0@,
            original is Some <==> (state.item->Some_0.linked_from is Some
                && state.item->Some_0.linked_from->Some_0.uri is Some),
            original matches Some(o) ==> o@ == state.item->Some_0.linked_from->Some_0.uri->Some_0@,
            forall|t: int| 0 <= t < k ==> !is_playing_uri(#[trigger] order@[t]@, *state),
        decreases order.len() - k,
    {
        let by_uri = view_eq(uri, &order[k]);
        let by_original = match original {
            Some(o) => view_eq(o, &order[k]),
            None => false,
        };
        assert((by_uri || by_original) == is_playing_uri(order@[k as int]@, *state));
        if by_uri || by_original {
            assert(is_position(order@, *state, k as int));
            proof {
                lemma_position_unique(order@, *state, k as int);
            }
            assert(position_spec(order@, *state) == Some(k as int));
            return Some(k);
        }
        k += 1;
    }
    None
}

/// Index of the playing track within the session's order, matching the
/// playlist URI or, for relinked tracks, the original URI.
pub fn position_of(session: &SessionRow, state: &PlaybackState) -> (r: Option<usize>)
    ensures
        match r {
            Some(k) => position_spec(session.track_order@, *state) == Some(k as int),
            None => position_spec(session.track_order@, *state) is None,
        },
{
    position_in(&session.track_order, state)
}

/// What the poll does about one session.
#[derive(Debug, Clone, PartialEq, Eq)]
pub enum SessionAction {
    /// Nothing to do.
    Idle,
    /// Forget the pending hand-over check.
    ClearPin,
    /// Forget the pending hand-over check and restart the shadow at position 1.
    ClearPinAndRestart,
    /// The context ran out: full re-shuffle, then play from the top.
    FullReshuffle,
    /// Re-shuffle incrementally around the track playing now.
    IncrementalReshuffle { pivot: String },
}

pub enum ActionSpec {
    Idle,
    ClearPin,
    ClearPinAndRestart,
    FullReshuffle,
    IncrementalReshuffle(Seq<char>),
}

pub open spec fn action_view(a: SessionAction) -> ActionSpec {
    match a {
        SessionAction::Idle => ActionSpec::Idle,
        SessionAction::ClearPin => ActionSpec::ClearPin,
        SessionAction::ClearPinAndRestart => ActionSpec::ClearPinAndRestart,
        SessionAction::FullReshuffle => ActionSpec::FullReshuffle,
        SessionAction::IncrementalReshuffle { pivot } => ActionSpec::IncrementalReshuffle(pivot@),
    }
}

pub open spec fn in_shadow(p: PlaybackState, shadow_uri: Seq<char>) -> bool {
    p.context is Some && p.context->Some_0.uri@ == shadow_uri
}

/// Playback parked: paused at 0:00.
pub open spec fn parked(p: PlaybackState) -> bool {
    !p.is_playing && match p.progress_ms {
        Some(ms) => ms == 0,
        None => true,
    }
}

/// The poll's decision, in order:
/// 1. after an incremental re-shuffle, confirm the hand-over (restart at 1
///    if Spotify stopped after the pivot or jumped to the final index);
/// 2. parked at 0:00 on the final track: full re-shuffle;
/// 3. within `END_WINDOW` of the end, or 4. jumped back to the start from
///    further in: incremental re-shuffle around the playing track.
pub open spec fn decide_spec(
    order: Seq<String>,
    pending_pin: Option<Seq<char>>,
    shadow_uri: Seq<char>,
    previous: Option<PlaybackState>,
    current: Option<PlaybackState>,
) -> ActionSpec {
    let n = order.len();
    if n < 2 {
        ActionSpec::Idle
    } else if !(current is Some && in_shadow(current->Some_0, shadow_uri)) {
        if pending_pin is Some {
            ActionSpec::ClearPin
        } else {
            ActionSpec::Idle
        }
    } else {
        let cur = current->Some_0;
        match position_spec(order, cur) {
            None => ActionSpec::Idle,
            Some(idx) => {
                let cur_uri = order[idx]@;
                match pending_pin {
                    Some(pin) => if cur_uri == pin {
                        if parked(cur) {
                            ActionSpec::ClearPinAndRestart
                        } else {
                            ActionSpec::Idle
                        }
                    } else if idx + 1 >= n {
                        ActionSpec::ClearPinAndRestart
                    } else {
                        ActionSpec::ClearPin
                    },
                    None => if parked(cur) && idx + 1 >= n {
                        ActionSpec::FullReshuffle
                    } else {
                        let near_end = idx + END_WINDOW >= n;
                        let wrapped = previous is Some && in_shadow(previous->Some_0, shadow_uri)
                            && previous->Some_0.is_playing && match position_spec(
                            order,
                            previous->Some_0,
                        ) {
                            Some(prev_idx) => idx <= 1 && prev_idx >= 2 && prev_idx > idx,
                            None => false,
                        };
                        if near_end || wrapped {
                            ActionSpec::IncrementalReshuffle(cur_uri)
                        } else {
                            ActionSpec::Idle
                        }
                    },
                }
            },
        }
    }
}

fn context_is(p: &PlaybackState, shadow_uri: &String) -> (r: bool)
    ensures
        r == in_shadow(*p, shadow_uri@),
{
    match p.context_uri() {
        Some(c) => view_eq(c, shadow_uri),
        None => false,
    }
}

/// Decide what the poll does about `session` given the previous and the
/// latest playback state.
pub fn decide_session(
    session: &SessionRow,
    previous: Option<&PlaybackState>,
    current: Option<&PlaybackState>,
) -> (action: SessionAction)
    requires
        session.track_order@.len() < usize::MAX,
    ensures
        action_view(action) == decide_spec(
            session.track_order@,
            match session.pending_pin {
                Some(p) => Some(p@),
                None => None,
            },
            shadow_context_uri_spec(session.shadow_playlist_id@),
            match previous {
                Some(p) => Some(*p),
                None => None,
            },
            match current {
                Some(p) => Some(*p),
                None => None,
            },
        ),
{
    let n = session.track_order.len();
    if n < 2 {
        return SessionAction::Idle;
    }
    let shadow_uri = shadow_context_uri(session.shadow_playlist_id.as_str());
    let cur = match current {
        Some(p) => if context_is(p, &shadow_uri) {
            p
        } else {
            return if session.pending_pin.is_some() {
                SessionAction::ClearPin
            } else {
                SessionAction::Idle
            };
        },
        None => {
            return if session.pending_pin.is_some() {
                SessionAction::ClearPin
            } else {
                SessionAction::Idle
            };
        },
    };
    let cur_idx = match position_of(session, cur) {
        Some(k) => k,
        None => {
            return SessionAction::Idle;
        },
    };
    let cur_uri = session.track_order[cur_idx].clone();
    let is_parked = !cur.is_playing && match cur.progress_ms {
        Some(ms) => ms == 0,
        None => true,
    };
    match &session.pending_pin {
        Some(pin) => {
            if cur_uri == *pin {
                return if is_parked {
                    SessionAction::ClearPinAndRestart
                } else {
                    SessionAction::Idle
                };
            }
            return if cur_idx + 1 >= n {
                SessionAction::ClearPinAndRestart
            } else {
                SessionAction::ClearPin
            };
        },
        None => {},
    }
    if is_parked && cur_idx + 1 >= n {
        return SessionAction::FullReshuffle;
    }
    let near_end = cur_idx + END_WINDOW >= n;
    let wrapped = match previous {
        Some(p) => if context_is(p, &shadow_uri) && p.is_playing {
            match position_of(session, p) {
                Some(prev_idx) => cur_idx <= 1 && prev_idx >= 2 && prev_idx > cur_idx,
                None => false,
            }
        } else {
            false
        },
        None => false,
    };
    if near_end || wrapped {
        SessionAction::IncrementalReshuffle { pivot: cur_uri }
    } else {
        SessionAction::Idle
    }
}

/// Law: a session of fewer than two tracks is never touched, and nothing but
/// pin cleanup happens while the shadow is not what is playing.
pub proof fn poll_leaves_idle_sessions_alone(
    order: Seq<String>,
    pending_pin: Option<Seq<char>>,
    shadow_uri: Seq<char>,
    previous: Option<PlaybackState>,
    current: Option<PlaybackState>,
)
    ensures
        order.len() < 2 ==> decide_spec(order, pending_pin, shadow_uri, previous, current) is Idle,
        !(current is Some && in_shadow(current->Some_0, shadow_uri)) ==> (decide_spec(
            order,
            pending_pin,
            shadow_uri,
            previous,
            current,
        ) is Idle || decide_spec(order, pending_pin, shadow_uri, previous, current) is ClearPin),
{
}

/// Law: an incremental re-shuffle always pivots on a track of the current
/// order, the one playing now.
pub proof fn incremental_pivot_is_playing(
    order: Seq<String>,
    pending_pin: Option<Seq<char>>,
    shadow_uri: Seq<char>,
    previous: Option<PlaybackState>,
    current: Option<PlaybackState>,
)
    requires
        decide_spec(order, pending_pin, shadow_uri, previous, current) is IncrementalReshuffle,
    ensures
        current is Some,
        position_spec(order, current->Some_0) is Some,
        decide_spec(order, pending_pin, shadow_uri, previous, current)->IncrementalReshuffle_0
            == order[position_spec(order, current->Some_0)->Some_0]@,
        is_playing_uri(
            decide_spec(order, pending_pin, shadow_uri, previous, current)->IncrementalReshuffle_0,
            current->Some_0,
        ),
        pending_pin is None,
{
    let k = position_spec(order, current->Some_0)->Some_0;
    assert(is_position(order, current->Some_0, k));
}

/// Law: reaching the last track of the order, with no hand-over pending,
/// always re-shuffles: around that track while it plays, in full when
/// playback parked on it.
pub proof fn reaching_the_end_reshuffles(
    order: Seq<String>,
    shadow_uri: Seq<char>,
    previous: Option<PlaybackState>,
    current: PlaybackState,
)
    requires
        order.len() >= 2,
        in_shadow(current, shadow_uri),
        position_spec(order, current) == Some(order.len() - 1),
    ensures
        parked(current) ==> decide_spec(order, None, shadow_uri, previous, Some(current)) is FullReshuffle,
        !parked(current) ==> decide_spec(order, None, shadow_uri, previous, Some(current))
            == ActionSpec::IncrementalReshuffle(order[order.len() - 1]@),
{
}

#[derive(Debug, Clone)]
pub struct RandomizeResult {
    pub session: SessionRow,
    pub playback_started: bool,
    pub warning: Option<String>,
}

} // verus!
